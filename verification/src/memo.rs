//! The memo of one match invocation, as it is kept while matching.

use std::collections::HashMap;
use vstd::prelude::*;
use vstd::arithmetic::div_mod::lemma_fundamental_div_mod_converse;
use crate::semantics::{Hit, Key, Scene, Table};
use crate::value::Value;

verus! {

broadcast use vstd::std_specs::hash::group_hash_axioms;

/// What a match found, as the semantics speaks of it.
pub open spec fn hit_of<'a>(found: Option<(usize, Value<'a>)>) -> Option<Hit> {
    match found {
        Some((end, value)) => Some(Hit { end: end as int, value: value@ }),
        None => None,
    }
}

/// The number that the entry for `key` is kept under, in a text of
/// `stride - 1` bytes.
pub open spec fn code(stride: int, key: Key) -> int {
    key.rule * stride + key.start
}

/// Two keys with one number are one key.
pub proof fn lemma_code_injective(stride: int, a: Key, b: Key)
    requires
        0 <= a.start < stride,
        0 <= b.start < stride,
        code(stride, a) == code(stride, b),
    ensures
        a.rule == b.rule,
        a.start == b.start,
{
    lemma_fundamental_div_mod_converse(code(stride, a), stride, a.rule, a.start);
    lemma_fundamental_div_mod_converse(code(stride, b), stride, b.rule, b.start);
}

/// The number of an admitted key fits in 128 bits.
pub proof fn lemma_code_bound(stride: int, key: Key)
    requires
        0 <= key.rule <= usize::MAX,
        0 <= key.start < stride <= usize::MAX + 1,
    ensures
        0 <= code(stride, key) <= u128::MAX,
{
    assert(key.rule * stride <= usize::MAX * (usize::MAX + 1)) by (nonlinear_arith)
        requires
            0 <= key.rule <= usize::MAX,
            0 <= stride <= usize::MAX + 1,
    ;
    assert(0 <= key.rule * stride) by (nonlinear_arith)
        requires
            0 <= key.rule,
            0 <= stride,
    ;
    assert(usize::MAX * (usize::MAX + 1) + usize::MAX <= u128::MAX) by (nonlinear_arith)
        requires
            usize::MAX <= 0xffff_ffff_ffff_ffff,
            u128::MAX == 0xffff_ffff_ffff_ffff_ffff_ffff_ffff_ffff,
    ;
}

/// The memo of one match invocation: for the rules entered so far, the seed
/// or the committed result, kept apart by whether whitespace skipping was on.
pub struct Memo<'a> {
    loose: HashMap<u128, Option<(usize, Value<'a>)>>,
    tight: HashMap<u128, Option<(usize, Value<'a>)>>,
    stride: u128,
}

impl<'a> Memo<'a> {
    /// The entries kept for one whitespace context.
    pub closed spec fn side(&self, atomic: bool) -> Map<u128, Option<(usize, Value<'a>)>> {
        if atomic {
            self.tight@
        } else {
            self.loose@
        }
    }

    /// Whether the memo was made for the text and grammar of `scene`.
    pub closed spec fn frames(&self, scene: Scene) -> bool {
        &&& self.stride == scene.len() + 1
        &&& scene.len() <= usize::MAX
        &&& scene.rules.len() <= usize::MAX
    }

    /// The memo as the semantics speaks of it.
    pub closed spec fn table(&self, scene: Scene) -> Table {
        Map::new(
            |key: Key|
                scene.admits(key) && self.side(key.atomic).contains_key(
                    code(self.stride as int, key) as u128,
                ),
            |key: Key| hit_of(self.side(key.atomic)[code(self.stride as int, key) as u128]),
        )
    }

    /// An empty memo for a text of `len` bytes.
    pub fn new(Ghost(scene): Ghost<Scene>, len: usize) -> (memo: Self)
        requires
            scene.len() == len,
            scene.rules.len() <= usize::MAX,
        ensures
            memo.frames(scene),
            memo.table(scene) == Map::<Key, Option<Hit>>::empty(),
    {
        let memo = Memo { loose: HashMap::new(), tight: HashMap::new(), stride: len as u128 + 1 };
        assert(memo.table(scene) =~= Map::<Key, Option<Hit>>::empty());
        memo
    }

    fn slot(&self, Ghost(scene): Ghost<Scene>, rule: usize, at: usize) -> (slot: u128)
        requires
            self.frames(scene),
            at <= scene.len(),
        ensures
            slot == code(self.stride as int, Key { rule: rule as int, start: at as int, atomic: false }),
    {
        proof {
            lemma_code_bound(
                self.stride as int,
                Key { rule: rule as int, start: at as int, atomic: false },
            );
        }
        (rule as u128) * self.stride + (at as u128)
    }

    /// The entry for a rule at an offset, if the memo holds one.
    pub fn lookup(&self, Ghost(scene): Ghost<Scene>, rule: usize, at: usize, atomic: bool) -> (entry:
        Option<Option<(usize, Value<'a>)>>)
        requires
            self.frames(scene),
            scene.admits(Key { rule: rule as int, start: at as int, atomic }),
        ensures
            match entry {
                Some(found) => self.table(scene).dom().contains(
                    Key { rule: rule as int, start: at as int, atomic },
                ) && self.table(scene)[Key { rule: rule as int, start: at as int, atomic }]
                    == hit_of(found),
                None => !self.table(scene).dom().contains(
                    Key { rule: rule as int, start: at as int, atomic },
                ),
            },
    {
        let slot = self.slot(Ghost(scene), rule, at);
        let kept = if atomic {
            self.tight.get(&slot)
        } else {
            self.loose.get(&slot)
        };
        match kept {
            Some(Some((end, value))) => Some(Some((*end, value.duplicate()))),
            Some(None) => Some(None),
            None => None,
        }
    }

    /// Files `found` as the entry for a rule at an offset, in place of any
    /// entry there.
    pub fn store(
        &mut self,
        Ghost(scene): Ghost<Scene>,
        rule: usize,
        at: usize,
        atomic: bool,
        found: Option<(usize, Value<'a>)>,
    )
        requires
            old(self).frames(scene),
            scene.admits(Key { rule: rule as int, start: at as int, atomic }),
        ensures
            final(self).frames(scene),
            final(self).table(scene) == old(self).table(scene).insert(
                Key { rule: rule as int, start: at as int, atomic },
                hit_of(found),
            ),
    {
        let slot = self.slot(Ghost(scene), rule, at);
        let ghost key = Key { rule: rule as int, start: at as int, atomic };
        let ghost stride = self.stride as int;
        if atomic {
            self.tight.insert(slot, found);
        } else {
            self.loose.insert(slot, found);
        }
        proof {
            let before = old(self).table(scene).insert(key, hit_of(found));
            let after = self.table(scene);
            assert forall|other: Key| before.dom().contains(other) <==> after.dom().contains(
                other,
            ) by {
                if scene.admits(other) {
                    lemma_code_bound(stride, other);
                    if code(stride, other) == code(stride, key) {
                        lemma_code_injective(stride, other, key);
                    }
                }
            }
            assert forall|other: Key| before.dom().contains(other) implies before[other]
                == after[other] by {
                lemma_code_bound(stride, other);
                if code(stride, other) == code(stride, key) {
                    lemma_code_injective(stride, other, key);
                }
            }
            assert(before =~= after);
        }
    }
}

} // verus!
