//! Why matching ends and stays within the text: every attempt leaves a memo
//! that holds at least what it held before, and a match ends between the
//! offset it began at and the end of the text.

use vstd::prelude::*;
use vstd::utf8::*;
use crate::grammar::{AtomView, ExprView, RuleView};
use crate::semantics::{find, find_from, weight, weight_from, Hit, Key, Outcome, Scene, Table};
use crate::value::ValueView;

verus! {

/// A rule found by name is a rule of that name, and none before it has the
/// name.
pub proof fn lemma_find_from(rules: Seq<RuleView>, name: Seq<char>, from: int)
    requires
        0 <= from,
    ensures
        match find_from(rules, name, from) {
            Some(rule) => from <= rule < rules.len() && rules[rule].name == name && forall|i: int|
                from <= i < rule ==> (#[trigger] rules[i]).name != name,
            None => forall|i: int| from <= i < rules.len() ==> (#[trigger] rules[i]).name != name,
        },
    decreases rules.len() - from,
{
    if from < rules.len() && rules[from].name != name {
        lemma_find_from(rules, name, from + 1);
    }
}

impl Scene {
    /// Whether `key` names a rule of the grammar and an offset of the text.
    pub open spec fn admits(self, key: Key) -> bool {
        0 <= key.rule < self.rules.len() && 0 <= key.start <= self.len()
    }

    /// Whether memo `t` is one of this scene: its keys name rules and
    /// offsets that exist, and a match in it ends between the offset of its
    /// key and the end of the text.
    pub open spec fn fits(self, t: Table) -> bool {
        forall|key: Key| #[trigger]
            t.dom().contains(key) ==> self.admits(key) && match t[key] {
                Some(hit) => key.start <= hit.end <= self.len(),
                None => true,
            }
    }

    /// Whether memo `after` holds an entry for every key of `before`.
    pub open spec fn extends(before: Table, after: Table) -> bool {
        forall|key: Key| #[trigger] before.dom().contains(key) ==> after.dom().contains(key)
    }

    /// What holds of the outcome `o` of any attempt made at `at` from memo
    /// `t`.
    pub open spec fn sound(self, t: Table, at: int, o: Outcome) -> bool {
        &&& self.fits(o.table)
        &&& Self::extends(t, o.table)
        &&& self.room(o.table) <= self.room(t)
        &&& match o.hit {
            Some(hit) => at <= hit.end <= self.len(),
            None => true,
        }
    }

    proof fn lemma_row_shrinks(self, before: Table, after: Table, rule: int, upto: int)
        requires
            Self::extends(before, after),
        ensures
            self.vacant_row(after, rule, upto) <= self.vacant_row(before, rule, upto),
        decreases upto,
    {
        if upto > 0 {
            self.lemma_row_shrinks(before, after, rule, upto - 1);
        }
    }

    proof fn lemma_rows_shrink(self, before: Table, after: Table, rules: int)
        requires
            Self::extends(before, after),
        ensures
            self.vacant_rows(after, rules) <= self.vacant_rows(before, rules),
        decreases rules,
    {
        if rules > 0 {
            self.lemma_rows_shrink(before, after, rules - 1);
            self.lemma_row_shrinks(before, after, rules - 1, self.len() + 1);
        }
    }

    /// A memo that holds more has less room.
    pub proof fn lemma_room_shrinks(self, before: Table, after: Table)
        requires
            Self::extends(before, after),
        ensures
            self.room(after) <= self.room(before),
    {
        self.lemma_rows_shrink(before, after, self.rules.len() as int);
    }

    proof fn lemma_row_taken(self, before: Table, after: Table, key: Key, upto: int)
        requires
            Self::extends(before, after),
            !before.dom().contains(key),
            after.dom().contains(key),
            0 <= key.start < upto,
        ensures
            self.vacant_row(after, key.rule, upto) < self.vacant_row(before, key.rule, upto),
        decreases upto,
    {
        if upto - 1 == key.start {
            self.lemma_row_shrinks(before, after, key.rule, upto - 1);
            let twin = Key { rule: key.rule, start: key.start, atomic: !key.atomic };
            assert(before.dom().contains(twin) ==> after.dom().contains(twin));
            assert(key == Key { rule: key.rule, start: key.start, atomic: key.atomic });
        } else {
            self.lemma_row_taken(before, after, key, upto - 1);
        }
    }

    proof fn lemma_rows_taken(self, before: Table, after: Table, key: Key, rules: int)
        requires
            Self::extends(before, after),
            !before.dom().contains(key),
            after.dom().contains(key),
            0 <= key.start <= self.len(),
            0 <= key.rule < rules,
        ensures
            self.vacant_rows(after, rules) < self.vacant_rows(before, rules),
        decreases rules,
    {
        if rules - 1 == key.rule {
            self.lemma_rows_shrink(before, after, rules - 1);
            self.lemma_row_taken(before, after, key, self.len() + 1);
        } else {
            self.lemma_rows_taken(before, after, key, rules - 1);
            self.lemma_row_shrinks(before, after, rules - 1, self.len() + 1);
        }
    }

    /// A new entry takes room.
    pub proof fn lemma_room_taken(self, t: Table, key: Key, entry: Option<Hit>)
        requires
            self.admits(key),
            !t.dom().contains(key),
        ensures
            self.room(t.insert(key, entry)) < self.room(t),
    {
        self.lemma_rows_taken(t, t.insert(key, entry), key, self.rules.len() as int);
    }

    /// Skipping whitespace moves forward and stays within the text.
    pub proof fn lemma_skip_bounds(self, at: int)
        requires
            0 <= at <= self.len(),
        ensures
            at <= self.skip(at) <= self.len(),
        decreases self.len() - at,
    {
        if self.blank_at(at) {
            self.lemma_skip_bounds(at + self.scalar_at(at).unwrap().1);
        }
    }

    /// A leaf that matches ends within the text and not before it began.
    pub proof fn lemma_leaf_bounds(self, atom: AtomView, at: int)
        requires
            0 <= at <= self.len(),
        ensures
            match self.leaf(atom, at) {
                Some(end) => at <= end <= self.len(),
                None => true,
            },
    {
    }

    /// Every attempt on an expression is sound.
    pub proof fn lemma_run(self, e: ExprView, at: int, atomic: bool, t: Table)
        requires
            self.fits(t),
            0 <= at <= self.len(),
        ensures
            self.sound(t, at, self.run(e, at, atomic, t)),
        decreases self.room(t), weight(e), 0nat,
    {
        match e {
            ExprView::Alt(left, right) => {
                self.lemma_run(*left, at, atomic, t);
                let first = self.run(*left, at, atomic, t);
                if first.hit is None {
                    self.lemma_run(*right, at, atomic, first.table);
                }
            },
            ExprView::Sequence(items) => {
                if items.len() == 1 {
                    assert(weight_from(items, 0) == 1 + weight(items[0]) + weight_from(items, 1));
                    self.lemma_run(items[0], at, atomic, t);
                } else {
                    self.lemma_run_sequence(items, 0, at, atomic, t);
                }
            },
            ExprView::Repeat0(inner) => {
                self.lemma_run_many(*inner, at, true, atomic, t, Seq::empty());
            },
            ExprView::Repeat1(inner) => {
                self.lemma_run_many(*inner, at, true, atomic, t, Seq::empty());
            },
            ExprView::Optional(inner) => {
                self.lemma_run(*inner, at, atomic, t);
            },
            ExprView::PosLookahead(inner) => {
                self.lemma_run(*inner, at, atomic, t);
            },
            ExprView::NegLookahead(inner) => {
                self.lemma_run(*inner, at, atomic, t);
            },
            ExprView::Atomic(inner) => {
                self.lemma_run(*inner, at, true, t);
            },
            ExprView::SpanCapture(inner) => {
                self.lemma_run(*inner, at, atomic, t);
            },
            ExprView::DelimitedList(item, separator) => {
                self.lemma_run(*item, at, atomic, t);
                let first = self.run(*item, at, atomic, t);
                if let Some(hit) = first.hit {
                    self.lemma_run_listed(
                        *item,
                        *separator,
                        hit.end,
                        atomic,
                        first.table,
                        seq![hit.value],
                        Seq::empty(),
                    );
                }
            },
            ExprView::Atom(atom) => {
                match atom {
                    AtomView::Ident(name, _) => {
                        lemma_find_from(self.rules, name, 0);
                        if let Some(rule) = find(self.rules, name) {
                            self.lemma_call(rule, at, atomic, t);
                        }
                    },
                    _ => {
                        self.lemma_leaf_bounds(atom, at);
                    },
                }
            },
        }
    }

    /// Every attempt on the rest of a sequence is sound.
    pub proof fn lemma_run_sequence(
        self,
        items: Seq<ExprView>,
        i: int,
        at: int,
        atomic: bool,
        t: Table,
    )
        requires
            self.fits(t),
            0 <= at <= self.len(),
        ensures
            self.sound(t, at, self.run_sequence(items, i, at, atomic, t)),
        decreases self.room(t), weight_from(items, i), 1nat,
    {
        if 0 <= i < items.len() {
            self.lemma_skip_bounds(at);
            let from = if i == 0 || atomic {
                at
            } else {
                self.skip(at)
            };
            self.lemma_run(items[i], from, atomic, t);
            let one = self.run(items[i], from, atomic, t);
            if let Some(hit) = one.hit {
                self.lemma_run_sequence(items, i + 1, hit.end, atomic, one.table);
            }
        }
    }

    /// Every attempt on the rest of a repetition is sound.
    pub proof fn lemma_run_many(
        self,
        inner: ExprView,
        at: int,
        first: bool,
        atomic: bool,
        t: Table,
        got: Seq<ValueView>,
    )
        requires
            self.fits(t),
            0 <= at <= self.len(),
        ensures
            self.sound(t, at, self.run_many(inner, at, first, atomic, t, got)),
            self.run_many(inner, at, first, atomic, t, got).hit is Some,
        decreases self.room(t), weight(inner) + 1, self.gap(at),
    {
        self.lemma_skip_bounds(at);
        let from = if first || atomic {
            at
        } else {
            self.skip(at)
        };
        self.lemma_run(inner, from, atomic, t);
        let one = self.run(inner, from, atomic, t);
        if let Some(hit) = one.hit {
            if at < hit.end {
                self.lemma_run_many(inner, hit.end, false, atomic, one.table, got.push(hit.value));
            }
        }
    }

    /// Every attempt on the rest of a delimited list is sound.
    pub proof fn lemma_run_listed(
        self,
        item: ExprView,
        separator: ExprView,
        at: int,
        atomic: bool,
        t: Table,
        items: Seq<ValueView>,
        separators: Seq<ValueView>,
    )
        requires
            self.fits(t),
            0 <= at <= self.len(),
        ensures
            self.sound(t, at, self.run_listed(item, separator, at, atomic, t, items, separators)),
            self.run_listed(item, separator, at, atomic, t, items, separators).hit is Some,
        decreases self.room(t), weight(item) + weight(separator) + 1, self.gap(at),
    {
        self.lemma_skip_bounds(at);
        let from = if atomic {
            at
        } else {
            self.skip(at)
        };
        self.lemma_run(separator, from, atomic, t);
        let between = self.run(separator, from, atomic, t);
        if let Some(mark) = between.hit {
            self.lemma_skip_bounds(mark.end);
            let onward = if atomic {
                mark.end
            } else {
                self.skip(mark.end)
            };
            self.lemma_run(item, onward, atomic, between.table);
            let next = self.run(item, onward, atomic, between.table);
            if let Some(hit) = next.hit {
                if at < hit.end {
                    self.lemma_run_listed(
                        item,
                        separator,
                        hit.end,
                        atomic,
                        next.table,
                        items.push(hit.value),
                        separators.push(mark.value),
                    );
                }
            }
        }
    }

    /// Every call of a rule is sound.
    pub proof fn lemma_call(self, rule: int, at: int, atomic: bool, t: Table)
        requires
            self.fits(t),
            0 <= at <= self.len(),
        ensures
            self.sound(t, at, self.call(rule, at, atomic, t)),
        decreases self.room(t), 0nat, 0nat,
    {
        let key = Key { rule, start: at, atomic };
        if 0 <= rule < self.rules.len() && !t.dom().contains(key) {
            let seeded = t.insert(key, None);
            self.lemma_room_taken(t, key, None);
            assert(Self::extends(t, seeded));
            assert(self.fits(seeded));
            self.lemma_grow(rule, at, atomic, None, seeded);
            let grown = self.grow(rule, at, atomic, None, seeded);
            assert(Self::extends(t, grown.table));
        }
    }

    /// Every round of growing a rule is sound.
    pub proof fn lemma_grow(self, rule: int, at: int, atomic: bool, best: Option<Hit>, t: Table)
        requires
            self.fits(t),
            0 <= at <= self.len(),
            0 <= rule < self.rules.len(),
            t.dom().contains(Key { rule, start: at, atomic }),
            match best {
                Some(seed) => at <= seed.end <= self.len(),
                None => true,
            },
        ensures
            self.sound(t, at, self.grow(rule, at, atomic, best, t)),
        decreases self.room(t), weight(self.rules[rule].body) + 1, self.slack(best, at),
    {
        let key = Key { rule, start: at, atomic };
        self.lemma_run(self.rules[rule].body, at, atomic, t);
        let body = self.run(self.rules[rule].body, at, atomic, t);
        let found = match body.hit {
            Some(hit) => Some(
                Hit { end: hit.end, value: crate::semantics::rule_value(self.rules[rule], hit.value) },
            ),
            None => None,
        };
        let seeded = body.table.insert(key, found);
        assert(Self::extends(body.table, seeded));
        self.lemma_room_shrinks(body.table, seeded);
        self.lemma_room_shrinks(seeded, body.table);
        if self.better(found, best, at) {
            self.lemma_grow(rule, at, atomic, found, seeded);
        } else {
            let kept = body.table.insert(key, best);
            assert(Self::extends(body.table, kept));
            self.lemma_room_shrinks(body.table, kept);
        }
    }
}

} // verus!
