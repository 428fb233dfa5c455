//! Why the memo changes nothing where it is not needed: wherever plain
//! recursive descent ends, the matcher yields what plain recursive descent
//! yields. Growing a seed adds results only where plain descent would call
//! a rule inside itself without end.

use vstd::prelude::*;
use crate::descent::Descent;
use crate::grammar::{AtomView, ExprView};
use crate::progress::lemma_find_from;
use crate::semantics::{find, rule_value, weight, weight_from, Hit, Key, Outcome, Scene, Table};
use crate::value::ValueView;

verus! {

/// An entry of the memo as an attempt that has ended.
pub open spec fn settled(entry: Option<Hit>) -> Descent {
    match entry {
        Some(hit) => Descent::Match(hit),
        None => Descent::Fail,
    }
}

impl Scene {
    /// Whether memo `t` agrees with plain descent: the entry of every rule
    /// that is not being grown is what plain descent yields for it within
    /// depth `all`, and a rule that is being grown, those of `growing`,
    /// has an entry and does not end within depth `bound`.
    pub open spec fn agrees(self, t: Table, growing: Set<Key>, all: nat, bound: int) -> bool {
        &&& forall|key: Key| #[trigger]
            t.dom().contains(key) && !growing.contains(key) ==> self.descend_rule(key, all as int)
                == settled(t[key])
        &&& forall|key: Key| #[trigger]
            growing.contains(key) ==> t.dom().contains(key) && self.descend_rule(key, bound)
                is Unended
    }

    /// An attempt that has ended within some depth ends the same way
    /// within any greater depth.
    pub proof fn lemma_descend_stays(self, e: ExprView, at: int, atomic: bool, depth: nat, more: nat)
        requires
            depth <= more,
            self.descend(e, at, atomic, depth) !is Unended,
        ensures
            self.descend(e, at, atomic, more) == self.descend(e, at, atomic, depth),
        decreases depth, weight(e), 0nat,
    {
        match e {
            ExprView::Alt(left, right) => {
                self.lemma_descend_stays(*left, at, atomic, depth, more);
                if self.descend(*left, at, atomic, depth) is Fail {
                    self.lemma_descend_stays(*right, at, atomic, depth, more);
                }
            },
            ExprView::Sequence(items) => {
                if items.len() == 1 {
                    assert(weight_from(items, 0) == 1 + weight(items[0]) + weight_from(items, 1));
                    self.lemma_descend_stays(items[0], at, atomic, depth, more);
                } else {
                    self.lemma_sequence_stays(items, 0, at, atomic, depth, more);
                }
            },
            ExprView::Repeat0(inner) => {
                self.lemma_many_stays(*inner, at, true, atomic, depth, more, Seq::empty());
            },
            ExprView::Repeat1(inner) => {
                self.lemma_many_stays(*inner, at, true, atomic, depth, more, Seq::empty());
            },
            ExprView::Optional(inner) => {
                self.lemma_descend_stays(*inner, at, atomic, depth, more);
            },
            ExprView::PosLookahead(inner) => {
                self.lemma_descend_stays(*inner, at, atomic, depth, more);
            },
            ExprView::NegLookahead(inner) => {
                self.lemma_descend_stays(*inner, at, atomic, depth, more);
            },
            ExprView::Atomic(inner) => {
                self.lemma_descend_stays(*inner, at, true, depth, more);
            },
            ExprView::SpanCapture(inner) => {
                self.lemma_descend_stays(*inner, at, atomic, depth, more);
            },
            ExprView::DelimitedList(item, separator) => {
                self.lemma_descend_stays(*item, at, atomic, depth, more);
                if let Descent::Match(hit) = self.descend(*item, at, atomic, depth) {
                    self.lemma_listed_stays(
                        *item,
                        *separator,
                        hit.end,
                        atomic,
                        depth,
                        more,
                        seq![hit.value],
                        Seq::empty(),
                    );
                }
            },
            ExprView::Atom(atom) => {
                match atom {
                    AtomView::Ident(name, _) => {
                        if let Some(rule) = find(self.rules, name) {
                            if 0 <= at <= self.len() {
                                self.lemma_rule_stays(
                                    Key { rule, start: at, atomic },
                                    depth - 1,
                                    more - 1,
                                );
                            }
                        }
                    },
                    _ => {},
                }
            },
        }
    }

    /// A rule that has ended within some depth ends the same way within
    /// any greater depth.
    pub proof fn lemma_rule_stays(self, key: Key, depth: int, more: int)
        requires
            depth <= more,
            self.descend_rule(key, depth) !is Unended,
        ensures
            self.descend_rule(key, more) == self.descend_rule(key, depth),
        decreases depth, weight(self.rules[key.rule].body) + 1, 0nat,
    {
        if depth >= 0 {
            self.lemma_descend_stays(
                self.rules[key.rule].body,
                key.start,
                key.atomic,
                depth as nat,
                more as nat,
            );
        }
    }

    /// A rule that does not end within some depth does not end within any
    /// smaller depth.
    pub proof fn lemma_rule_unended(self, key: Key, depth: int, less: int)
        requires
            less <= depth,
            self.descend_rule(key, depth) is Unended,
        ensures
            self.descend_rule(key, less) is Unended,
    {
        if self.descend_rule(key, less) !is Unended {
            self.lemma_rule_stays(key, less, depth);
        }
    }

    /// The rest of a sequence that has ended within some depth ends the
    /// same way within any greater depth.
    pub proof fn lemma_sequence_stays(
        self,
        items: Seq<ExprView>,
        i: int,
        at: int,
        atomic: bool,
        depth: nat,
        more: nat,
    )
        requires
            depth <= more,
            self.descend_sequence(items, i, at, atomic, depth) !is Unended,
        ensures
            self.descend_sequence(items, i, at, atomic, more) == self.descend_sequence(
                items,
                i,
                at,
                atomic,
                depth,
            ),
        decreases depth, weight_from(items, i), 1nat,
    {
        if 0 <= i < items.len() {
            let from = if i == 0 || atomic {
                at
            } else {
                self.skip(at)
            };
            self.lemma_descend_stays(items[i], from, atomic, depth, more);
            if let Descent::Match(hit) = self.descend(items[i], from, atomic, depth) {
                self.lemma_sequence_stays(items, i + 1, hit.end, atomic, depth, more);
            }
        }
    }

    /// The rest of a repetition that has ended within some depth ends the
    /// same way within any greater depth.
    pub proof fn lemma_many_stays(
        self,
        inner: ExprView,
        at: int,
        first: bool,
        atomic: bool,
        depth: nat,
        more: nat,
        got: Seq<ValueView>,
    )
        requires
            depth <= more,
            self.descend_many(inner, at, first, atomic, depth, got) !is Unended,
        ensures
            self.descend_many(inner, at, first, atomic, more, got) == self.descend_many(
                inner,
                at,
                first,
                atomic,
                depth,
                got,
            ),
        decreases depth, weight(inner) + 1, self.gap(at),
    {
        let from = if first || atomic {
            at
        } else {
            self.skip(at)
        };
        self.lemma_descend_stays(inner, from, atomic, depth, more);
        if let Descent::Match(hit) = self.descend(inner, from, atomic, depth) {
            if 0 <= at < hit.end <= self.len() {
                self.lemma_many_stays(
                    inner,
                    hit.end,
                    false,
                    atomic,
                    depth,
                    more,
                    got.push(hit.value),
                );
            }
        }
    }

    /// The rest of a delimited list that has ended within some depth ends
    /// the same way within any greater depth.
    pub proof fn lemma_listed_stays(
        self,
        item: ExprView,
        separator: ExprView,
        at: int,
        atomic: bool,
        depth: nat,
        more: nat,
        items: Seq<ValueView>,
        separators: Seq<ValueView>,
    )
        requires
            depth <= more,
            self.descend_listed(item, separator, at, atomic, depth, items, separators)
                !is Unended,
        ensures
            self.descend_listed(item, separator, at, atomic, more, items, separators)
                == self.descend_listed(item, separator, at, atomic, depth, items, separators),
        decreases depth, weight(item) + weight(separator) + 1, self.gap(at),
    {
        let from = if atomic {
            at
        } else {
            self.skip(at)
        };
        self.lemma_descend_stays(separator, from, atomic, depth, more);
        if let Descent::Match(mark) = self.descend(separator, from, atomic, depth) {
            let onward = if atomic {
                mark.end
            } else {
                self.skip(mark.end)
            };
            self.lemma_descend_stays(item, onward, atomic, depth, more);
            if let Descent::Match(hit) = self.descend(item, onward, atomic, depth) {
                if 0 <= at < hit.end <= self.len() {
                    self.lemma_listed_stays(
                        item,
                        separator,
                        hit.end,
                        atomic,
                        depth,
                        more,
                        items.push(hit.value),
                        separators.push(mark.value),
                    );
                }
            }
        }
    }

    /// The least depth within which a rule ends, where it ends within
    /// `depth`.
    pub proof fn least_depth(self, key: Key, depth: int) -> (least: int)
        requires
            0 <= depth,
            self.descend_rule(key, depth) !is Unended,
        ensures
            0 <= least <= depth,
            self.descend_rule(key, least) == self.descend_rule(key, depth),
            self.descend_rule(key, least - 1) is Unended,
        decreases depth,
    {
        if self.descend_rule(key, depth - 1) is Unended {
            depth
        } else {
            self.lemma_rule_stays(key, depth - 1, depth);
            self.least_depth(key, depth - 1)
        }
    }

    /// Where plain descent ends, an expression yields what plain descent
    /// yields, and the memo still agrees with plain descent afterwards.
    pub proof fn lemma_run_agrees(
        self,
        e: ExprView,
        at: int,
        atomic: bool,
        t: Table,
        growing: Set<Key>,
        all: nat,
        bound: int,
        depth: nat,
    )
        requires
            self.fits(t),
            0 <= at <= self.len(),
            self.agrees(t, growing, all, bound),
            depth <= bound + 1,
            depth <= all,
            self.descend(e, at, atomic, depth) !is Unended,
        ensures
            settled(self.run(e, at, atomic, t).hit) == self.descend(e, at, atomic, depth),
            self.agrees(self.run(e, at, atomic, t).table, growing, all, bound),
        decreases depth, weight(e), 0nat,
    {
        self.lemma_run(e, at, atomic, t);
        match e {
            ExprView::Alt(left, right) => {
                self.lemma_run(*left, at, atomic, t);
                self.lemma_run_agrees(*left, at, atomic, t, growing, all, bound, depth);
                let first = self.run(*left, at, atomic, t);
                if first.hit is None {
                    self.lemma_run_agrees(*right, at, atomic, first.table, growing, all, bound, depth);
                }
            },
            ExprView::Sequence(items) => {
                if items.len() == 1 {
                    assert(weight_from(items, 0) == 1 + weight(items[0]) + weight_from(items, 1));
                    self.lemma_run_agrees(items[0], at, atomic, t, growing, all, bound, depth);
                } else {
                    self.lemma_sequence_agrees(items, 0, at, atomic, t, growing, all, bound, depth);
                }
            },
            ExprView::Repeat0(inner) => {
                self.lemma_many_agrees(
                    *inner,
                    at,
                    true,
                    atomic,
                    t,
                    growing,
                    all,
                    bound,
                    depth,
                    Seq::empty(),
                );
            },
            ExprView::Repeat1(inner) => {
                self.lemma_many_agrees(
                    *inner,
                    at,
                    true,
                    atomic,
                    t,
                    growing,
                    all,
                    bound,
                    depth,
                    Seq::empty(),
                );
            },
            ExprView::Optional(inner) => {
                self.lemma_run_agrees(*inner, at, atomic, t, growing, all, bound, depth);
            },
            ExprView::PosLookahead(inner) => {
                self.lemma_run_agrees(*inner, at, atomic, t, growing, all, bound, depth);
            },
            ExprView::NegLookahead(inner) => {
                self.lemma_run_agrees(*inner, at, atomic, t, growing, all, bound, depth);
            },
            ExprView::Atomic(inner) => {
                self.lemma_run_agrees(*inner, at, true, t, growing, all, bound, depth);
            },
            ExprView::SpanCapture(inner) => {
                self.lemma_run_agrees(*inner, at, atomic, t, growing, all, bound, depth);
            },
            ExprView::DelimitedList(item, separator) => {
                self.lemma_run(*item, at, atomic, t);
                self.lemma_run_agrees(*item, at, atomic, t, growing, all, bound, depth);
                let first = self.run(*item, at, atomic, t);
                if let Some(hit) = first.hit {
                    self.lemma_listed_agrees(
                        *item,
                        *separator,
                        hit.end,
                        atomic,
                        first.table,
                        growing,
                        all,
                        bound,
                        depth,
                        seq![hit.value],
                        Seq::empty(),
                    );
                }
            },
            ExprView::Atom(atom) => {
                match atom {
                    AtomView::Ident(name, _) => {
                        lemma_find_from(self.rules, name, 0);
                        if let Some(rule) = find(self.rules, name) {
                            self.lemma_call_agrees(
                                rule,
                                at,
                                atomic,
                                t,
                                growing,
                                all,
                                bound,
                                (depth - 1) as nat,
                            );
                        }
                    },
                    _ => {},
                }
            },
        }
    }

    /// Where plain descent ends, the rest of a sequence yields what plain
    /// descent yields.
    pub proof fn lemma_sequence_agrees(
        self,
        items: Seq<ExprView>,
        i: int,
        at: int,
        atomic: bool,
        t: Table,
        growing: Set<Key>,
        all: nat,
        bound: int,
        depth: nat,
    )
        requires
            self.fits(t),
            0 <= at <= self.len(),
            self.agrees(t, growing, all, bound),
            depth <= bound + 1,
            depth <= all,
            self.descend_sequence(items, i, at, atomic, depth) !is Unended,
        ensures
            settled(self.run_sequence(items, i, at, atomic, t).hit) == self.descend_sequence(
                items,
                i,
                at,
                atomic,
                depth,
            ),
            self.agrees(self.run_sequence(items, i, at, atomic, t).table, growing, all, bound),
        decreases depth, weight_from(items, i), 1nat,
    {
        if 0 <= i < items.len() {
            self.lemma_skip_bounds(at);
            let from = if i == 0 || atomic {
                at
            } else {
                self.skip(at)
            };
            self.lemma_run(items[i], from, atomic, t);
            self.lemma_run_agrees(items[i], from, atomic, t, growing, all, bound, depth);
            let one = self.run(items[i], from, atomic, t);
            if let Some(hit) = one.hit {
                self.lemma_sequence_agrees(
                    items,
                    i + 1,
                    hit.end,
                    atomic,
                    one.table,
                    growing,
                    all,
                    bound,
                    depth,
                );
            }
        }
    }

    /// Where plain descent ends, the rest of a repetition yields what
    /// plain descent yields.
    pub proof fn lemma_many_agrees(
        self,
        inner: ExprView,
        at: int,
        first: bool,
        atomic: bool,
        t: Table,
        growing: Set<Key>,
        all: nat,
        bound: int,
        depth: nat,
        got: Seq<ValueView>,
    )
        requires
            self.fits(t),
            0 <= at <= self.len(),
            self.agrees(t, growing, all, bound),
            depth <= bound + 1,
            depth <= all,
            self.descend_many(inner, at, first, atomic, depth, got) !is Unended,
        ensures
            settled(self.run_many(inner, at, first, atomic, t, got).hit) == self.descend_many(
                inner,
                at,
                first,
                atomic,
                depth,
                got,
            ),
            self.agrees(self.run_many(inner, at, first, atomic, t, got).table, growing, all, bound),
        decreases depth, weight(inner) + 1, self.gap(at),
    {
        self.lemma_skip_bounds(at);
        let from = if first || atomic {
            at
        } else {
            self.skip(at)
        };
        self.lemma_run(inner, from, atomic, t);
        self.lemma_run_agrees(inner, from, atomic, t, growing, all, bound, depth);
        let one = self.run(inner, from, atomic, t);
        if let Some(hit) = one.hit {
            if at < hit.end {
                self.lemma_many_agrees(
                    inner,
                    hit.end,
                    false,
                    atomic,
                    one.table,
                    growing,
                    all,
                    bound,
                    depth,
                    got.push(hit.value),
                );
            }
        }
    }

    /// Where plain descent ends, the rest of a delimited list yields what
    /// plain descent yields.
    pub proof fn lemma_listed_agrees(
        self,
        item: ExprView,
        separator: ExprView,
        at: int,
        atomic: bool,
        t: Table,
        growing: Set<Key>,
        all: nat,
        bound: int,
        depth: nat,
        items: Seq<ValueView>,
        separators: Seq<ValueView>,
    )
        requires
            self.fits(t),
            0 <= at <= self.len(),
            self.agrees(t, growing, all, bound),
            depth <= bound + 1,
            depth <= all,
            self.descend_listed(item, separator, at, atomic, depth, items, separators)
                !is Unended,
        ensures
            settled(self.run_listed(item, separator, at, atomic, t, items, separators).hit)
                == self.descend_listed(item, separator, at, atomic, depth, items, separators),
            self.agrees(
                self.run_listed(item, separator, at, atomic, t, items, separators).table,
                growing,
                all,
                bound,
            ),
        decreases depth, weight(item) + weight(separator) + 1, self.gap(at),
    {
        self.lemma_skip_bounds(at);
        let from = if atomic {
            at
        } else {
            self.skip(at)
        };
        self.lemma_run(separator, from, atomic, t);
        self.lemma_run_agrees(separator, from, atomic, t, growing, all, bound, depth);
        let between = self.run(separator, from, atomic, t);
        if let Some(mark) = between.hit {
            self.lemma_skip_bounds(mark.end);
            let onward = if atomic {
                mark.end
            } else {
                self.skip(mark.end)
            };
            self.lemma_run(item, onward, atomic, between.table);
            self.lemma_run_agrees(item, onward, atomic, between.table, growing, all, bound, depth);
            let next = self.run(item, onward, atomic, between.table);
            if let Some(hit) = next.hit {
                if at < hit.end {
                    self.lemma_listed_agrees(
                        item,
                        separator,
                        hit.end,
                        atomic,
                        next.table,
                        growing,
                        all,
                        bound,
                        depth,
                        items.push(hit.value),
                        separators.push(mark.value),
                    );
                }
            }
        }
    }

    /// Where plain descent ends, a rule yields what plain descent yields:
    /// its entry where it has one, and else what its body yields, which a
    /// second round of growing does not better.
    pub proof fn lemma_call_agrees(
        self,
        rule: int,
        at: int,
        atomic: bool,
        t: Table,
        growing: Set<Key>,
        all: nat,
        bound: int,
        depth: nat,
    )
        requires
            self.fits(t),
            0 <= at <= self.len(),
            0 <= rule < self.rules.len(),
            self.agrees(t, growing, all, bound),
            depth <= bound,
            depth <= all,
            self.descend_rule(Key { rule, start: at, atomic }, depth as int) !is Unended,
        ensures
            settled(self.call(rule, at, atomic, t).hit) == self.descend_rule(
                Key { rule, start: at, atomic },
                depth as int,
            ),
            self.agrees(self.call(rule, at, atomic, t).table, growing, all, bound),
        decreases depth + 1, 0nat, 0nat,
    {
        let key = Key { rule, start: at, atomic };
        let body = self.rules[rule].body;
        if growing.contains(key) {
            self.lemma_rule_stays(key, depth as int, bound);
        } else if t.dom().contains(key) {
            self.lemma_rule_stays(key, depth as int, all as int);
        } else {
            let least = self.least_depth(key, depth as int);
            self.lemma_rule_stays(key, least, all as int);
            let seeded = t.insert(key, None);
            let grown = growing.insert(key);
            self.lemma_room_taken(t, key, None);
            assert(self.fits(seeded));
            assert forall|other: Key| #[trigger] grown.contains(other) implies seeded.dom().contains(
                other,
            ) && self.descend_rule(other, least - 1) is Unended by {
                if other != key {
                    assert(growing.contains(other));
                    self.lemma_rule_unended(other, bound, least - 1);
                }
            }
            assert(self.agrees(seeded, grown, all, least - 1));
            self.lemma_run(body, at, atomic, seeded);
            self.lemma_run_agrees(body, at, atomic, seeded, grown, all, least - 1, least as nat);
            let first = self.run(body, at, atomic, seeded);
            let found = match first.hit {
                Some(hit) => Some(
                    Hit { end: hit.end, value: rule_value(self.rules[rule], hit.value) },
                ),
                None => None,
            };
            assert(settled(found) == self.descend_rule(key, least));
            let reseeded = first.table.insert(key, found);
            assert(Self::extends(first.table, reseeded));
            self.lemma_room_shrinks(first.table, reseeded);
            assert(self.fits(reseeded));
            assert(self.grow(rule, at, atomic, None, seeded) == (if self.better(found, None, at) {
                self.grow(rule, at, atomic, found, reseeded)
            } else {
                Outcome { hit: None, table: first.table.insert(key, None) }
            }));
            if found is Some {
                assert(self.better(found, None, at));
                assert forall|other: Key| #[trigger]
                    reseeded.dom().contains(other) && !growing.contains(
                        other,
                    ) implies self.descend_rule(other, all as int) == settled(reseeded[other]) by {
                    if other != key {
                        assert(first.table.dom().contains(other));
                        assert(!grown.contains(other));
                    }
                }
                assert forall|other: Key| #[trigger] growing.contains(other) implies reseeded.dom().contains(
                    other,
                ) && self.descend_rule(other, bound) is Unended by {
                    assert(t.dom().contains(other));
                    assert(seeded.dom().contains(other));
                    assert(first.table.dom().contains(other));
                }
                assert(self.agrees(reseeded, growing, all, bound));
                self.lemma_run(body, at, atomic, reseeded);
                self.lemma_run_agrees(body, at, atomic, reseeded, growing, all, bound, least as nat);
                let second = self.run(body, at, atomic, reseeded);
                let again = match second.hit {
                    Some(hit) => Some(
                        Hit { end: hit.end, value: rule_value(self.rules[rule], hit.value) },
                    ),
                    None => None,
                };
                assert(settled(again) == settled(found));
                assert(again == found);
                assert(!self.better(again, found, at));
                let last = second.table.insert(key, found);
                assert(self.grow(rule, at, atomic, found, reseeded) == (Outcome {
                    hit: found,
                    table: last,
                }));
                assert forall|other: Key| #[trigger]
                    last.dom().contains(other) && !growing.contains(
                        other,
                    ) implies self.descend_rule(other, all as int) == settled(last[other]) by {
                    if other != key {
                        assert(second.table.dom().contains(other));
                    }
                }
                assert forall|other: Key| #[trigger] growing.contains(other) implies last.dom().contains(
                    other,
                ) && self.descend_rule(other, bound) is Unended by {
                    assert(reseeded.dom().contains(other));
                    assert(second.table.dom().contains(other));
                }
            } else {
                assert(!self.better(found, None, at));
                let last = first.table.insert(key, None);
                assert forall|other: Key| #[trigger]
                    last.dom().contains(other) && !growing.contains(
                        other,
                    ) implies self.descend_rule(other, all as int) == settled(last[other]) by {
                    if other != key {
                        assert(first.table.dom().contains(other));
                        assert(!grown.contains(other));
                    }
                }
                assert forall|other: Key| #[trigger] growing.contains(other) implies last.dom().contains(
                    other,
                ) && self.descend_rule(other, bound) is Unended by {
                    assert(t.dom().contains(other));
                    assert(seeded.dom().contains(other));
                    assert(first.table.dom().contains(other));
                }
            }
        }
    }
}

} // verus!
