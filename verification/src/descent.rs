//! Plain recursive descent: what every expression and rule yields where
//! each call of a rule simply matches the body of the rule, with no memo.
//! A rule that calls itself before anything is consumed never ends that
//! way, so the depth of calls is bounded: within `depth` calls inside one
//! another an attempt either ends, with a match or without one, or it does
//! not end.

use vstd::prelude::*;
use crate::grammar::{AtomView, ExprView};
use crate::semantics::{find, rule_value, weight, weight_from, Hit, Key, Scene};
use crate::value::ValueView;

verus! {

/// How an attempt went within a bounded depth of calls: it ended with a
/// match, it ended without one, or it did not end.
pub enum Descent {
    Match(Hit),
    Fail,
    Unended,
}

impl Scene {
    /// What `e` yields at `at` by plain recursive descent within `depth`
    /// calls of rules inside one another.
    pub open spec fn descend(self, e: ExprView, at: int, atomic: bool, depth: nat) -> Descent
        decreases depth, weight(e), 0nat,
    {
        match e {
            ExprView::Alt(left, right) => match self.descend(*left, at, atomic, depth) {
                Descent::Fail => self.descend(*right, at, atomic, depth),
                first => first,
            },
            ExprView::Sequence(items) => if items.len() == 1 {
                proof {
                    assert(weight_from(items, 0) == 1 + weight(items[0]) + weight_from(items, 1));
                }
                self.descend(items[0], at, atomic, depth)
            } else {
                self.descend_sequence(items, 0, at, atomic, depth)
            },
            ExprView::Repeat0(inner) => self.descend_many(
                *inner,
                at,
                true,
                atomic,
                depth,
                Seq::empty(),
            ),
            ExprView::Repeat1(inner) => match self.descend_many(
                *inner,
                at,
                true,
                atomic,
                depth,
                Seq::empty(),
            ) {
                Descent::Match(Hit { end, value: ValueView::List(values) }) => if values.len()
                    > 0 {
                    Descent::Match(Hit { end, value: ValueView::List(values) })
                } else {
                    Descent::Fail
                },
                Descent::Unended => Descent::Unended,
                _ => Descent::Fail,
            },
            ExprView::Optional(inner) => match self.descend(*inner, at, atomic, depth) {
                Descent::Match(hit) => Descent::Match(
                    Hit { end: hit.end, value: ValueView::Opt(Some(Box::new(hit.value))) },
                ),
                Descent::Fail => Descent::Match(Hit { end: at, value: ValueView::Opt(None) }),
                Descent::Unended => Descent::Unended,
            },
            ExprView::PosLookahead(inner) => match self.descend(*inner, at, atomic, depth) {
                Descent::Match(_) => Descent::Match(Hit { end: at, value: ValueView::Unit }),
                other => other,
            },
            ExprView::NegLookahead(inner) => match self.descend(*inner, at, atomic, depth) {
                Descent::Match(_) => Descent::Fail,
                Descent::Fail => Descent::Match(Hit { end: at, value: ValueView::Unit }),
                Descent::Unended => Descent::Unended,
            },
            ExprView::Atomic(inner) => self.descend(*inner, at, true, depth),
            ExprView::SpanCapture(inner) => match self.descend(*inner, at, atomic, depth) {
                Descent::Match(hit) => Descent::Match(
                    Hit {
                        end: hit.end,
                        value: ValueView::Tuple(seq![self.span(at, hit.end), hit.value]),
                    },
                ),
                other => other,
            },
            ExprView::DelimitedList(item, separator) => match self.descend(
                *item,
                at,
                atomic,
                depth,
            ) {
                Descent::Match(hit) => self.descend_listed(
                    *item,
                    *separator,
                    hit.end,
                    atomic,
                    depth,
                    seq![hit.value],
                    Seq::empty(),
                ),
                other => other,
            },
            ExprView::Atom(atom) => match atom {
                AtomView::Ident(name, _) => match find(self.rules, name) {
                    Some(rule) => if depth == 0 || !(0 <= at <= self.len()) {
                        if 0 <= at <= self.len() {
                            Descent::Unended
                        } else {
                            Descent::Fail
                        }
                    } else {
                        self.descend_rule(Key { rule, start: at, atomic }, depth - 1)
                    },
                    None => Descent::Fail,
                },
                _ => match self.leaf(atom, at) {
                    Some(end) => Descent::Match(Hit { end, value: ValueView::Unit }),
                    None => Descent::Fail,
                },
            },
        }
    }

    /// What the rule of `key` yields at the offset of `key` by plain
    /// recursive descent within `depth` calls of rules inside its body. A
    /// depth below 0 stands for a call that cannot be made at all.
    pub open spec fn descend_rule(self, key: Key, depth: int) -> Descent
        decreases depth, weight(self.rules[key.rule].body) + 1, 0nat,
    {
        if depth < 0 {
            Descent::Unended
        } else {
            match self.descend(self.rules[key.rule].body, key.start, key.atomic, depth as nat) {
                Descent::Match(hit) => Descent::Match(
                    Hit { end: hit.end, value: rule_value(self.rules[key.rule], hit.value) },
                ),
                other => other,
            }
        }
    }

    /// What the expressions of a sequence from index `i` on yield, where
    /// those before it ended at `at`.
    pub open spec fn descend_sequence(
        self,
        items: Seq<ExprView>,
        i: int,
        at: int,
        atomic: bool,
        depth: nat,
    ) -> Descent
        decreases depth, weight_from(items, i), 1nat,
    {
        if 0 <= i < items.len() {
            let from = if i == 0 || atomic {
                at
            } else {
                self.skip(at)
            };
            match self.descend(items[i], from, atomic, depth) {
                Descent::Match(hit) => self.descend_sequence(items, i + 1, hit.end, atomic, depth),
                other => other,
            }
        } else {
            Descent::Match(Hit { end: at, value: ValueView::Unit })
        }
    }

    /// What a repetition yields of which `got` has been matched, the last
    /// of it ending at `at`.
    pub open spec fn descend_many(
        self,
        inner: ExprView,
        at: int,
        first: bool,
        atomic: bool,
        depth: nat,
        got: Seq<ValueView>,
    ) -> Descent
        decreases depth, weight(inner) + 1, self.gap(at),
    {
        let from = if first || atomic {
            at
        } else {
            self.skip(at)
        };
        match self.descend(inner, from, atomic, depth) {
            Descent::Match(hit) => if 0 <= at < hit.end <= self.len() {
                self.descend_many(inner, hit.end, false, atomic, depth, got.push(hit.value))
            } else {
                Descent::Match(Hit { end: hit.end, value: ValueView::List(got.push(hit.value)) })
            },
            Descent::Fail => Descent::Match(Hit { end: at, value: ValueView::List(got) }),
            Descent::Unended => Descent::Unended,
        }
    }

    /// What a delimited list yields of which `items` and `separators`
    /// have been matched, the last item ending at `at`.
    pub open spec fn descend_listed(
        self,
        item: ExprView,
        separator: ExprView,
        at: int,
        atomic: bool,
        depth: nat,
        items: Seq<ValueView>,
        separators: Seq<ValueView>,
    ) -> Descent
        decreases depth, weight(item) + weight(separator) + 1, self.gap(at),
    {
        let from = if atomic {
            at
        } else {
            self.skip(at)
        };
        match self.descend(separator, from, atomic, depth) {
            Descent::Match(mark) => {
                let onward = if atomic {
                    mark.end
                } else {
                    self.skip(mark.end)
                };
                match self.descend(item, onward, atomic, depth) {
                    Descent::Match(hit) => if 0 <= at < hit.end <= self.len() {
                        self.descend_listed(
                            item,
                            separator,
                            hit.end,
                            atomic,
                            depth,
                            items.push(hit.value),
                            separators.push(mark.value),
                        )
                    } else {
                        Descent::Match(
                            Hit {
                                end: hit.end,
                                value: Self::listed(
                                    items.push(hit.value),
                                    separators.push(mark.value),
                                ),
                            },
                        )
                    },
                    Descent::Fail => Descent::Match(
                        Hit { end: at, value: Self::listed(items, separators) },
                    ),
                    Descent::Unended => Descent::Unended,
                }
            },
            Descent::Fail => Descent::Match(Hit { end: at, value: Self::listed(items, separators) }),
            Descent::Unended => Descent::Unended,
        }
    }

    /// What the rule called `name` yields at `at` by plain recursive
    /// descent within `depth` calls of rules inside its body.
    pub open spec fn descend_from(self, name: Seq<char>, at: int, depth: nat) -> Descent {
        match find(self.rules, name) {
            Some(rule) => if 0 <= at <= self.len() {
                self.descend_rule(Key { rule, start: at, atomic: false }, depth as int)
            } else {
                Descent::Fail
            },
            None => Descent::Fail,
        }
    }
}

} // verus!
