//! What matching means: the result of every expression and rule, as
//! functions over plain values. The executable matcher is proved to compute
//! exactly these.

use vstd::prelude::*;
use vstd::utf8::*;
use crate::grammar::{ActionView, AtomView, ExprView, RuleView};
use crate::input::SpanView;
use crate::value::ValueView;

verus! {

/// What one memo entry is filed under: the rule, the offset it was entered
/// at, and whether whitespace skipping was off at that moment.
pub struct Key {
    pub rule: int,
    pub start: int,
    pub atomic: bool,
}

/// A successful match: the offset it ended at and its value.
pub struct Hit {
    pub end: int,
    pub value: ValueView,
}

/// The memo of one match invocation. An entry holds what its rule yields at
/// its offset: the seed while the rule is still being grown, the committed
/// result afterwards.
pub type Table = Map<Key, Option<Hit>>;

/// What an attempt gives back: the match, if any, and the memo after it.
pub struct Outcome {
    pub hit: Option<Hit>,
    pub table: Table,
}

/// All that one match invocation works on.
pub struct Scene {
    /// The rules of the grammar, in order.
    pub rules: Seq<RuleView>,
    /// The characters skipped as whitespace.
    pub blanks: Seq<char>,
    /// The source text.
    pub text: Seq<char>,
    /// The source text as bytes.
    pub bytes: Seq<u8>,
}

/// The size of an expression; only used to show that matching ends.
pub open spec fn weight(e: ExprView) -> nat
    decreases e, 0nat,
{
    match e {
        ExprView::Alt(left, right) => 1 + weight(*left) + weight(*right),
        ExprView::Sequence(items) => 1 + weight_from(items, 0),
        ExprView::Repeat0(inner) => 2 + weight(*inner),
        ExprView::Repeat1(inner) => 2 + weight(*inner),
        ExprView::Optional(inner) => 1 + weight(*inner),
        ExprView::PosLookahead(inner) => 1 + weight(*inner),
        ExprView::NegLookahead(inner) => 1 + weight(*inner),
        ExprView::Atomic(inner) => 1 + weight(*inner),
        ExprView::SpanCapture(inner) => 1 + weight(*inner),
        ExprView::DelimitedList(item, separator) => 2 + weight(*item) + weight(*separator),
        ExprView::Atom(_) => 1,
    }
}

/// The size of the expressions from index `i` on.
pub open spec fn weight_from(items: Seq<ExprView>, i: int) -> nat
    decreases items, items.len() - i,
{
    if 0 <= i < items.len() {
        1 + weight(items[i]) + weight_from(items, i + 1)
    } else {
        0
    }
}

/// The index of the first rule called `name` among those from `from` on.
pub open spec fn find_from(rules: Seq<RuleView>, name: Seq<char>, from: int) -> Option<int>
    decreases rules.len() - from,
{
    if from < 0 || from >= rules.len() {
        None
    } else if rules[from].name == name {
        Some(from)
    } else {
        find_from(rules, name, from + 1)
    }
}

/// The index of the first rule called `name`.
pub open spec fn find(rules: Seq<RuleView>, name: Seq<char>) -> Option<int> {
    find_from(rules, name, 0)
}

/// The value of an action where the binder holds `bound`. A field of what
/// is no tuple, or of a tuple too short, is unit.
pub open spec fn apply(action: ActionView, bound: ValueView) -> ValueView
    decreases action,
{
    match action {
        ActionView::Bound => bound,
        ActionView::Unit => ValueView::Unit,
        ActionView::Field(inner, index) => match apply(*inner, bound) {
            ValueView::Tuple(parts) => if 0 <= index < parts.len() {
                parts[index]
            } else {
                ValueView::Unit
            },
            _ => ValueView::Unit,
        },
        ActionView::Tuple(parts) => ValueView::Tuple(
            Seq::new(
                parts.len(),
                |i: int|
                    if 0 <= i < parts.len() {
                        apply(parts[i], bound)
                    } else {
                        ValueView::Unit
                    },
            ),
        ),
    }
}

/// The value of a rule whose body yielded `body`: what the action makes of
/// it, and unit for a rule without an action.
pub open spec fn rule_value(rule: RuleView, body: ValueView) -> ValueView {
    match rule.action {
        Some(action) => apply(action, body),
        None => ValueView::Unit,
    }
}

impl Scene {
    /// The length of the source text in bytes.
    pub open spec fn len(self) -> int {
        self.bytes.len() as int
    }

    /// The bytes from `at` to the end.
    pub open spec fn rest(self, at: int) -> Seq<u8> {
        self.bytes.subrange(at, self.len())
    }

    /// The character whose encoding begins at `at`, as its scalar value and
    /// the number of bytes it takes.
    pub open spec fn scalar_at(self, at: int) -> Option<(u32, int)> {
        if 0 <= at <= self.len() && valid_first_scalar(self.rest(at)) {
            Some((decode_first_scalar(self.rest(at)), length_of_first_scalar(self.rest(at))))
        } else {
            None
        }
    }

    /// Whether `scalar` is one of the whitespace characters.
    pub open spec fn is_blank(self, scalar: u32) -> bool {
        exists|i: int| 0 <= i < self.blanks.len() && #[trigger] self.blanks[i] as u32 == scalar
    }

    /// Whether a whitespace character begins at `at`.
    pub open spec fn blank_at(self, at: int) -> bool {
        match self.scalar_at(at) {
            Some((scalar, _)) => self.is_blank(scalar),
            None => false,
        }
    }

    /// The first offset from `at` on at which no whitespace character
    /// begins.
    pub open spec fn skip(self, at: int) -> int
        decreases self.len() - at,
    {
        if self.blank_at(at) {
            self.skip(at + self.scalar_at(at).unwrap().1)
        } else {
            at
        }
    }

    /// Where a leaf other than a rule name ends if it matches at `at`.
    pub open spec fn leaf(self, atom: AtomView, at: int) -> Option<int> {
        match atom {
            AtomView::Ident(_, _) => None,
            AtomView::Str(text) => {
                let wanted = encode_utf8(text);
                if 0 <= at && at + wanted.len() <= self.len() && self.bytes.subrange(
                    at,
                    at + wanted.len(),
                ) == wanted {
                    Some(at + wanted.len())
                } else {
                    None
                }
            },
            AtomView::Char(c) => match self.scalar_at(at) {
                Some((scalar, width)) => if scalar == c as u32 {
                    Some(at + width)
                } else {
                    None
                },
                None => None,
            },
            AtomView::Range(low, high) => match self.scalar_at(at) {
                Some((scalar, width)) => if low as u32 <= scalar <= high as u32 {
                    Some(at + width)
                } else {
                    None
                },
                None => None,
            },
        }
    }

    /// The number of the two entries for `rule` at `start` that are not in
    /// the memo.
    pub open spec fn vacant(self, t: Table, rule: int, start: int) -> nat {
        let loose: nat = if t.dom().contains(Key { rule, start, atomic: false }) {
            0
        } else {
            1
        };
        let tight: nat = if t.dom().contains(Key { rule, start, atomic: true }) {
            0
        } else {
            1
        };
        loose + tight
    }

    /// The entries for `rule` at the offsets below `upto` that are not in
    /// the memo.
    pub open spec fn vacant_row(self, t: Table, rule: int, upto: int) -> nat
        decreases upto,
    {
        if upto <= 0 {
            0
        } else {
            self.vacant_row(t, rule, upto - 1) + self.vacant(t, rule, upto - 1)
        }
    }

    /// The entries for the rules below `rules` that are not in the memo.
    pub open spec fn vacant_rows(self, t: Table, rules: int) -> nat
        decreases rules,
    {
        if rules <= 0 {
            0
        } else {
            self.vacant_rows(t, rules - 1) + self.vacant_row(t, rules - 1, self.len() + 1)
        }
    }

    /// How many entries the memo can still take. Every rule entered takes
    /// one, which is why matching ends. The definitions below go on after
    /// an attempt only where the attempt left no more room than it found;
    /// that is what lets them be written down as functions, and it is
    /// always so, as the lemmas on progress show.
    pub open spec fn room(self, t: Table) -> nat {
        self.vacant_rows(t, self.rules.len() as int)
    }

    /// The bytes left after `at`, and 0 outside the text.
    pub open spec fn gap(self, at: int) -> nat {
        if 0 <= at <= self.len() {
            (self.len() - at) as nat
        } else {
            0
        }
    }

    /// Whether `found` is a better seed than `best` for a rule entered at
    /// `at`: a match where there was none, or one that ends further on. A
    /// match that ends where the seed ends is no better, whatever its
    /// value: the earlier one stays.
    pub open spec fn better(self, found: Option<Hit>, best: Option<Hit>, at: int) -> bool {
        match found {
            Some(hit) => 0 <= at <= hit.end <= self.len() && match best {
                Some(seed) => at <= seed.end < hit.end,
                None => true,
            },
            None => false,
        }
    }

    /// A bound on how often a seed can still get better.
    pub open spec fn slack(self, best: Option<Hit>, at: int) -> nat {
        match best {
            Some(seed) => self.gap(seed.end),
            None => self.gap(at) + 1,
        }
    }

    /// The span from `start` to `end` of the source text.
    pub open spec fn span(self, start: int, end: int) -> ValueView {
        ValueView::Span(SpanView { source: self.text, start, end })
    }

    /// The result of `e` at `at`, with whitespace skipping off where
    /// `atomic` holds, starting from memo `t`.
    pub open spec fn run(self, e: ExprView, at: int, atomic: bool, t: Table) -> Outcome
        decreases self.room(t), weight(e), 0nat,
    {
        match e {
            ExprView::Alt(left, right) => {
                let first = self.run(*left, at, atomic, t);
                if first.hit is Some || self.room(first.table) > self.room(t) {
                    first
                } else {
                    self.run(*right, at, atomic, first.table)
                }
            },
            ExprView::Sequence(items) => if items.len() == 1 {
                proof {
                    assert(weight_from(items, 0) == 1 + weight(items[0]) + weight_from(items, 1));
                }
                self.run(items[0], at, atomic, t)
            } else {
                self.run_sequence(items, 0, at, atomic, t)
            },
            ExprView::Repeat0(inner) => self.run_many(*inner, at, true, atomic, t, Seq::empty()),
            ExprView::Repeat1(inner) => {
                let all = self.run_many(*inner, at, true, atomic, t, Seq::empty());
                match all.hit {
                    Some(Hit { end, value: ValueView::List(values) }) => if values.len() > 0 {
                        all
                    } else {
                        Outcome { hit: None, table: all.table }
                    },
                    _ => Outcome { hit: None, table: all.table },
                }
            },
            ExprView::Optional(inner) => {
                let once = self.run(*inner, at, atomic, t);
                match once.hit {
                    Some(hit) => Outcome {
                        hit: Some(
                            Hit { end: hit.end, value: ValueView::Opt(Some(Box::new(hit.value))) },
                        ),
                        table: once.table,
                    },
                    None => Outcome {
                        hit: Some(Hit { end: at, value: ValueView::Opt(None) }),
                        table: once.table,
                    },
                }
            },
            ExprView::PosLookahead(inner) => {
                let ahead = self.run(*inner, at, atomic, t);
                match ahead.hit {
                    Some(_) => Outcome {
                        hit: Some(Hit { end: at, value: ValueView::Unit }),
                        table: ahead.table,
                    },
                    None => Outcome { hit: None, table: ahead.table },
                }
            },
            ExprView::NegLookahead(inner) => {
                let ahead = self.run(*inner, at, atomic, t);
                match ahead.hit {
                    Some(_) => Outcome { hit: None, table: ahead.table },
                    None => Outcome {
                        hit: Some(Hit { end: at, value: ValueView::Unit }),
                        table: ahead.table,
                    },
                }
            },
            ExprView::Atomic(inner) => self.run(*inner, at, true, t),
            ExprView::SpanCapture(inner) => {
                let inside = self.run(*inner, at, atomic, t);
                match inside.hit {
                    Some(hit) => Outcome {
                        hit: Some(
                            Hit {
                                end: hit.end,
                                value: ValueView::Tuple(seq![self.span(at, hit.end), hit.value]),
                            },
                        ),
                        table: inside.table,
                    },
                    None => inside,
                }
            },
            ExprView::DelimitedList(item, separator) => {
                let first = self.run(*item, at, atomic, t);
                match first.hit {
                    Some(hit) => if self.room(first.table) <= self.room(t) {
                        self.run_listed(
                            *item,
                            *separator,
                            hit.end,
                            atomic,
                            first.table,
                            seq![hit.value],
                            Seq::empty(),
                        )
                    } else {
                        Outcome { hit: None, table: first.table }
                    },
                    None => first,
                }
            },
            ExprView::Atom(atom) => match atom {
                AtomView::Ident(name, _) => match find(self.rules, name) {
                    Some(rule) => self.call(rule, at, atomic, t),
                    None => Outcome { hit: None, table: t },
                },
                _ => Outcome {
                    hit: match self.leaf(atom, at) {
                        Some(end) => Some(Hit { end, value: ValueView::Unit }),
                        None => None,
                    },
                    table: t,
                },
            },
        }
    }

    /// The result of the expressions of a sequence from index `i` on, where
    /// those before it ended at `at`. Whitespace is skipped before every
    /// expression but the first, unless `atomic` holds. The value is unit.
    pub open spec fn run_sequence(
        self,
        items: Seq<ExprView>,
        i: int,
        at: int,
        atomic: bool,
        t: Table,
    ) -> Outcome
        decreases self.room(t), weight_from(items, i), 1nat,
    {
        if 0 <= i < items.len() {
            let from = if i == 0 || atomic {
                at
            } else {
                self.skip(at)
            };
            let one = self.run(items[i], from, atomic, t);
            match one.hit {
                Some(hit) => if self.room(one.table) <= self.room(t) {
                    self.run_sequence(items, i + 1, hit.end, atomic, one.table)
                } else {
                    Outcome { hit: None, table: one.table }
                },
                None => one,
            }
        } else {
            Outcome { hit: Some(Hit { end: at, value: ValueView::Unit }), table: t }
        }
    }

    /// The result of a repetition of which `got` has been matched, the last
    /// of it ending at `at`. Whitespace is skipped before every attempt but
    /// the first, unless `atomic` holds; an attempt that fails leaves the
    /// repetition ending at `at`. A match that moves nothing is taken and
    /// ends the repetition.
    pub open spec fn run_many(
        self,
        inner: ExprView,
        at: int,
        first: bool,
        atomic: bool,
        t: Table,
        got: Seq<ValueView>,
    ) -> Outcome
        decreases self.room(t), weight(inner) + 1, self.gap(at),
    {
        let from = if first || atomic {
            at
        } else {
            self.skip(at)
        };
        let one = self.run(inner, from, atomic, t);
        match one.hit {
            Some(hit) => if 0 <= at < hit.end <= self.len() && self.room(one.table) <= self.room(t) {
                self.run_many(inner, hit.end, false, atomic, one.table, got.push(hit.value))
            } else {
                Outcome {
                    hit: Some(Hit { end: hit.end, value: ValueView::List(got.push(hit.value)) }),
                    table: one.table,
                }
            },
            None => Outcome {
                hit: Some(Hit { end: at, value: ValueView::List(got) }),
                table: one.table,
            },
        }
    }

    /// The value of a delimited list of these items and separators.
    pub open spec fn listed(items: Seq<ValueView>, separators: Seq<ValueView>) -> ValueView {
        ValueView::Tuple(seq![ValueView::List(items), ValueView::List(separators)])
    }

    /// The result of a delimited list of which `items` and `separators`
    /// have been matched, the last item ending at `at`. A separator counts
    /// only with the item after it: where either fails, the list ends at
    /// `at`.
    pub open spec fn run_listed(
        self,
        item: ExprView,
        separator: ExprView,
        at: int,
        atomic: bool,
        t: Table,
        items: Seq<ValueView>,
        separators: Seq<ValueView>,
    ) -> Outcome
        decreases self.room(t), weight(item) + weight(separator) + 1, self.gap(at),
    {
        let from = if atomic {
            at
        } else {
            self.skip(at)
        };
        let between = self.run(separator, from, atomic, t);
        match between.hit {
            Some(mark) => if self.room(between.table) <= self.room(t) {
                let onward = if atomic {
                    mark.end
                } else {
                    self.skip(mark.end)
                };
                let next = self.run(item, onward, atomic, between.table);
                match next.hit {
                    Some(hit) => if 0 <= at < hit.end <= self.len() && self.room(next.table)
                        <= self.room(t) {
                        self.run_listed(
                            item,
                            separator,
                            hit.end,
                            atomic,
                            next.table,
                            items.push(hit.value),
                            separators.push(mark.value),
                        )
                    } else {
                        Outcome {
                            hit: Some(
                                Hit {
                                    end: hit.end,
                                    value: Self::listed(
                                        items.push(hit.value),
                                        separators.push(mark.value),
                                    ),
                                },
                            ),
                            table: next.table,
                        }
                    },
                    None => Outcome {
                        hit: Some(Hit { end: at, value: Self::listed(items, separators) }),
                        table: next.table,
                    },
                }
            } else {
                Outcome {
                    hit: Some(Hit { end: at, value: Self::listed(items, separators) }),
                    table: between.table,
                }
            },
            None => Outcome {
                hit: Some(Hit { end: at, value: Self::listed(items, separators) }),
                table: between.table,
            },
        }
    }

    /// The result of rule number `rule` at `at`. An entry in the memo
    /// answers for the rule, be it a seed or a committed result; without
    /// one, the rule is entered with a failing seed and grown.
    pub open spec fn call(self, rule: int, at: int, atomic: bool, t: Table) -> Outcome
        decreases self.room(t), 0nat, 0nat,
    {
        let key = Key { rule, start: at, atomic };
        if !(0 <= rule < self.rules.len() && 0 <= at <= self.len()) {
            Outcome { hit: None, table: t }
        } else if t.dom().contains(key) {
            Outcome { hit: t[key], table: t }
        } else {
            let seeded = t.insert(key, None);
            if self.room(seeded) < self.room(t) {
                self.grow(rule, at, atomic, None, seeded)
            } else {
                Outcome { hit: None, table: t }
            }
        }
    }

    /// The result of a rule entered at `at` whose seed is `best`: the body
    /// is matched once more; where that gives a better seed, the seed is
    /// replaced and the rule grown further; where not, `best` is committed.
    pub open spec fn grow(
        self,
        rule: int,
        at: int,
        atomic: bool,
        best: Option<Hit>,
        t: Table,
    ) -> Outcome
        decreases self.room(t), weight(self.rules[rule].body) + 1, self.slack(best, at),
    {
        let key = Key { rule, start: at, atomic };
        let body = self.run(self.rules[rule].body, at, atomic, t);
        let found = match body.hit {
            Some(hit) => Some(
                Hit { end: hit.end, value: rule_value(self.rules[rule], hit.value) },
            ),
            None => None,
        };
        let seeded = body.table.insert(key, found);
        if self.better(found, best, at) && self.room(seeded) <= self.room(t) {
            self.grow(rule, at, atomic, found, seeded)
        } else {
            Outcome { hit: best, table: body.table.insert(key, best) }
        }
    }

    /// What the rule called `name` yields at `at` in a match invocation of
    /// its own: nothing where no rule has that name or `at` lies beyond the
    /// text.
    pub open spec fn answer(self, name: Seq<char>, at: int) -> Option<Hit> {
        match find(self.rules, name) {
            Some(rule) => self.call(rule, at, false, Map::empty()).hit,
            None => None,
        }
    }
}

} // verus!
