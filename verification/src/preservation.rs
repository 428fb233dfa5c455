//! Why values have the types that the grammar gives them: in a grammar
//! whose rules keep to their declared types, every expression yields
//! values of its type and every rule values of its declared type.

use vstd::prelude::*;
use crate::grammar::{ActionView, AtomView, ExprView, TypeView};
use crate::progress::lemma_find_from;
use crate::semantics::{apply, find, rule_value, weight, weight_from, Hit, Key, Scene, Table};
use crate::typing::{all_typed, declared, has_type, type_by, type_in, types_by, well_typed};
use crate::value::ValueView;

verus! {

/// The types found for the actions from an index on stand behind those
/// found before, one for each action.
pub proof fn lemma_types_by(
    parts: Seq<ActionView>,
    i: int,
    bound: Option<TypeView>,
    types: Seq<TypeView>,
)
    requires
        0 <= i <= parts.len(),
        types_by(parts, i, bound, types) is Some,
    ensures
        ({
            let all = types_by(parts, i, bound, types).unwrap();
            &&& all.len() == types.len() + parts.len() - i
            &&& forall|k: int| 0 <= k < types.len() ==> all[k] == types[k]
            &&& forall|k: int|
                i <= k < parts.len() ==> type_by(#[trigger] parts[k], bound) == Some(
                    all[types.len() + k - i],
                )
        }),
    decreases parts.len() - i,
{
    if i < parts.len() {
        let t = type_by(parts[i], bound).unwrap();
        lemma_types_by(parts, i + 1, bound, types.push(t));
        let all = types_by(parts, i, bound, types).unwrap();
        assert(all[types.len() as int] == types.push(t)[types.len() as int]);
    }
}

/// Two values side by side are of the tuple type of their types.
pub proof fn lemma_pair_typed(a: ValueView, b: ValueView, ta: TypeView, tb: TypeView)
    requires
        has_type(a, ta),
        has_type(b, tb),
    ensures
        has_type(ValueView::Tuple(seq![a, b]), TypeView::Tuple(seq![ta, tb])),
{
    let items = seq![a, b];
    let parts = seq![ta, tb];
    assert forall|i: int| 0 <= i < items.len() implies has_type(#[trigger] items[i], parts[i]) by {
        if i == 0 {
        } else {
        }
    }
}

/// An action makes a value of the type found for it.
pub proof fn lemma_apply_typed(
    action: ActionView,
    bound: ValueView,
    bound_type: Option<TypeView>,
)
    requires
        match bound_type {
            Some(t) => has_type(bound, t),
            None => true,
        },
        type_by(action, bound_type) is Some,
    ensures
        has_type(apply(action, bound), type_by(action, bound_type).unwrap()),
    decreases action,
{
    match action {
        ActionView::Bound => {},
        ActionView::Unit => {},
        ActionView::Field(inner, index) => {
            lemma_apply_typed(*inner, bound, bound_type);
        },
        ActionView::Tuple(parts) => {
            lemma_types_by(parts, 0, bound_type, Seq::empty());
            let types = types_by(parts, 0, bound_type, Seq::empty()).unwrap();
            let made = apply(action, bound)->Tuple_0;
            assert forall|i: int| 0 <= i < made.len() implies has_type(
                #[trigger] made[i],
                types[i],
            ) by {
                assert(type_by(parts[i], bound_type) == Some(types[i]));
                lemma_apply_typed(parts[i], bound, bound_type);
            }
        },
    }
}

impl Scene {
    /// Whether every match in memo `t` has a value of the type that its
    /// rule declares.
    pub open spec fn typed(self, t: Table) -> bool {
        forall|key: Key| #[trigger]
            t.dom().contains(key) ==> match t[key] {
                Some(hit) => 0 <= key.rule < self.rules.len() ==> has_type(
                    hit.value,
                    declared(self.rules[key.rule]),
                ),
                None => true,
            }
    }

    /// Whether a match, if there is one, has a value of type `t`, if there
    /// is one.
    pub open spec fn of_type(hit: Option<Hit>, t: Option<TypeView>) -> bool {
        match (hit, t) {
            (Some(found), Some(wanted)) => has_type(found.value, wanted),
            _ => true,
        }
    }

    /// Whether each of `values` is of type `t`, if there is one.
    pub open spec fn each_of_type(values: Seq<ValueView>, t: Option<TypeView>) -> bool {
        match t {
            Some(wanted) => forall|i: int|
                0 <= i < values.len() ==> has_type(#[trigger] values[i], wanted),
            None => true,
        }
    }

    /// The values of an expression are of its type.
    pub proof fn lemma_run_typed(self, e: ExprView, at: int, atomic: bool, t: Table)
        requires
            self.fits(t),
            self.typed(t),
            all_typed(self.rules),
            0 <= at <= self.len(),
        ensures
            self.typed(self.run(e, at, atomic, t).table),
            Self::of_type(self.run(e, at, atomic, t).hit, type_in(self.rules, e)),
        decreases self.room(t), weight(e), 0nat,
    {
        self.lemma_run(e, at, atomic, t);
        match e {
            ExprView::Alt(left, right) => {
                self.lemma_run(*left, at, atomic, t);
                self.lemma_run_typed(*left, at, atomic, t);
                let first = self.run(*left, at, atomic, t);
                if first.hit is None {
                    self.lemma_run_typed(*right, at, atomic, first.table);
                }
            },
            ExprView::Sequence(items) => {
                if items.len() == 1 {
                    assert(weight_from(items, 0) == 1 + weight(items[0]) + weight_from(items, 1));
                    self.lemma_run_typed(items[0], at, atomic, t);
                } else {
                    self.lemma_sequence_typed(items, 0, at, atomic, t);
                }
            },
            ExprView::Repeat0(inner) => {
                self.lemma_many_typed(*inner, at, true, atomic, t, Seq::empty());
            },
            ExprView::Repeat1(inner) => {
                self.lemma_many_typed(*inner, at, true, atomic, t, Seq::empty());
            },
            ExprView::Optional(inner) => {
                self.lemma_run_typed(*inner, at, atomic, t);
            },
            ExprView::PosLookahead(inner) => {
                self.lemma_run_typed(*inner, at, atomic, t);
            },
            ExprView::NegLookahead(inner) => {
                self.lemma_run_typed(*inner, at, atomic, t);
            },
            ExprView::Atomic(inner) => {
                self.lemma_run_typed(*inner, at, true, t);
            },
            ExprView::SpanCapture(inner) => {
                self.lemma_run_typed(*inner, at, atomic, t);
                let inside = self.run(*inner, at, atomic, t);
                if let (Some(hit), Some(wanted)) = (inside.hit, type_in(self.rules, *inner)) {
                    lemma_pair_typed(self.span(at, hit.end), hit.value, TypeView::Span, wanted);
                }
            },
            ExprView::DelimitedList(item, separator) => {
                self.lemma_run(*item, at, atomic, t);
                self.lemma_run_typed(*item, at, atomic, t);
                let first = self.run(*item, at, atomic, t);
                if let Some(hit) = first.hit {
                    self.lemma_listed_typed(
                        *item,
                        *separator,
                        hit.end,
                        atomic,
                        first.table,
                        seq![hit.value],
                        Seq::empty(),
                    );
                    let whole = self.run(e, at, atomic, t);
                    if let (Some(wanted), Some(between)) = (
                        type_in(self.rules, *item),
                        type_in(self.rules, *separator),
                    ) {
                        let (all, marks) = choose|all: Seq<ValueView>, marks: Seq<ValueView>|
                            whole.hit.unwrap().value == #[trigger] Self::listed(all, marks)
                                && Self::each_of_type(all, type_in(self.rules, *item))
                                && Self::each_of_type(marks, type_in(self.rules, *separator));
                        lemma_pair_typed(
                            ValueView::List(all),
                            ValueView::List(marks),
                            TypeView::List(Box::new(wanted)),
                            TypeView::List(Box::new(between)),
                        );
                    }
                }
            },
            ExprView::Atom(atom) => {
                match atom {
                    AtomView::Ident(name, _) => {
                        lemma_find_from(self.rules, name, 0);
                        if let Some(rule) = find(self.rules, name) {
                            self.lemma_call_typed(rule, at, atomic, t);
                        }
                    },
                    _ => {},
                }
            },
        }
    }

    /// The rest of a sequence leaves the memo typed.
    pub proof fn lemma_sequence_typed(
        self,
        items: Seq<ExprView>,
        i: int,
        at: int,
        atomic: bool,
        t: Table,
    )
        requires
            self.fits(t),
            self.typed(t),
            all_typed(self.rules),
            0 <= at <= self.len(),
        ensures
            self.typed(self.run_sequence(items, i, at, atomic, t).table),
            Self::of_type(self.run_sequence(items, i, at, atomic, t).hit, Some(TypeView::Unit)),
        decreases self.room(t), weight_from(items, i), 1nat,
    {
        if 0 <= i < items.len() {
            self.lemma_skip_bounds(at);
            let from = if i == 0 || atomic {
                at
            } else {
                self.skip(at)
            };
            self.lemma_run(items[i], from, atomic, t);
            self.lemma_run_typed(items[i], from, atomic, t);
            let one = self.run(items[i], from, atomic, t);
            if let Some(hit) = one.hit {
                self.lemma_sequence_typed(items, i + 1, hit.end, atomic, one.table);
            }
        }
    }

    /// The values of a repetition are of the type of its expression.
    pub proof fn lemma_many_typed(
        self,
        inner: ExprView,
        at: int,
        first: bool,
        atomic: bool,
        t: Table,
        got: Seq<ValueView>,
    )
        requires
            self.fits(t),
            self.typed(t),
            all_typed(self.rules),
            0 <= at <= self.len(),
            Self::each_of_type(got, type_in(self.rules, inner)),
        ensures
            self.typed(self.run_many(inner, at, first, atomic, t, got).table),
            match self.run_many(inner, at, first, atomic, t, got).hit {
                Some(Hit { end, value: ValueView::List(values) }) => Self::each_of_type(
                    values,
                    type_in(self.rules, inner),
                ),
                _ => false,
            },
        decreases self.room(t), weight(inner) + 1, self.gap(at),
    {
        self.lemma_skip_bounds(at);
        let from = if first || atomic {
            at
        } else {
            self.skip(at)
        };
        self.lemma_run(inner, from, atomic, t);
        self.lemma_run_typed(inner, from, atomic, t);
        let one = self.run(inner, from, atomic, t);
        if let Some(hit) = one.hit {
            if at < hit.end {
                self.lemma_many_typed(inner, hit.end, false, atomic, one.table, got.push(hit.value));
            }
        }
    }

    /// The values of a delimited list are of the types of its item and
    /// its separator.
    pub proof fn lemma_listed_typed(
        self,
        item: ExprView,
        separator: ExprView,
        at: int,
        atomic: bool,
        t: Table,
        items: Seq<ValueView>,
        separators: Seq<ValueView>,
    )
        requires
            self.fits(t),
            self.typed(t),
            all_typed(self.rules),
            0 <= at <= self.len(),
            Self::each_of_type(items, type_in(self.rules, item)),
            Self::each_of_type(separators, type_in(self.rules, separator)),
        ensures
            self.typed(self.run_listed(item, separator, at, atomic, t, items, separators).table),
            exists|all: Seq<ValueView>, between: Seq<ValueView>|
                self.run_listed(item, separator, at, atomic, t, items, separators).hit.unwrap().value
                    == #[trigger] Self::listed(all, between) && Self::each_of_type(
                    all,
                    type_in(self.rules, item),
                ) && Self::each_of_type(between, type_in(self.rules, separator)),
        decreases self.room(t), weight(item) + weight(separator) + 1, self.gap(at),
    {
        self.lemma_skip_bounds(at);
        let from = if atomic {
            at
        } else {
            self.skip(at)
        };
        self.lemma_run(separator, from, atomic, t);
        self.lemma_run_typed(separator, from, atomic, t);
        let between = self.run(separator, from, atomic, t);
        if let Some(mark) = between.hit {
            self.lemma_skip_bounds(mark.end);
            let onward = if atomic {
                mark.end
            } else {
                self.skip(mark.end)
            };
            self.lemma_run(item, onward, atomic, between.table);
            self.lemma_run_typed(item, onward, atomic, between.table);
            let next = self.run(item, onward, atomic, between.table);
            if let Some(hit) = next.hit {
                if at < hit.end {
                    self.lemma_listed_typed(
                        item,
                        separator,
                        hit.end,
                        atomic,
                        next.table,
                        items.push(hit.value),
                        separators.push(mark.value),
                    );
                }
            }
        }
    }

    /// The value of a rule is of the type that the rule declares.
    pub proof fn lemma_call_typed(self, rule: int, at: int, atomic: bool, t: Table)
        requires
            self.fits(t),
            self.typed(t),
            all_typed(self.rules),
            0 <= at <= self.len(),
            0 <= rule < self.rules.len(),
        ensures
            self.typed(self.call(rule, at, atomic, t).table),
            Self::of_type(self.call(rule, at, atomic, t).hit, Some(declared(self.rules[rule]))),
        decreases self.room(t), 0nat, 0nat,
    {
        let key = Key { rule, start: at, atomic };
        if !t.dom().contains(key) {
            let seeded = t.insert(key, None);
            self.lemma_room_taken(t, key, None);
            assert(self.fits(seeded));
            assert(self.typed(seeded));
            self.lemma_grow_typed(rule, at, atomic, None, seeded);
        }
    }

    /// Every seed of a rule is of the type that the rule declares.
    pub proof fn lemma_grow_typed(self, rule: int, at: int, atomic: bool, best: Option<Hit>, t: Table)
        requires
            self.fits(t),
            self.typed(t),
            all_typed(self.rules),
            0 <= at <= self.len(),
            0 <= rule < self.rules.len(),
            t.dom().contains(Key { rule, start: at, atomic }),
            match best {
                Some(seed) => at <= seed.end <= self.len(),
                None => true,
            },
            Self::of_type(best, Some(declared(self.rules[rule]))),
        ensures
            self.typed(self.grow(rule, at, atomic, best, t).table),
            Self::of_type(self.grow(rule, at, atomic, best, t).hit, Some(declared(self.rules[rule]))),
        decreases self.room(t), weight(self.rules[rule].body) + 1, self.slack(best, at),
    {
        let key = Key { rule, start: at, atomic };
        let the_rule = self.rules[rule];
        self.lemma_run(the_rule.body, at, atomic, t);
        self.lemma_run_typed(the_rule.body, at, atomic, t);
        let body = self.run(the_rule.body, at, atomic, t);
        let found = match body.hit {
            Some(hit) => Some(Hit { end: hit.end, value: rule_value(the_rule, hit.value) }),
            None => None,
        };
        assert(well_typed(self.rules, the_rule));
        if let Some(hit) = body.hit {
            if let Some(action) = the_rule.action {
                lemma_apply_typed(action, hit.value, type_in(self.rules, the_rule.body));
            }
        }
        assert(Self::of_type(found, Some(declared(the_rule))));
        let seeded = body.table.insert(key, found);
        assert(Self::extends(body.table, seeded));
        self.lemma_room_shrinks(body.table, seeded);
        self.lemma_room_shrinks(seeded, body.table);
        if self.better(found, best, at) {
            assert(self.fits(seeded));
            assert(self.typed(seeded));
            self.lemma_grow_typed(rule, at, atomic, found, seeded);
        } else {
            let kept = body.table.insert(key, best);
            assert(self.typed(kept));
        }
    }
}

} // verus!
