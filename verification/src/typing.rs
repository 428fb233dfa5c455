//! The types of values: which type an expression and an action yield,
//! which rules keep to the type they declare, and which values are of a
//! type.

use vstd::prelude::*;
use crate::error::{Fault, GrammarError};
use crate::grammar::{
    Action, ActionView, Atom, AtomView, Expr, ExprView, Rule, RuleView, Type, TypeView,
};
use crate::grammar::rule_models;
use crate::parser::{lemma_tuple_type_model, type_models};
use crate::semantics::find;
use crate::value::ValueView;
use crate::wellformed::{find_rule, first_fault, lemma_first_fault, sound_rules};

verus! {

/// The type that a rule declares: unit where it declares none.
pub open spec fn declared(rule: RuleView) -> TypeView {
    match rule.result {
        Some(t) => t,
        None => TypeView::Unit,
    }
}

/// The type of a captured expression of type `inner`: a span beside it.
pub open spec fn captured(inner: TypeView) -> TypeView {
    TypeView::Tuple(seq![TypeView::Span, inner])
}

/// The type of a delimited list of these items and separators.
pub open spec fn listed(item: TypeView, separator: TypeView) -> TypeView {
    TypeView::Tuple(
        seq![TypeView::List(Box::new(item)), TypeView::List(Box::new(separator))],
    )
}

/// The type of the values of `e`, where all of them are of one type. A
/// sequence of one expression has the type of that expression, any other
/// sequence is of type unit; an alternation has a type where both sides
/// have the same.
pub open spec fn type_in(rules: Seq<RuleView>, e: ExprView) -> Option<TypeView>
    decreases e,
{
    match e {
        ExprView::Alt(left, right) => if type_in(rules, *left) == type_in(rules, *right) {
            type_in(rules, *left)
        } else {
            None
        },
        ExprView::Sequence(items) => if items.len() == 1 {
            type_in(rules, items[0])
        } else {
            Some(TypeView::Unit)
        },
        ExprView::Repeat0(inner) => match type_in(rules, *inner) {
            Some(t) => Some(TypeView::List(Box::new(t))),
            None => None,
        },
        ExprView::Repeat1(inner) => match type_in(rules, *inner) {
            Some(t) => Some(TypeView::List(Box::new(t))),
            None => None,
        },
        ExprView::Optional(inner) => match type_in(rules, *inner) {
            Some(t) => Some(TypeView::Opt(Box::new(t))),
            None => None,
        },
        ExprView::PosLookahead(_) => Some(TypeView::Unit),
        ExprView::NegLookahead(_) => Some(TypeView::Unit),
        ExprView::Atomic(inner) => type_in(rules, *inner),
        ExprView::SpanCapture(inner) => match type_in(rules, *inner) {
            Some(t) => Some(captured(t)),
            None => None,
        },
        ExprView::DelimitedList(item, separator) => match (
            type_in(rules, *item),
            type_in(rules, *separator),
        ) {
            (Some(t), Some(u)) => Some(listed(t, u)),
            _ => None,
        },
        ExprView::Atom(atom) => match atom {
            AtomView::Ident(name, _) => match find(rules, name) {
                Some(rule) => Some(declared(rules[rule])),
                None => None,
            },
            _ => Some(TypeView::Unit),
        },
    }
}

/// The type of what `action` makes of a value of type `bound`, where that
/// is known.
pub open spec fn type_by(action: ActionView, bound: Option<TypeView>) -> Option<TypeView>
    decreases action, 0nat,
{
    match action {
        ActionView::Bound => bound,
        ActionView::Unit => Some(TypeView::Unit),
        ActionView::Field(inner, index) => match type_by(*inner, bound) {
            Some(TypeView::Tuple(parts)) => if 0 <= index < parts.len() {
                Some(parts[index])
            } else {
                None
            },
            _ => None,
        },
        ActionView::Tuple(parts) => match types_by(parts, 0, bound, Seq::empty()) {
            Some(types) => Some(TypeView::Tuple(types)),
            None => None,
        },
    }
}

/// The types of what the actions from index `i` on make of a value of type
/// `bound`, behind `types`, where all of them are known.
pub open spec fn types_by(
    parts: Seq<ActionView>,
    i: int,
    bound: Option<TypeView>,
    types: Seq<TypeView>,
) -> Option<Seq<TypeView>>
    decreases parts, parts.len() - i,
{
    if 0 <= i < parts.len() {
        match type_by(parts[i], bound) {
            Some(t) => types_by(parts, i + 1, bound, types.push(t)),
            None => None,
        }
    } else {
        Some(types)
    }
}

/// Whether `rule` keeps to the type it declares: its action makes a value
/// of that type of what its body yields, and a rule without an action
/// declares unit or nothing.
pub open spec fn well_typed(rules: Seq<RuleView>, rule: RuleView) -> bool {
    match rule.action {
        Some(action) => type_by(action, type_in(rules, rule.body)) == Some(declared(rule)),
        None => declared(rule) == TypeView::Unit,
    }
}

/// Whether every rule keeps to the type it declares.
pub open spec fn all_typed(rules: Seq<RuleView>) -> bool {
    forall|i: int| 0 <= i < rules.len() ==> well_typed(rules, #[trigger] rules[i])
}

/// The fault of the first rule from index `from` on that does not keep to
/// the type it declares.
pub open spec fn first_mistyped(rules: Seq<RuleView>, from: int) -> Option<GrammarError>
    decreases rules.len() - from,
{
    if 0 <= from < rules.len() {
        if well_typed(rules, rules[from]) {
            first_mistyped(rules, from + 1)
        } else {
            Some(GrammarError { fault: Fault::TypeMismatch, at: rules[from].at })
        }
    } else {
        None
    }
}

/// No rule is the first that is mistyped exactly when all are well typed.
pub proof fn lemma_first_mistyped(rules: Seq<RuleView>, from: int)
    requires
        0 <= from,
    ensures
        first_mistyped(rules, from) is None <==> forall|i: int|
            from <= i < rules.len() ==> well_typed(rules, #[trigger] rules[i]),
    decreases rules.len() - from,
{
    if from < rules.len() {
        lemma_first_mistyped(rules, from + 1);
    }
}

/// The first fault of `rules`: the first fault of their names and bodies,
/// and where there is none, that of the first rule that does not keep to
/// the type it declares.
pub open spec fn fault_of(rules: Seq<RuleView>) -> Option<GrammarError> {
    match first_fault(rules, 0) {
        Some(fault) => Some(fault),
        None => first_mistyped(rules, 0),
    }
}

/// Whether `rules` make a grammar: no two rules share a name, every body
/// is free of faults, and every rule keeps to the type it declares.
pub open spec fn faultless(rules: Seq<RuleView>) -> bool {
    sound_rules(rules) && all_typed(rules)
}

/// A rule set has no first fault exactly when it makes a grammar.
pub proof fn lemma_fault_of(rules: Seq<RuleView>)
    ensures
        fault_of(rules) is None <==> faultless(rules),
{
    lemma_first_fault(rules);
    lemma_first_mistyped(rules, 0);
}

/// Whether `value` is of type `t`.
pub open spec fn has_type(value: ValueView, t: TypeView) -> bool
    decreases value,
{
    match (value, t) {
        (ValueView::Unit, TypeView::Unit) => true,
        (ValueView::Span(_), TypeView::Span) => true,
        (ValueView::List(items), TypeView::List(inner)) => forall|i: int|
            0 <= i < items.len() ==> has_type(#[trigger] items[i], *inner),
        (ValueView::Opt(None), TypeView::Opt(_)) => true,
        (ValueView::Opt(Some(inside)), TypeView::Opt(inner)) => has_type(*inside, *inner),
        (ValueView::Tuple(items), TypeView::Tuple(parts)) => items.len() == parts.len()
            && forall|i: int| 0 <= i < items.len() ==> has_type(#[trigger] items[i], parts[i]),
        _ => false,
    }
}

/// A second type equal to this one.
pub fn copy_type(t: &Type) -> (copy: Type)
    ensures
        copy@ == t@,
    decreases t,
{
    match t {
        Type::Unit => Type::Unit,
        Type::Span => Type::Span,
        Type::List(inner) => Type::List(Box::new(copy_type(inner))),
        Type::Opt(inner) => Type::Opt(Box::new(copy_type(inner))),
        Type::Tuple(parts) => {
            let copies = copy_types(parts);
            proof {
                lemma_tuple_type_model(copies);
                lemma_tuple_type_model(*parts);
                assert(type_models(copies@) =~= type_models(parts@));
            }
            Type::Tuple(copies)
        },
    }
}

/// The types `parts`, each a second time.
pub fn copy_types(parts: &Vec<Type>) -> (copies: Vec<Type>)
    ensures
        copies.len() == parts.len(),
        forall|i: int| 0 <= i < parts.len() ==> (#[trigger] copies[i])@ == parts[i]@,
    decreases parts,
{
    let mut copies: Vec<Type> = Vec::new();
    let mut i: usize = 0;
    while i < parts.len()
        invariant
            i <= parts.len(),
            copies.len() == i,
            forall|j: int| 0 <= j < i ==> (#[trigger] copies[j])@ == parts[j]@,
        decreases parts.len() - i,
    {
        let copy = copy_type(&parts[i]);
        copies.push(copy);
        i = i + 1;
    }
    copies
}

/// Whether two types are the same.
pub fn same_type(a: &Type, b: &Type) -> (same: bool)
    ensures
        same == (a@ == b@),
    decreases a,
{
    match (a, b) {
        (Type::Unit, Type::Unit) => true,
        (Type::Span, Type::Span) => true,
        (Type::List(x), Type::List(y)) => same_type(x, y),
        (Type::Opt(x), Type::Opt(y)) => same_type(x, y),
        (Type::Tuple(x), Type::Tuple(y)) => {
            proof {
                lemma_tuple_type_model(*x);
                lemma_tuple_type_model(*y);
            }
            if x.len() != y.len() {
                assert(type_models(x@).len() != type_models(y@).len());
                return false;
            }
            let mut i: usize = 0;
            while i < x.len()
                invariant
                    i <= x.len(),
                    x.len() == y.len(),
                    *a == Type::Tuple(*x),
                    a@ == TypeView::Tuple(type_models(x@)),
                    b@ == TypeView::Tuple(type_models(y@)),
                    forall|j: int| 0 <= j < i ==> x[j]@ == y[j]@,
                decreases x.len() - i,
            {
                if !same_type(&x[i], &y[i]) {
                    assert(type_models(x@)[i as int] != type_models(y@)[i as int]);
                    return false;
                }
                i = i + 1;
            }
            assert(type_models(x@) =~= type_models(y@));
            true
        },
        _ => false,
    }
}

/// A type, or none, as the typing rules speak of it.
pub open spec fn type_model(t: Option<Type>) -> Option<TypeView> {
    match t {
        Some(t) => Some(t@),
        None => None,
    }
}

/// Whether two types, or their absence, are the same.
pub fn same_types(a: &Option<Type>, b: &Option<Type>) -> (same: bool)
    ensures
        same == (type_model(*a) == type_model(*b)),
{
    match (a, b) {
        (Some(x), Some(y)) => same_type(x, y),
        (None, None) => true,
        _ => false,
    }
}

/// The pair of `first` and `second` as a tuple type.
fn pair_type(first: Type, second: Type) -> (pair: Type)
    ensures
        pair@ == TypeView::Tuple(seq![first@, second@]),
{
    let mut parts: Vec<Type> = Vec::new();
    parts.push(first);
    parts.push(second);
    proof {
        lemma_tuple_type_model(parts);
        assert(type_models(parts@) =~= seq![first@, second@]);
    }
    Type::Tuple(parts)
}

/// The type that `rule` declares.
pub fn declared_of(rule: &Rule) -> (t: Type)
    ensures
        t@ == declared(rule@),
{
    match &rule.result {
        Some(t) => copy_type(t),
        None => Type::Unit,
    }
}

/// The type of the values of `e`, where all of them are of one type.
pub fn infer(rules: &Vec<Rule>, e: &Expr) -> (t: Option<Type>)
    ensures
        type_model(t) == type_in(rule_models(rules@), e@),
    decreases e,
{
    match e {
        Expr::Alt(left, right) => {
            let first = infer(rules, left);
            let second = infer(rules, right);
            if same_types(&first, &second) {
                first
            } else {
                None
            }
        },
        Expr::Sequence(items) => if items.len() == 1 {
            infer(rules, &items[0])
        } else {
            Some(Type::Unit)
        },
        Expr::Repeat0(inner) => match infer(rules, inner) {
            Some(t) => Some(Type::List(Box::new(t))),
            None => None,
        },
        Expr::Repeat1(inner) => match infer(rules, inner) {
            Some(t) => Some(Type::List(Box::new(t))),
            None => None,
        },
        Expr::Optional(inner) => match infer(rules, inner) {
            Some(t) => Some(Type::Opt(Box::new(t))),
            None => None,
        },
        Expr::PosLookahead(_) => Some(Type::Unit),
        Expr::NegLookahead(_) => Some(Type::Unit),
        Expr::Atomic(inner) => infer(rules, inner),
        Expr::SpanCapture(inner) => match infer(rules, inner) {
            Some(t) => Some(pair_type(Type::Span, t)),
            None => None,
        },
        Expr::DelimitedList(item, separator) => {
            let first = infer(rules, item);
            let second = infer(rules, separator);
            match (first, second) {
                (Some(t), Some(u)) => Some(
                    pair_type(Type::List(Box::new(t)), Type::List(Box::new(u))),
                ),
                _ => None,
            }
        },
        Expr::Atom(atom) => match atom {
            Atom::Ident(name, _) => match find_rule(rules, name) {
                Some(rule) => Some(declared_of(&rules[rule])),
                None => None,
            },
            _ => Some(Type::Unit),
        },
    }
}

/// The type of what `action` makes of a value of type `bound`, where that
/// is known.
pub fn infer_action(action: &Action, bound: &Option<Type>) -> (t: Option<Type>)
    ensures
        type_model(t) == type_by(action@, type_model(*bound)),
    decreases action, 0nat,
{
    match action {
        Action::Bound => match bound {
            Some(t) => Some(copy_type(t)),
            None => None,
        },
        Action::Unit => Some(Type::Unit),
        Action::Field(inner, index) => match infer_action(inner, bound) {
            Some(Type::Tuple(parts)) => {
                proof {
                    lemma_tuple_type_model(parts);
                }
                if *index < parts.len() {
                    Some(copy_type(&parts[*index]))
                } else {
                    None
                }
            },
            _ => None,
        },
        Action::Tuple(parts) => match infer_actions(parts, bound) {
            Some(types) => {
                proof {
                    lemma_tuple_type_model(types);
                }
                Some(Type::Tuple(types))
            },
            None => None,
        },
    }
}

/// The types of what the actions `parts` make of a value of type `bound`,
/// where all of them are known.
pub fn infer_actions(parts: &Vec<Action>, bound: &Option<Type>) -> (types: Option<Vec<Type>>)
    ensures
        match types {
            Some(found) => types_by(
                Action::Tuple(*parts)@->Tuple_0,
                0,
                type_model(*bound),
                Seq::empty(),
            ) == Some(type_models(found@)),
            None => types_by(Action::Tuple(*parts)@->Tuple_0, 0, type_model(*bound), Seq::empty())
                is None,
        },
    decreases parts, 1nat,
{
    let ghost views = Action::Tuple(*parts)@->Tuple_0;
    let mut types: Vec<Type> = Vec::new();
    let mut i: usize = 0;
    assert(type_models(types@) =~= Seq::<TypeView>::empty());
    while i < parts.len()
        invariant
            i <= parts.len(),
            views == Action::Tuple(*parts)@->Tuple_0,
            types_by(views, 0, type_model(*bound), Seq::empty()) == types_by(
                views,
                i as int,
                type_model(*bound),
                type_models(types@),
            ),
        decreases parts.len() - i,
    {
        assert(views[i as int] == parts[i as int]@);
        match infer_action(&parts[i], bound) {
            Some(t) => {
                let ghost before = type_models(types@);
                let ghost one = t@;
                types.push(t);
                assert(type_models(types@) =~= before.push(one));
            },
            None => {
                return None;
            },
        }
        i = i + 1;
    }
    Some(types)
}

/// Whether `rule` keeps to the type it declares.
pub fn rule_typed(rules: &Vec<Rule>, rule: &Rule) -> (typed: bool)
    ensures
        typed == well_typed(rule_models(rules@), rule@),
{
    let wanted = declared_of(rule);
    match &rule.action {
        Some(action) => {
            let bound = infer(rules, &rule.body);
            let made = infer_action(action, &bound);
            same_types(&made, &Some(wanted))
        },
        None => same_type(&wanted, &Type::Unit),
    }
}

/// The fault of the first rule that does not keep to the type it declares.
pub fn rules_mistyped(rules: &Vec<Rule>) -> (fault: Option<GrammarError>)
    ensures
        fault == first_mistyped(rule_models(rules@), 0),
{
    let mut i: usize = 0;
    while i < rules.len()
        invariant
            i <= rules.len(),
            first_mistyped(rule_models(rules@), 0) == first_mistyped(
                rule_models(rules@),
                i as int,
            ),
        decreases rules.len() - i,
    {
        if !rule_typed(rules, &rules[i]) {
            return Some(GrammarError { fault: Fault::TypeMismatch, at: rules[i].at });
        }
        i = i + 1;
    }
    None
}

} // verus!
