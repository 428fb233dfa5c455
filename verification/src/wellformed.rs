//! Which rule sets are grammars, and the first fault of one that is not.

use vstd::prelude::*;
use crate::error::{Fault, GrammarError};
use crate::grammar::{Atom, AtomView, Expr, ExprView, Rule, RuleView};
use crate::grammar::rule_models;
use crate::progress::lemma_find_from;
use crate::semantics::{find, find_from};
use crate::token::Location;

verus! {

/// Whether `e` is free of faults: every sequence in it has an expression,
/// no range in it is inverted, and every rule it names is among `rules`.
pub open spec fn sound_expr(rules: Seq<RuleView>, e: ExprView) -> bool
    decreases e,
{
    match e {
        ExprView::Alt(left, right) => sound_expr(rules, *left) && sound_expr(rules, *right),
        ExprView::Sequence(items) => items.len() > 0 && forall|i: int|
            0 <= i < items.len() ==> sound_expr(rules, #[trigger] items[i]),
        ExprView::Repeat0(inner) => sound_expr(rules, *inner),
        ExprView::Repeat1(inner) => sound_expr(rules, *inner),
        ExprView::Optional(inner) => sound_expr(rules, *inner),
        ExprView::PosLookahead(inner) => sound_expr(rules, *inner),
        ExprView::NegLookahead(inner) => sound_expr(rules, *inner),
        ExprView::Atomic(inner) => sound_expr(rules, *inner),
        ExprView::SpanCapture(inner) => sound_expr(rules, *inner),
        ExprView::DelimitedList(item, separator) => sound_expr(rules, *item) && sound_expr(
            rules,
            *separator,
        ),
        ExprView::Atom(atom) => match atom {
            AtomView::Ident(name, _) => exists|i: int|
                0 <= i < rules.len() && (#[trigger] rules[i]).name == name,
            AtomView::Range(low, high) => low as u32 <= high as u32,
            _ => true,
        },
    }
}

/// Whether `rules` make a grammar: no two rules share a name, and every
/// body is free of faults.
pub open spec fn sound_rules(rules: Seq<RuleView>) -> bool {
    &&& forall|i: int, j: int|
        0 <= i < j < rules.len() ==> (#[trigger] rules[i]).name != (#[trigger] rules[j]).name
    &&& forall|i: int| 0 <= i < rules.len() ==> sound_expr(rules, (#[trigger] rules[i]).body)
}

/// The first fault of `e`, going through it from left to right, a node
/// before what is inside it. `at` is where the rule of `e` is named.
pub open spec fn fault_in(rules: Seq<RuleView>, e: ExprView, at: Location) -> Option<GrammarError>
    decreases e, 0nat,
{
    match e {
        ExprView::Alt(left, right) => match fault_in(rules, *left, at) {
            Some(fault) => Some(fault),
            None => fault_in(rules, *right, at),
        },
        ExprView::Sequence(items) => if items.len() == 0 {
            Some(GrammarError { fault: Fault::EmptySequence, at })
        } else {
            fault_among(rules, items, 0, at)
        },
        ExprView::Repeat0(inner) => fault_in(rules, *inner, at),
        ExprView::Repeat1(inner) => fault_in(rules, *inner, at),
        ExprView::Optional(inner) => fault_in(rules, *inner, at),
        ExprView::PosLookahead(inner) => fault_in(rules, *inner, at),
        ExprView::NegLookahead(inner) => fault_in(rules, *inner, at),
        ExprView::Atomic(inner) => fault_in(rules, *inner, at),
        ExprView::SpanCapture(inner) => fault_in(rules, *inner, at),
        ExprView::DelimitedList(item, separator) => match fault_in(rules, *item, at) {
            Some(fault) => Some(fault),
            None => fault_in(rules, *separator, at),
        },
        ExprView::Atom(atom) => match atom {
            AtomView::Ident(name, named_at) => if find(rules, name) is None {
                Some(GrammarError { fault: Fault::UndefinedRule, at: named_at })
            } else {
                None
            },
            AtomView::Range(low, high) => if low as u32 > high as u32 {
                Some(GrammarError { fault: Fault::InvertedRange, at })
            } else {
                None
            },
            _ => None,
        },
    }
}

/// The first fault of the expressions from index `i` on.
pub open spec fn fault_among(rules: Seq<RuleView>, items: Seq<ExprView>, i: int, at: Location) -> Option<
    GrammarError,
>
    decreases items, items.len() - i,
{
    if 0 <= i < items.len() {
        match fault_in(rules, items[i], at) {
            Some(fault) => Some(fault),
            None => fault_among(rules, items, i + 1, at),
        }
    } else {
        None
    }
}

/// The first fault of the rules from index `from` on: for each rule in
/// turn, that its name is taken by an earlier rule, or else the first
/// fault of its body.
pub open spec fn first_fault(rules: Seq<RuleView>, from: int) -> Option<GrammarError>
    decreases rules.len() - from,
{
    if 0 <= from < rules.len() {
        if find(rules, rules[from].name) != Some(from) {
            Some(GrammarError { fault: Fault::DuplicateRule, at: rules[from].at })
        } else {
            match fault_in(rules, rules[from].body, rules[from].at) {
                Some(fault) => Some(fault),
                None => first_fault(rules, from + 1),
            }
        }
    } else {
        None
    }
}

/// An expression has no first fault exactly when it is free of faults.
pub proof fn lemma_fault_in(rules: Seq<RuleView>, e: ExprView, at: Location)
    ensures
        fault_in(rules, e, at) is None <==> sound_expr(rules, e),
    decreases e, 0nat,
{
    match e {
        ExprView::Alt(left, right) => {
            lemma_fault_in(rules, *left, at);
            lemma_fault_in(rules, *right, at);
        },
        ExprView::Sequence(items) => {
            lemma_fault_among(rules, items, 0, at);
        },
        ExprView::Repeat0(inner) => lemma_fault_in(rules, *inner, at),
        ExprView::Repeat1(inner) => lemma_fault_in(rules, *inner, at),
        ExprView::Optional(inner) => lemma_fault_in(rules, *inner, at),
        ExprView::PosLookahead(inner) => lemma_fault_in(rules, *inner, at),
        ExprView::NegLookahead(inner) => lemma_fault_in(rules, *inner, at),
        ExprView::Atomic(inner) => lemma_fault_in(rules, *inner, at),
        ExprView::SpanCapture(inner) => lemma_fault_in(rules, *inner, at),
        ExprView::DelimitedList(item, separator) => {
            lemma_fault_in(rules, *item, at);
            lemma_fault_in(rules, *separator, at);
        },
        ExprView::Atom(atom) => {
            if let AtomView::Ident(name, _) = atom {
                lemma_find_from(rules, name, 0);
            }
        },
    }
}

/// The expressions from an index on have no first fault exactly when each
/// of them is free of faults.
pub proof fn lemma_fault_among(rules: Seq<RuleView>, items: Seq<ExprView>, i: int, at: Location)
    requires
        0 <= i,
    ensures
        fault_among(rules, items, i, at) is None <==> forall|k: int|
            i <= k < items.len() ==> sound_expr(rules, #[trigger] items[k]),
    decreases items, items.len() - i,
{
    if i < items.len() {
        lemma_fault_in(rules, items[i], at);
        lemma_fault_among(rules, items, i + 1, at);
    }
}

/// The rules from an index on have no first fault exactly when each of them
/// is the first of its name and has a body free of faults.
pub proof fn lemma_first_fault_from(rules: Seq<RuleView>, from: int)
    requires
        0 <= from,
    ensures
        first_fault(rules, from) is None <==> forall|k: int|
            from <= k < rules.len() ==> find(rules, (#[trigger] rules[k]).name) == Some(k)
                && sound_expr(rules, rules[k].body),
    decreases rules.len() - from,
{
    if from < rules.len() {
        lemma_fault_in(rules, rules[from].body, rules[from].at);
        lemma_first_fault_from(rules, from + 1);
    }
}

/// A rule set has no first fault exactly when it makes a grammar.
pub proof fn lemma_first_fault(rules: Seq<RuleView>)
    ensures
        first_fault(rules, 0) is None <==> sound_rules(rules),
{
    lemma_first_fault_from(rules, 0);
    if first_fault(rules, 0) is None {
        assert forall|i: int, j: int| 0 <= i < j < rules.len() implies (#[trigger] rules[i]).name
            != (#[trigger] rules[j]).name by {
            lemma_find_from(rules, rules[j].name, 0);
        }
    }
    if sound_rules(rules) {
        assert forall|k: int| 0 <= k < rules.len() implies find(rules, (#[trigger] rules[k]).name)
            == Some(k) by {
            lemma_find_from(rules, rules[k].name, 0);
        }
    }
}

/// The index of the first rule called `name`.
pub fn find_rule(rules: &Vec<Rule>, name: &String) -> (index: Option<usize>)
    ensures
        match index {
            Some(rule) => find(rule_models(rules@), name@) == Some(rule as int) && rule
                < rules.len(),
            None => find(rule_models(rules@), name@) is None,
        },
{
    let mut i: usize = 0;
    while i < rules.len()
        invariant
            i <= rules.len(),
            find(rule_models(rules@), name@) == find_from(rule_models(rules@), name@, i as int),
        decreases rules.len() - i,
    {
        if rules[i].name == *name {
            return Some(i);
        }
        i = i + 1;
    }
    None
}

/// The first fault of `e`.
pub fn expr_fault(rules: &Vec<Rule>, e: &Expr, at: Location) -> (fault: Option<GrammarError>)
    ensures
        fault == fault_in(rule_models(rules@), e@, at),
    decreases e, 0nat,
{
    match e {
        Expr::Alt(left, right) => match expr_fault(rules, left, at) {
            Some(fault) => Some(fault),
            None => expr_fault(rules, right, at),
        },
        Expr::Sequence(items) => if items.len() == 0 {
            Some(GrammarError { fault: Fault::EmptySequence, at })
        } else {
            exprs_fault(rules, items, at)
        },
        Expr::Repeat0(inner) => expr_fault(rules, inner, at),
        Expr::Repeat1(inner) => expr_fault(rules, inner, at),
        Expr::Optional(inner) => expr_fault(rules, inner, at),
        Expr::PosLookahead(inner) => expr_fault(rules, inner, at),
        Expr::NegLookahead(inner) => expr_fault(rules, inner, at),
        Expr::Atomic(inner) => expr_fault(rules, inner, at),
        Expr::SpanCapture(inner) => expr_fault(rules, inner, at),
        Expr::DelimitedList(item, separator) => match expr_fault(rules, item, at) {
            Some(fault) => Some(fault),
            None => expr_fault(rules, separator, at),
        },
        Expr::Atom(atom) => match atom {
            Atom::Ident(name, named_at) => match find_rule(rules, name) {
                Some(_) => None,
                None => Some(GrammarError { fault: Fault::UndefinedRule, at: *named_at }),
            },
            Atom::Range(low, high) => if *low as u32 > *high as u32 {
                Some(GrammarError { fault: Fault::InvertedRange, at })
            } else {
                None
            },
            _ => None,
        },
    }
}

/// The first fault of the expressions `items`.
pub fn exprs_fault(rules: &Vec<Rule>, items: &Vec<Expr>, at: Location) -> (fault: Option<
    GrammarError,
>)
    ensures
        fault == fault_among(rule_models(rules@), Expr::Sequence(*items)@->Sequence_0, 0, at),
    decreases items, 1nat,
{
    let ghost views = Expr::Sequence(*items)@->Sequence_0;
    let mut i: usize = 0;
    while i < items.len()
        invariant
            i <= items.len(),
            views == Expr::Sequence(*items)@->Sequence_0,
            fault_among(rule_models(rules@), views, 0, at) == fault_among(
                rule_models(rules@),
                views,
                i as int,
                at,
            ),
        decreases items.len() - i,
    {
        assert(views[i as int] == items[i as int]@);
        match expr_fault(rules, &items[i], at) {
            Some(fault) => {
                return Some(fault);
            },
            None => {},
        }
        i = i + 1;
    }
    None
}

/// The first fault of `rules`.
pub fn rules_fault(rules: &Vec<Rule>) -> (fault: Option<GrammarError>)
    ensures
        fault == first_fault(rule_models(rules@), 0),
{
    let mut i: usize = 0;
    while i < rules.len()
        invariant
            i <= rules.len(),
            first_fault(rule_models(rules@), 0) == first_fault(rule_models(rules@), i as int),
        decreases rules.len() - i,
    {
        match find_rule(rules, &rules[i].name) {
            Some(first) => if first != i {
                return Some(GrammarError { fault: Fault::DuplicateRule, at: rules[i].at });
            },
            None => {
                return Some(GrammarError { fault: Fault::DuplicateRule, at: rules[i].at });
            },
        }
        match expr_fault(rules, &rules[i].body, rules[i].at) {
            Some(fault) => {
                return Some(fault);
            },
            None => {},
        }
        i = i + 1;
    }
    None
}

} // verus!
