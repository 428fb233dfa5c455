//! Reading the grammar notation: tokens in, rules out, as the notation
//! says.

use vstd::prelude::*;
use crate::error::{Fault, GrammarError};
use crate::grammar::{
    Action, ActionView, Atom, AtomView, Expr, ExprView, Grammar, GrammarView, Rule, RuleView,
    Type, TypeView,
};
use crate::grammar::rule_models;
use crate::syntax::{
    action_of, action_tail, actions_of, alt_of, alt_tail, arrow_at, atom_of, binder_of,
    braced_action, cat_of, cat_tail, declared_type, end_of, ident_at, joint_at, list_of,
    postfix_of, postfix_tail, prefix_of, primary_of, punct_at, rule_of, rules_of, starts_term,
    type_of, types_of, unexpected,
};
use crate::token::{tokenize, Bracket, Location, Token, TokenKind};
use crate::grammar::default_blanks;
use crate::typing::{fault_of, faultless};

verus! {

/// The models of expressions, in order.
pub open spec fn expr_models(items: Seq<Expr>) -> Seq<ExprView> {
    Seq::new(items.len(), |i: int| items[i]@)
}

/// The models of types, in order.
pub open spec fn type_models(items: Seq<Type>) -> Seq<TypeView> {
    Seq::new(items.len(), |i: int| items[i]@)
}

/// The models of actions, in order.
pub open spec fn action_models(items: Seq<Action>) -> Seq<ActionView> {
    Seq::new(items.len(), |i: int| items[i]@)
}

/// A sequence is modelled by the models of its expressions.
pub proof fn lemma_sequence_model(items: Vec<Expr>)
    ensures
        Expr::Sequence(items)@ == ExprView::Sequence(expr_models(items@)),
{
    assert(Expr::Sequence(items)@->Sequence_0 =~= expr_models(items@));
}

/// A tuple type is modelled by the models of its parts.
pub proof fn lemma_tuple_type_model(items: Vec<Type>)
    ensures
        Type::Tuple(items)@ == TypeView::Tuple(type_models(items@)),
{
    assert(Type::Tuple(items)@->Tuple_0 =~= type_models(items@));
}

/// A tuple action is modelled by the models of its parts.
pub proof fn lemma_tuple_action_model(items: Vec<Action>)
    ensures
        Action::Tuple(items)@ == ActionView::Tuple(action_models(items@)),
{
    assert(Action::Tuple(items)@->Tuple_0 =~= action_models(items@));
}

/// What was read, as the notation speaks of it.
pub open spec fn atom_read(read: Result<(Atom, usize), GrammarError>) -> Result<
    (AtomView, int),
    GrammarError,
> {
    match read {
        Ok((atom, next)) => Ok((atom@, next as int)),
        Err(fault) => Err(fault),
    }
}

/// What was read, as the notation speaks of it.
pub open spec fn expr_read(read: Result<(Expr, usize), GrammarError>) -> Result<
    (ExprView, int),
    GrammarError,
> {
    match read {
        Ok((e, next)) => Ok((e@, next as int)),
        Err(fault) => Err(fault),
    }
}

/// What was read, as the notation speaks of it.
pub open spec fn type_read(read: Result<(Type, usize), GrammarError>) -> Result<
    (TypeView, int),
    GrammarError,
> {
    match read {
        Ok((t, next)) => Ok((t@, next as int)),
        Err(fault) => Err(fault),
    }
}

/// What was read, as the notation speaks of it.
pub open spec fn action_read(read: Result<(Action, usize), GrammarError>) -> Result<
    (ActionView, int),
    GrammarError,
> {
    match read {
        Ok((a, next)) => Ok((a@, next as int)),
        Err(fault) => Err(fault),
    }
}

/// What was read, as the notation speaks of it.
pub open spec fn rule_read(read: Result<(Rule, usize), GrammarError>) -> Result<
    (RuleView, int),
    GrammarError,
> {
    match read {
        Ok((rule, next)) => Ok((rule@, next as int)),
        Err(fault) => Err(fault),
    }
}

/// The name that a binder is known by, as the notation speaks of it.
pub open spec fn binder_model(binder: Option<String>) -> Option<Seq<char>> {
    match binder {
        Some(name) => Some(name@),
        None => None,
    }
}

/// The fault of a token that has no place at `at`, or of the tokens ending
/// there.
pub fn fault_at(tokens: &Vec<Token>, at: usize, end: Location) -> (fault: GrammarError)
    ensures
        fault == unexpected(tokens@, at as int, end),
{
    if at < tokens.len() {
        GrammarError { fault: Fault::UnexpectedToken, at: tokens[at].at }
    } else {
        GrammarError { fault: Fault::UnexpectedEnd, at: end }
    }
}

/// The fault of a token that has no place `ahead` tokens after `at`.
fn fault_ahead(tokens: &Vec<Token>, at: usize, ahead: usize, end: Location) -> (fault: GrammarError)
    ensures
        fault == unexpected(tokens@, at + ahead, end),
{
    if at < tokens.len() && ahead < tokens.len() - at {
        GrammarError { fault: Fault::UnexpectedToken, at: tokens[at + ahead].at }
    } else {
        GrammarError { fault: Fault::UnexpectedEnd, at: end }
    }
}

/// Whether the punctuation character `c` stands `ahead` tokens after `at`.
fn is_punct(tokens: &Vec<Token>, at: usize, ahead: usize, c: char) -> (found: bool)
    ensures
        found == punct_at(tokens@, at + ahead, c),
{
    if at < tokens.len() && ahead < tokens.len() - at {
        match &tokens[at + ahead].kind {
            TokenKind::Punct(p, _) => *p == c,
            _ => false,
        }
    } else {
        false
    }
}

/// Whether the punctuation character `c` stands `ahead` tokens after `at`
/// with the next token directly behind it.
fn is_joint(tokens: &Vec<Token>, at: usize, ahead: usize, c: char) -> (found: bool)
    ensures
        found == joint_at(tokens@, at + ahead, c),
{
    if at < tokens.len() && ahead < tokens.len() - at {
        match &tokens[at + ahead].kind {
            TokenKind::Punct(p, joint) => *p == c && *joint,
            _ => false,
        }
    } else {
        false
    }
}

/// Whether a name stands `ahead` tokens after `at`.
fn is_ident(tokens: &Vec<Token>, at: usize, ahead: usize) -> (found: bool)
    ensures
        found == (ident_at(tokens@, at + ahead) is Some),
{
    if at < tokens.len() && ahead < tokens.len() - at {
        match &tokens[at + ahead].kind {
            TokenKind::Ident(_) => true,
            _ => false,
        }
    } else {
        false
    }
}

/// Whether `->` stands `ahead` tokens after `at`.
fn is_arrow(tokens: &Vec<Token>, at: usize, ahead: usize) -> (found: bool)
    requires
        ahead < usize::MAX,
    ensures
        found == arrow_at(tokens@, at + ahead),
{
    is_joint(tokens, at, ahead, '-') && is_punct(tokens, at, ahead + 1, '>')
}

/// Whether a part of a sequence begins at `at`.
fn is_term(tokens: &Vec<Token>, at: usize) -> (found: bool)
    ensures
        found == starts_term(tokens@, at as int),
{
    if at >= tokens.len() {
        return false;
    }
    let rule = is_ident(tokens, at, 0) && (is_punct(tokens, at, 1, '=') || is_arrow(tokens, at, 1));
    if rule {
        return false;
    }
    match &tokens[at].kind {
        TokenKind::Ident(_) => true,
        TokenKind::Text(_) => true,
        TokenKind::Letter(_) => true,
        TokenKind::Group(bracket, _) => match bracket {
            Bracket::Round => true,
            _ => false,
        },
        TokenKind::Punct(c, _) => *c == '!' || *c == '&' || *c == '@' || *c == '$',
        _ => false,
    }
}

impl Atom {
    /// Reads the leaf at `at`.
    pub fn parse(tokens: &Vec<Token>, at: usize, end: Location) -> (read: Result<
        (Atom, usize),
        GrammarError,
    >)
        ensures
            atom_read(read) == atom_of(tokens@, at as int, end),
            match read {
                Ok((_, next)) => at < next <= tokens.len(),
                Err(_) => true,
            },
    {
        if at >= tokens.len() {
            return Err(fault_at(tokens, at, end));
        }
        match &tokens[at].kind {
            TokenKind::Ident(name) => Ok((Atom::Ident(name.clone(), tokens[at].at), at + 1)),
            TokenKind::Text(text) => Ok((Atom::Str(text.clone()), at + 1)),
            TokenKind::Letter(low) => {
                if is_joint(tokens, at, 1, '.') && is_punct(tokens, at, 2, '.') {
                    if !is_punct(tokens, at, 3, '=') {
                        return Err(fault_ahead(tokens, at, 3, end));
                    }
                    if 4 < tokens.len() - at {
                        match &tokens[at + 4].kind {
                            TokenKind::Letter(high) => {
                                if *low as u32 <= *high as u32 {
                                    Ok((Atom::Range(*low, *high), at + 5))
                                } else {
                                    Err(
                                        GrammarError {
                                            fault: Fault::InvertedRange,
                                            at: tokens[at].at,
                                        },
                                    )
                                }
                            },
                            _ => Err(fault_ahead(tokens, at, 4, end)),
                        }
                    } else {
                        Err(fault_ahead(tokens, at, 4, end))
                    }
                } else {
                    Ok((Atom::Char(*low), at + 1))
                }
            },
            _ => Err(fault_at(tokens, at, end)),
        }
    }
}

impl Expr {
    /// Reads what stands at `at` at the tightest level: a pattern in
    /// round brackets or a leaf.
    pub fn atom(tokens: &Vec<Token>, at: usize, end: Location) -> (read: Result<
        (Expr, usize),
        GrammarError,
    >)
        ensures
            expr_read(read) == primary_of(tokens@, at as int, end),
            match read {
                Ok((_, next)) => at < next <= tokens.len(),
                Err(_) => true,
            },
        decreases tokens@, tokens.len() - at, 0nat,
    {
        if at < tokens.len() {
            match &tokens[at].kind {
                TokenKind::Group(bracket, inner) => match bracket {
                    Bracket::Round => {
                        return match Expr::parse(inner, 0, tokens[at].at) {
                            Ok((e, next)) => if next == inner.len() {
                                Ok((e, at + 1))
                            } else {
                                Err(fault_at(inner, next, tokens[at].at))
                            },
                            Err(fault) => Err(fault),
                        };
                    },
                    _ => {},
                },
                _ => {},
            }
        }
        match Atom::parse(tokens, at, end) {
            Ok((atom, next)) => Ok((Expr::Atom(atom), next)),
            Err(fault) => Err(fault),
        }
    }

    /// Reads what stands at `at` with its prefix operators `!`, `&`, `@`
    /// and `$`.
    pub fn prefix(tokens: &Vec<Token>, at: usize, end: Location) -> (read: Result<
        (Expr, usize),
        GrammarError,
    >)
        ensures
            expr_read(read) == prefix_of(tokens@, at as int, end),
            match read {
                Ok((_, next)) => at < next <= tokens.len(),
                Err(_) => true,
            },
        decreases tokens@, tokens.len() - at, 1nat,
    {
        if is_punct(tokens, at, 0, '!') {
            match Expr::prefix(tokens, at + 1, end) {
                Ok((e, next)) => Ok((Expr::NegLookahead(Box::new(e)), next)),
                Err(fault) => Err(fault),
            }
        } else if is_punct(tokens, at, 0, '&') {
            match Expr::prefix(tokens, at + 1, end) {
                Ok((e, next)) => Ok((Expr::PosLookahead(Box::new(e)), next)),
                Err(fault) => Err(fault),
            }
        } else if is_punct(tokens, at, 0, '@') {
            match Expr::prefix(tokens, at + 1, end) {
                Ok((e, next)) => Ok((Expr::Atomic(Box::new(e)), next)),
                Err(fault) => Err(fault),
            }
        } else if is_punct(tokens, at, 0, '$') {
            match Expr::prefix(tokens, at + 1, end) {
                Ok((e, next)) => Ok((Expr::SpanCapture(Box::new(e)), next)),
                Err(fault) => Err(fault),
            }
        } else {
            Expr::atom(tokens, at, end)
        }
    }

    /// Reads what stands at `at` with its prefix operators and its
    /// postfix operators `*`, `+` and `?`.
    pub fn postfix(tokens: &Vec<Token>, at: usize, end: Location) -> (read: Result<
        (Expr, usize),
        GrammarError,
    >)
        ensures
            expr_read(read) == postfix_of(tokens@, at as int, end),
            match read {
                Ok((_, next)) => at < next <= tokens.len(),
                Err(_) => true,
            },
        decreases tokens@, tokens.len() - at, 2nat,
    {
        let (mut inner, mut next) = match Expr::prefix(tokens, at, end) {
            Ok(read) => read,
            Err(fault) => {
                return Err(fault);
            },
        };
        let ghost first = inner@;
        let ghost start = next;
        loop
            invariant
                at < next <= tokens.len(),
                postfix_tail(tokens@, start as int, first) == postfix_tail(
                    tokens@,
                    next as int,
                    inner@,
                ),
            ensures
                at < next <= tokens.len(),
                postfix_tail(tokens@, start as int, first) == (inner@, next as int),
            decreases tokens.len() - next,
        {
            if is_punct(tokens, next, 0, '*') {
                inner = Expr::Repeat0(Box::new(inner));
            } else if is_punct(tokens, next, 0, '?') {
                inner = Expr::Optional(Box::new(inner));
            } else if is_punct(tokens, next, 0, '+') {
                inner = Expr::Repeat1(Box::new(inner));
            } else {
                break ;
            }
            next = next + 1;
        }
        Ok((inner, next))
    }

    /// Reads the sequence that stands at `at`: one part or more, side by
    /// side.
    pub fn cat(tokens: &Vec<Token>, at: usize, end: Location) -> (read: Result<
        (Expr, usize),
        GrammarError,
    >)
        ensures
            expr_read(read) == cat_of(tokens@, at as int, end),
            match read {
                Ok((_, next)) => at < next <= tokens.len(),
                Err(_) => true,
            },
        decreases tokens@, tokens.len() - at, 4nat,
    {
        let (first, mut next) = match Expr::postfix(tokens, at, end) {
            Ok(read) => read,
            Err(fault) => {
                return Err(fault);
            },
        };
        let ghost start = next;
        let ghost head = first@;
        let mut items: Vec<Expr> = Vec::new();
        items.push(first);
        assert(expr_models(items@) =~= seq![head]);
        while is_term(tokens, next)
            invariant
                at < next <= tokens.len(),
                at < start,
                cat_of(tokens@, at as int, end) == cat_tail(tokens@, start as int, seq![head], end),
                cat_tail(tokens@, start as int, seq![head], end) == cat_tail(
                    tokens@,
                    next as int,
                    expr_models(items@),
                    end,
                ),
            decreases tokens.len() - next,
        {
            match Expr::postfix(tokens, next, end) {
                Ok((e, after)) => {
                    let ghost before = expr_models(items@);
                    let ghost one = e@;
                    items.push(e);
                    assert(expr_models(items@) =~= before.push(one));
                    next = after;
                },
                Err(fault) => {
                    return Err(fault);
                },
            }
        }
        proof {
            lemma_sequence_model(items);
        }
        Ok((Expr::Sequence(items), next))
    }

    /// Reads the sequence that stands at `at`, or the delimited list of
    /// two sequences with `^` between them.
    pub fn list(tokens: &Vec<Token>, at: usize, end: Location) -> (read: Result<
        (Expr, usize),
        GrammarError,
    >)
        ensures
            expr_read(read) == list_of(tokens@, at as int, end),
            match read {
                Ok((_, next)) => at < next <= tokens.len(),
                Err(_) => true,
            },
        decreases tokens@, tokens.len() - at, 5nat,
    {
        let (item, next) = match Expr::cat(tokens, at, end) {
            Ok(read) => read,
            Err(fault) => {
                return Err(fault);
            },
        };
        if is_punct(tokens, next, 0, '^') {
            match Expr::cat(tokens, next + 1, end) {
                Ok((separator, after)) => Ok(
                    (Expr::DelimitedList(Box::new(item), Box::new(separator)), after),
                ),
                Err(fault) => Err(fault),
            }
        } else {
            Ok((item, next))
        }
    }

    /// Reads the pattern that stands at `at`: one alternative or more,
    /// with `|` between them, grouped from the left.
    pub fn parse(tokens: &Vec<Token>, at: usize, end: Location) -> (read: Result<
        (Expr, usize),
        GrammarError,
    >)
        ensures
            expr_read(read) == alt_of(tokens@, at as int, end),
            match read {
                Ok((_, next)) => at < next <= tokens.len(),
                Err(_) => true,
            },
        decreases tokens@, tokens.len() - at, 7nat,
    {
        let (mut left, mut next) = match Expr::list(tokens, at, end) {
            Ok(read) => read,
            Err(fault) => {
                return Err(fault);
            },
        };
        let ghost start = next;
        let ghost head = left@;
        while is_punct(tokens, next, 0, '|')
            invariant
                at < next <= tokens.len(),
                at < start,
                alt_of(tokens@, at as int, end) == alt_tail(tokens@, start as int, head, end),
                alt_tail(tokens@, start as int, head, end) == alt_tail(
                    tokens@,
                    next as int,
                    left@,
                    end,
                ),
            decreases tokens.len() - next,
        {
            match Expr::list(tokens, next + 1, end) {
                Ok((right, after)) => {
                    left = Expr::Alt(Box::new(left), Box::new(right));
                    next = after;
                },
                Err(fault) => {
                    return Err(fault);
                },
            }
        }
        Ok((left, next))
    }
}

impl Type {
    /// Reads the result type that stands at `at`.
    pub fn parse(tokens: &Vec<Token>, at: usize, end: Location) -> (read: Result<
        (Type, usize),
        GrammarError,
    >)
        ensures
            type_read(read) == type_of(tokens@, at as int, end),
            match read {
                Ok((_, next)) => at < next <= tokens.len(),
                Err(_) => true,
            },
        decreases tokens@, tokens.len() - at, 0nat,
    {
        if at >= tokens.len() {
            return Err(fault_at(tokens, at, end));
        }
        match &tokens[at].kind {
            TokenKind::Group(bracket, inner) => match bracket {
                Bracket::Round => {
                    if inner.len() == 0 {
                        Ok((Type::Unit, at + 1))
                    } else {
                        match Type::parse_all(inner, tokens[at].at) {
                            Ok((parts, trailing)) => {
                                let mut parts = parts;
                                if parts.len() == 1 && !trailing {
                                    match parts.pop() {
                                        Some(only) => Ok((only, at + 1)),
                                        None => Ok((Type::Unit, at + 1)),
                                    }
                                } else {
                                    proof {
                                        lemma_tuple_type_model(parts);
                                    }
                                    Ok((Type::Tuple(parts), at + 1))
                                }
                            },
                            Err(fault) => Err(fault),
                        }
                    }
                },
                _ => Err(fault_at(tokens, at, end)),
            },
            TokenKind::Ident(name) => {
                let list = *name == "Vec".to_owned();
                let option = *name == "Option".to_owned();
                if *name == "Span".to_owned() {
                    if !is_punct(tokens, at, 1, '<') {
                        Ok((Type::Span, at + 1))
                    } else if !is_joint(tokens, at, 2, '\'') {
                        Err(fault_ahead(tokens, at, 2, end))
                    } else if !is_ident(tokens, at, 3) {
                        Err(fault_ahead(tokens, at, 3, end))
                    } else if !is_punct(tokens, at, 4, '>') {
                        Err(fault_ahead(tokens, at, 4, end))
                    } else {
                        Ok((Type::Span, at + 5))
                    }
                } else if list || option {
                    if !is_punct(tokens, at, 1, '<') {
                        Err(fault_ahead(tokens, at, 1, end))
                    } else {
                        match Type::parse(tokens, at + 2, end) {
                            Ok((inner, next)) => if !is_punct(tokens, next, 0, '>') {
                                Err(fault_at(tokens, next, end))
                            } else if list {
                                Ok((Type::List(Box::new(inner)), next + 1))
                            } else {
                                Ok((Type::Opt(Box::new(inner)), next + 1))
                            },
                            Err(fault) => Err(fault),
                        }
                    }
                } else {
                    Err(GrammarError { fault: Fault::UnknownType, at: tokens[at].at })
                }
            },
            _ => Err(fault_at(tokens, at, end)),
        }
    }

    /// Reads all of `tokens` as types with commas between them, and says
    /// whether a comma stands behind the last.
    pub fn parse_all(tokens: &Vec<Token>, end: Location) -> (read: Result<
        (Vec<Type>, bool),
        GrammarError,
    >)
        ensures
            match read {
                Ok((parts, trailing)) => types_of(tokens@, 0, Seq::empty(), end) == Ok::<
                    (Seq<TypeView>, bool),
                    GrammarError,
                >((type_models(parts@), trailing)),
                Err(fault) => types_of(tokens@, 0, Seq::empty(), end) == Err::<
                    (Seq<TypeView>, bool),
                    GrammarError,
                >(fault),
            },
        decreases tokens@, tokens.len(), 1nat,
    {
        let mut parts: Vec<Type> = Vec::new();
        let mut at: usize = 0;
        assert(type_models(parts@) =~= Seq::<TypeView>::empty());
        loop
            invariant
                at <= tokens.len(),
                types_of(tokens@, 0, Seq::empty(), end) == types_of(
                    tokens@,
                    at as int,
                    type_models(parts@),
                    end,
                ),
            decreases tokens.len() - at,
        {
            match Type::parse(tokens, at, end) {
                Ok((part, next)) => {
                    let ghost before = type_models(parts@);
                    let ghost one = part@;
                    parts.push(part);
                    assert(type_models(parts@) =~= before.push(one));
                    if next == tokens.len() {
                        return Ok((parts, false));
                    }
                    if !is_punct(tokens, next, 0, ',') {
                        return Err(fault_at(tokens, next, end));
                    }
                    if next + 1 == tokens.len() {
                        return Ok((parts, true));
                    }
                    at = next + 1;
                },
                Err(fault) => {
                    return Err(fault);
                },
            }
        }
    }
}

impl Action {
    /// Reads the action that stands at `at`, in a rule whose binder is
    /// `binder`.
    pub fn parse(tokens: &Vec<Token>, at: usize, binder: &Option<String>, end: Location) -> (read:
        Result<(Action, usize), GrammarError>)
        ensures
            action_read(read) == action_of(tokens@, at as int, binder_model(*binder), end),
            match read {
                Ok((_, next)) => at < next <= tokens.len(),
                Err(_) => true,
            },
        decreases tokens@, tokens.len() - at, 0nat,
    {
        if at >= tokens.len() {
            return Err(fault_at(tokens, at, end));
        }
        let first = match &tokens[at].kind {
            TokenKind::Ident(name) => {
                let bound = match binder {
                    Some(known) => *known == *name,
                    None => false,
                };
                if bound {
                    Action::Bound
                } else {
                    return Err(GrammarError { fault: Fault::UnknownBinder, at: tokens[at].at });
                }
            },
            TokenKind::Group(bracket, inner) => match bracket {
                Bracket::Round => {
                    if inner.len() == 0 {
                        Action::Unit
                    } else {
                        match Action::parse_all(inner, binder, tokens[at].at) {
                            Ok((parts, trailing)) => {
                                let mut parts = parts;
                                if parts.len() == 1 && !trailing {
                                    match parts.pop() {
                                        Some(only) => only,
                                        None => Action::Unit,
                                    }
                                } else {
                                    proof {
                                        lemma_tuple_action_model(parts);
                                    }
                                    Action::Tuple(parts)
                                }
                            },
                            Err(fault) => {
                                return Err(fault);
                            },
                        }
                    }
                },
                _ => {
                    return Err(fault_at(tokens, at, end));
                },
            },
            _ => {
                return Err(fault_at(tokens, at, end));
            },
        };
        let ghost head = first@;
        let mut action = first;
        let mut next = at + 1;
        loop
            invariant
                at < next <= tokens.len(),
                action_of(tokens@, at as int, binder_model(*binder), end) == action_tail(
                    tokens@,
                    at + 1,
                    head,
                    end,
                ),
                action_tail(tokens@, at + 1, head, end) == action_tail(
                    tokens@,
                    next as int,
                    action@,
                    end,
                ),
            decreases tokens.len() - next,
        {
            if !is_punct(tokens, next, 0, '.') {
                return Ok((action, next));
            }
            if 1 < tokens.len() - next {
                match &tokens[next + 1].kind {
                    TokenKind::Index(index) => {
                        action = Action::Field(Box::new(action), *index);
                        next = next + 2;
                    },
                    _ => {
                        return Err(fault_ahead(tokens, next, 1, end));
                    },
                }
            } else {
                return Err(fault_ahead(tokens, next, 1, end));
            }
        }
    }

    /// Reads all of `tokens` as actions with commas between them, and says
    /// whether a comma stands behind the last.
    pub fn parse_all(tokens: &Vec<Token>, binder: &Option<String>, end: Location) -> (read: Result<
        (Vec<Action>, bool),
        GrammarError,
    >)
        ensures
            match read {
                Ok((parts, trailing)) => actions_of(
                    tokens@,
                    0,
                    binder_model(*binder),
                    Seq::empty(),
                    end,
                ) == Ok::<(Seq<ActionView>, bool), GrammarError>((action_models(parts@), trailing)),
                Err(fault) => actions_of(tokens@, 0, binder_model(*binder), Seq::empty(), end)
                    == Err::<(Seq<ActionView>, bool), GrammarError>(fault),
            },
        decreases tokens@, tokens.len(), 1nat,
    {
        let mut parts: Vec<Action> = Vec::new();
        let mut at: usize = 0;
        assert(action_models(parts@) =~= Seq::<ActionView>::empty());
        loop
            invariant
                at <= tokens.len(),
                actions_of(tokens@, 0, binder_model(*binder), Seq::empty(), end) == actions_of(
                    tokens@,
                    at as int,
                    binder_model(*binder),
                    action_models(parts@),
                    end,
                ),
            decreases tokens.len() - at,
        {
            match Action::parse(tokens, at, binder, end) {
                Ok((part, next)) => {
                    let ghost before = action_models(parts@);
                    let ghost one = part@;
                    parts.push(part);
                    assert(action_models(parts@) =~= before.push(one));
                    if next == tokens.len() {
                        return Ok((parts, false));
                    }
                    if !is_punct(tokens, next, 0, ',') {
                        return Err(fault_at(tokens, next, end));
                    }
                    if next + 1 == tokens.len() {
                        return Ok((parts, true));
                    }
                    at = next + 1;
                },
                Err(fault) => {
                    return Err(fault);
                },
            }
        }
    }
}

impl Rule {
    /// Reads the declared type at `at`, if `->` stands there.
    pub fn declared(tokens: &Vec<Token>, at: usize, end: Location) -> (read: Result<
        (Option<Type>, usize),
        GrammarError,
    >)
        ensures
            match read {
                Ok((Some(declared), next)) => declared_type(tokens@, at as int, end) == Ok::<
                    (Option<TypeView>, int),
                    GrammarError,
                >((Some(declared@), next as int)) && at < next <= tokens.len(),
                Ok((None, next)) => declared_type(tokens@, at as int, end) == Ok::<
                    (Option<TypeView>, int),
                    GrammarError,
                >((None, next as int)) && next == at,
                Err(fault) => declared_type(tokens@, at as int, end) == Err::<
                    (Option<TypeView>, int),
                    GrammarError,
                >(fault),
            },
    {
        if is_arrow(tokens, at, 0) {
            assert(punct_at(tokens@, at + 1, '>'));
            assert(at + 2 <= tokens.len());
            match Type::parse(tokens, at + 2, end) {
                Ok((declared, next)) => Ok((Some(declared), next)),
                Err(fault) => Err(fault),
            }
        } else {
            Ok((None, at))
        }
    }

    /// Reads the binder at `at`, if a name and `:` stand there.
    pub fn binder(tokens: &Vec<Token>, at: usize) -> (read: (Option<String>, usize))
        ensures
            binder_of(tokens@, at as int) == (binder_model(read.0), read.1 as int),
            at <= read.1,
            at <= tokens.len() ==> read.1 <= tokens.len(),
    {
        if at < tokens.len() && is_punct(tokens, at, 1, ':') {
            match &tokens[at].kind {
                TokenKind::Ident(known) => (Some(known.clone()), at + 2),
                _ => (None, at),
            }
        } else {
            (None, at)
        }
    }

    /// Reads the action in the curly brackets at `at`, if curly brackets
    /// stand there.
    pub fn action(tokens: &Vec<Token>, at: usize, binder: &Option<String>) -> (read: Result<
        (Option<Action>, usize),
        GrammarError,
    >)
        ensures
            match read {
                Ok((Some(action), next)) => braced_action(
                    tokens@,
                    at as int,
                    binder_model(*binder),
                ) == Ok::<(Option<ActionView>, int), GrammarError>((Some(action@), next as int))
                    && next == at + 1 && at < tokens.len(),
                Ok((None, next)) => braced_action(tokens@, at as int, binder_model(*binder))
                    == Ok::<(Option<ActionView>, int), GrammarError>((None, next as int)) && next
                    == at,
                Err(fault) => braced_action(tokens@, at as int, binder_model(*binder)) == Err::<
                    (Option<ActionView>, int),
                    GrammarError,
                >(fault),
            },
    {
        if at < tokens.len() {
            match &tokens[at].kind {
                TokenKind::Group(bracket, inner) => match bracket {
                    Bracket::Curly => {
                        return match Action::parse(inner, 0, binder, tokens[at].at) {
                            Ok((made, used)) => if used == inner.len() {
                                Ok((Some(made), at + 1))
                            } else {
                                Err(fault_at(inner, used, tokens[at].at))
                            },
                            Err(fault) => Err(fault),
                        };
                    },
                    _ => {},
                },
                _ => {},
            }
        }
        Ok((None, at))
    }

    /// Reads the rule that stands at `at`.
    pub fn parse(tokens: &Vec<Token>, at: usize, end: Location) -> (read: Result<
        (Rule, usize),
        GrammarError,
    >)
        ensures
            rule_read(read) == rule_of(tokens@, at as int, end),
            match read {
                Ok((_, next)) => at < next <= tokens.len(),
                Err(_) => true,
            },
    {
        if at >= tokens.len() {
            return Err(fault_at(tokens, at, end));
        }
        let name = match &tokens[at].kind {
            TokenKind::Ident(name) => name.clone(),
            _ => {
                return Err(fault_at(tokens, at, end));
            },
        };
        let (result, after_type) = match Rule::declared(tokens, at + 1, end) {
            Ok(read) => read,
            Err(fault) => {
                return Err(fault);
            },
        };
        if !is_punct(tokens, after_type, 0, '=') {
            return Err(fault_at(tokens, after_type, end));
        }
        let (binder, after_binder) = Rule::binder(tokens, after_type + 1);
        let (body, after_body) = match Expr::parse(tokens, after_binder, end) {
            Ok(read) => read,
            Err(fault) => {
                return Err(fault);
            },
        };
        let (action, next) = match Rule::action(tokens, after_body, &binder) {
            Ok(read) => read,
            Err(fault) => {
                return Err(fault);
            },
        };
        Ok((Rule { name, at: tokens[at].at, result, binder, body, action }, next))
    }
}

/// The grammar that `tokens` denote, with the default whitespace: the
/// first fault of the notation, or else of the rules, or else the grammar.
pub open spec fn grammar_of(tokens: Seq<Token>) -> Result<GrammarView, GrammarError> {
    match rules_of(tokens, 0, Seq::empty(), end_of(tokens)) {
        Ok(rules) => match fault_of(rules) {
            Some(fault) => Err(fault),
            None => Ok(GrammarView { rules, blanks: default_blanks() }),
        },
        Err(fault) => Err(fault),
    }
}

/// What becomes of an outcome of the lexer: of tokens the grammar that
/// they denote, and of a refusal the fault that the text is no sequence of
/// tokens, at the place of the refusal.
pub open spec fn lexed_grammar(lexed: Result<Seq<Token>, Location>) -> Result<
    GrammarView,
    GrammarError,
> {
    match lexed {
        Ok(tokens) => grammar_of(tokens),
        Err(at) => Err(GrammarError { fault: Fault::NotTokens, at }),
    }
}

/// An outcome of the lexer, as the notation speaks of it.
pub open spec fn lexed_model(lexed: Result<Vec<Token>, Location>) -> Result<
    Seq<Token>,
    Location,
> {
    match lexed {
        Ok(tokens) => Ok(tokens@),
        Err(at) => Err(at),
    }
}

/// What reading made, as plain values.
pub open spec fn made_model(made: Result<Grammar, GrammarError>) -> Result<
    GrammarView,
    GrammarError,
> {
    match made {
        Ok(grammar) => Ok(grammar@),
        Err(fault) => Err(fault),
    }
}

/// The place given for a fault at the end of `tokens`.
pub fn end_place(tokens: &Vec<Token>) -> (end: Location)
    ensures
        end == end_of(tokens@),
{
    if tokens.len() > 0 {
        tokens[tokens.len() - 1].at
    } else {
        Location { line: 1, column: 0 }
    }
}

impl Grammar {
    /// Reads `tokens` as rules and makes a grammar of them: the first
    /// fault of the notation, or else of the rules, or else the grammar.
    pub fn parse(tokens: &Vec<Token>) -> (made: Result<Grammar, GrammarError>)
        ensures
            match rules_of(tokens@, 0, Seq::empty(), end_of(tokens@)) {
                Ok(rules) => match fault_of(rules) {
                    Some(fault) => made == Err::<Grammar, GrammarError>(fault),
                    None => match made {
                        Ok(grammar) => grammar@.rules == rules && grammar@.blanks
                            == default_blanks() && faultless(rules),
                        Err(_) => false,
                    },
                },
                Err(fault) => made == Err::<Grammar, GrammarError>(fault),
            },
            made_model(made) == grammar_of(tokens@),
    {
        let end = end_place(tokens);
        let mut rules: Vec<Rule> = Vec::new();
        let mut at: usize = 0;
        assert(rule_models(rules@) =~= Seq::<RuleView>::empty());
        while at < tokens.len()
            invariant
                at <= tokens.len(),
                end == end_of(tokens@),
                rules_of(tokens@, 0, Seq::empty(), end) == rules_of(
                    tokens@,
                    at as int,
                    rule_models(rules@),
                    end,
                ),
            decreases tokens.len() - at,
        {
            match Rule::parse(tokens, at, end) {
                Ok((rule, next)) => {
                    let ghost before = rule_models(rules@);
                    let ghost one = rule@;
                    rules.push(rule);
                    assert(rule_models(rules@) =~= before.push(one));
                    at = next;
                },
                Err(fault) => {
                    return Err(fault);
                },
            }
        }
        Grammar::new(rules)
    }

    /// Makes a grammar of an outcome of the lexer: of tokens what
    /// [`Grammar::parse`] reads, and of a refusal the fault that the text
    /// is no sequence of tokens, at the place of the refusal.
    pub fn from_lexed(lexed: Result<Vec<Token>, Location>) -> (made: Result<Grammar, GrammarError>)
        ensures
            made_model(made) == lexed_grammar(lexed_model(lexed)),
            match made {
                Ok(grammar) => faultless(grammar@.rules) && grammar@.blanks == default_blanks(),
                Err(_) => true,
            },
    {
        match lexed {
            Ok(tokens) => Grammar::parse(&tokens),
            Err(at) => Err(GrammarError { fault: Fault::NotTokens, at }),
        }
    }

    /// Reads `text` as the notation of a grammar. The text is cut into
    /// tokens by the Rust lexer, and what the lexer gives is read by
    /// [`Grammar::from_lexed`]. Whether the lexer takes a text, and which
    /// tokens it cuts it into, is the lexer's to say; whatever it gives,
    /// the result is what the notation makes of it, and a grammar that
    /// comes out has no faults.
    pub fn from_text(text: &str) -> (made: Result<Grammar, GrammarError>)
        ensures
            match made {
                Ok(grammar) => faultless(grammar@.rules) && grammar@.blanks == default_blanks(),
                Err(_) => true,
            },
            exists|lexed: Result<Seq<Token>, Location>|
                made_model(made) == #[trigger] lexed_grammar(lexed),
    {
        let lexed = tokenize(text);
        let ghost outcome = lexed_model(lexed);
        let made = Grammar::from_lexed(lexed);
        assert(made_model(made) == lexed_grammar(outcome));
        made
    }
}

} // verus!
