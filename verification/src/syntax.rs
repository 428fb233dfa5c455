//! The grammar notation: which rules a sequence of tokens denotes, or the
//! first fault in it. A rule is written
//!
//! ```text
//! name [-> Type] = [binder :] pattern [{ action }]
//! ```
//!
//! and a pattern, from what binds loosest to what binds tightest, is an
//! alternation with `|`, a delimited list with `^`, a sequence written
//! side by side, postfix `*`, `+` and `?`, prefix `!`, `&`, `@` and `$`,
//! and a rule name, a string, a character, a range `'a'..='z'` or a
//! pattern in round brackets.

use vstd::prelude::*;
use crate::error::{Fault, GrammarError};
use crate::grammar::{ActionView, AtomView, ExprView, RuleView, TypeView};
use crate::token::{Bracket, Location, Token, TokenKind};

verus! {

/// The fault of a token that has no place at `at`, or of the tokens ending
/// there; `end` is the place given for the latter.
pub open spec fn unexpected(tokens: Seq<Token>, at: int, end: Location) -> GrammarError {
    if 0 <= at < tokens.len() {
        GrammarError { fault: Fault::UnexpectedToken, at: tokens[at].at }
    } else {
        GrammarError { fault: Fault::UnexpectedEnd, at: end }
    }
}

/// Whether the token at `at` is the punctuation character `c`.
pub open spec fn punct_at(tokens: Seq<Token>, at: int, c: char) -> bool {
    0 <= at < tokens.len() && match tokens[at].kind {
        TokenKind::Punct(p, _) => p == c,
        _ => false,
    }
}

/// Whether the token at `at` is the punctuation character `c` with the
/// next token directly behind it.
pub open spec fn joint_at(tokens: Seq<Token>, at: int, c: char) -> bool {
    0 <= at < tokens.len() && match tokens[at].kind {
        TokenKind::Punct(p, joint) => p == c && joint,
        _ => false,
    }
}

/// The name at `at`, if a name stands there.
pub open spec fn ident_at(tokens: Seq<Token>, at: int) -> Option<Seq<char>> {
    if 0 <= at < tokens.len() {
        match tokens[at].kind {
            TokenKind::Ident(name) => Some(name@),
            _ => None,
        }
    } else {
        None
    }
}

/// The character at `at`, if a character literal stands there.
pub open spec fn letter_at(tokens: Seq<Token>, at: int) -> Option<char> {
    if 0 <= at < tokens.len() {
        match tokens[at].kind {
            TokenKind::Letter(c) => Some(c),
            _ => None,
        }
    } else {
        None
    }
}

/// The tokens of the group at `at`, if a group in `bracket` stands there.
pub open spec fn group_at(tokens: Seq<Token>, at: int, bracket: Bracket) -> Option<Seq<Token>> {
    if 0 <= at < tokens.len() {
        match tokens[at].kind {
            TokenKind::Group(found, inner) => if found == bracket {
                Some(inner@)
            } else {
                None
            },
            _ => None,
        }
    } else {
        None
    }
}

/// Whether `->` stands at `at`.
pub open spec fn arrow_at(tokens: Seq<Token>, at: int) -> bool {
    joint_at(tokens, at, '-') && punct_at(tokens, at + 1, '>')
}

/// Whether a rule begins at `at`: a name followed by `=` or `->`.
pub open spec fn starts_rule(tokens: Seq<Token>, at: int) -> bool {
    ident_at(tokens, at) is Some && (punct_at(tokens, at + 1, '=') || arrow_at(tokens, at + 1))
}

/// Whether a part of a sequence begins at `at`.
pub open spec fn starts_term(tokens: Seq<Token>, at: int) -> bool {
    0 <= at < tokens.len() && !starts_rule(tokens, at) && match tokens[at].kind {
        TokenKind::Ident(_) => true,
        TokenKind::Text(_) => true,
        TokenKind::Letter(_) => true,
        TokenKind::Group(bracket, _) => bracket == Bracket::Round,
        TokenKind::Punct(c, _) => c == '!' || c == '&' || c == '@' || c == '$',
        _ => false,
    }
}

/// The leaf at `at`: a rule name, a string, a character, or a range.
pub open spec fn atom_of(tokens: Seq<Token>, at: int, end: Location) -> Result<
    (AtomView, int),
    GrammarError,
> {
    if 0 <= at < tokens.len() {
        match tokens[at].kind {
            TokenKind::Ident(name) => Ok((AtomView::Ident(name@, tokens[at].at), at + 1)),
            TokenKind::Text(text) => Ok((AtomView::Str(text@), at + 1)),
            TokenKind::Letter(low) => if joint_at(tokens, at + 1, '.') && punct_at(
                tokens,
                at + 2,
                '.',
            ) {
                if !punct_at(tokens, at + 3, '=') {
                    Err(unexpected(tokens, at + 3, end))
                } else {
                    match letter_at(tokens, at + 4) {
                        Some(high) => if low as u32 <= high as u32 {
                            Ok((AtomView::Range(low, high), at + 5))
                        } else {
                            Err(GrammarError { fault: Fault::InvertedRange, at: tokens[at].at })
                        },
                        None => Err(unexpected(tokens, at + 4, end)),
                    }
                }
            } else {
                Ok((AtomView::Char(low), at + 1))
            },
            _ => Err(unexpected(tokens, at, end)),
        }
    } else {
        Err(unexpected(tokens, at, end))
    }
}

/// What stands at `at` at the tightest level: a pattern in round brackets
/// or a leaf.
pub open spec fn primary_of(tokens: Seq<Token>, at: int, end: Location) -> Result<
    (ExprView, int),
    GrammarError,
>
    decreases tokens, tokens.len() - at, 0nat,
{
    match group_at(tokens, at, Bracket::Round) {
        Some(inner) => match alt_of(inner, 0, tokens[at].at) {
            Ok((e, next)) => if next == inner.len() {
                Ok((e, at + 1))
            } else {
                Err(unexpected(inner, next, tokens[at].at))
            },
            Err(fault) => Err(fault),
        },
        None => match atom_of(tokens, at, end) {
            Ok((atom, next)) => Ok((ExprView::Atom(atom), next)),
            Err(fault) => Err(fault),
        },
    }
}

/// What stands at `at` with its prefix operators.
pub open spec fn prefix_of(tokens: Seq<Token>, at: int, end: Location) -> Result<
    (ExprView, int),
    GrammarError,
>
    decreases tokens, tokens.len() - at, 1nat,
{
    if punct_at(tokens, at, '!') {
        match prefix_of(tokens, at + 1, end) {
            Ok((e, next)) => Ok((ExprView::NegLookahead(Box::new(e)), next)),
            Err(fault) => Err(fault),
        }
    } else if punct_at(tokens, at, '&') {
        match prefix_of(tokens, at + 1, end) {
            Ok((e, next)) => Ok((ExprView::PosLookahead(Box::new(e)), next)),
            Err(fault) => Err(fault),
        }
    } else if punct_at(tokens, at, '@') {
        match prefix_of(tokens, at + 1, end) {
            Ok((e, next)) => Ok((ExprView::Atomic(Box::new(e)), next)),
            Err(fault) => Err(fault),
        }
    } else if punct_at(tokens, at, '$') {
        match prefix_of(tokens, at + 1, end) {
            Ok((e, next)) => Ok((ExprView::SpanCapture(Box::new(e)), next)),
            Err(fault) => Err(fault),
        }
    } else {
        primary_of(tokens, at, end)
    }
}

/// `e` with the postfix operators that stand from `at` on.
pub open spec fn postfix_tail(tokens: Seq<Token>, at: int, e: ExprView) -> (ExprView, int)
    decreases tokens.len() - at,
{
    if punct_at(tokens, at, '*') {
        postfix_tail(tokens, at + 1, ExprView::Repeat0(Box::new(e)))
    } else if punct_at(tokens, at, '?') {
        postfix_tail(tokens, at + 1, ExprView::Optional(Box::new(e)))
    } else if punct_at(tokens, at, '+') {
        postfix_tail(tokens, at + 1, ExprView::Repeat1(Box::new(e)))
    } else {
        (e, at)
    }
}

/// What stands at `at` with its prefix and postfix operators.
pub open spec fn postfix_of(tokens: Seq<Token>, at: int, end: Location) -> Result<
    (ExprView, int),
    GrammarError,
>
    decreases tokens, tokens.len() - at, 2nat,
{
    match prefix_of(tokens, at, end) {
        Ok((e, next)) => Ok(postfix_tail(tokens, next, e)),
        Err(fault) => Err(fault),
    }
}

/// The sequence of which `items` have been read, with the parts that
/// stand from `at` on.
pub open spec fn cat_tail(tokens: Seq<Token>, at: int, items: Seq<ExprView>, end: Location) -> Result<
    (ExprView, int),
    GrammarError,
>
    decreases tokens, tokens.len() - at, 3nat,
{
    if starts_term(tokens, at) {
        match postfix_of(tokens, at, end) {
            Ok((e, next)) => if at < next <= tokens.len() {
                cat_tail(tokens, next, items.push(e), end)
            } else {
                Err(unexpected(tokens, at, end))
            },
            Err(fault) => Err(fault),
        }
    } else {
        Ok((ExprView::Sequence(items), at))
    }
}

/// The sequence that stands at `at`.
pub open spec fn cat_of(tokens: Seq<Token>, at: int, end: Location) -> Result<
    (ExprView, int),
    GrammarError,
>
    decreases tokens, tokens.len() - at, 4nat,
{
    match postfix_of(tokens, at, end) {
        Ok((e, next)) => if at <= next <= tokens.len() {
            cat_tail(tokens, next, seq![e], end)
        } else {
            Err(unexpected(tokens, at, end))
        },
        Err(fault) => Err(fault),
    }
}

/// The sequence or delimited list that stands at `at`.
pub open spec fn list_of(tokens: Seq<Token>, at: int, end: Location) -> Result<
    (ExprView, int),
    GrammarError,
>
    decreases tokens, tokens.len() - at, 5nat,
{
    match cat_of(tokens, at, end) {
        Ok((item, next)) => if punct_at(tokens, next, '^') && at <= next {
            match cat_of(tokens, next + 1, end) {
                Ok((separator, after)) => Ok(
                    (ExprView::DelimitedList(Box::new(item), Box::new(separator)), after),
                ),
                Err(fault) => Err(fault),
            }
        } else {
            Ok((item, next))
        },
        Err(fault) => Err(fault),
    }
}

/// The alternation whose left side `left` has been read, with the
/// alternatives that stand from `at` on.
pub open spec fn alt_tail(tokens: Seq<Token>, at: int, left: ExprView, end: Location) -> Result<
    (ExprView, int),
    GrammarError,
>
    decreases tokens, tokens.len() - at, 6nat,
{
    if punct_at(tokens, at, '|') {
        match list_of(tokens, at + 1, end) {
            Ok((right, next)) => if at < next <= tokens.len() {
                alt_tail(tokens, next, ExprView::Alt(Box::new(left), Box::new(right)), end)
            } else {
                Err(unexpected(tokens, at, end))
            },
            Err(fault) => Err(fault),
        }
    } else {
        Ok((left, at))
    }
}

/// The pattern that stands at `at`.
pub open spec fn alt_of(tokens: Seq<Token>, at: int, end: Location) -> Result<
    (ExprView, int),
    GrammarError,
>
    decreases tokens, tokens.len() - at, 7nat,
{
    match list_of(tokens, at, end) {
        Ok((left, next)) => if at <= next <= tokens.len() {
            alt_tail(tokens, next, left, end)
        } else {
            Err(unexpected(tokens, at, end))
        },
        Err(fault) => Err(fault),
    }
}

/// One type, or more than one, or one with a comma behind it, as the
/// round brackets round them mean it: a type in brackets is that type.
pub open spec fn tuple_type(parts: Seq<TypeView>, trailing: bool) -> TypeView {
    if parts.len() == 1 && !trailing {
        parts[0]
    } else {
        TypeView::Tuple(parts)
    }
}

/// The result type that stands at `at`: `()`, a tuple, `Span` with or
/// without a lifetime, `Vec<..>` or `Option<..>`.
pub open spec fn type_of(tokens: Seq<Token>, at: int, end: Location) -> Result<
    (TypeView, int),
    GrammarError,
>
    decreases tokens, tokens.len() - at, 0nat,
{
    if 0 <= at < tokens.len() {
        match tokens[at].kind {
            TokenKind::Group(bracket, inner) => if bracket != Bracket::Round {
                Err(unexpected(tokens, at, end))
            } else if inner.len() == 0 {
                Ok((TypeView::Unit, at + 1))
            } else {
                match types_of(inner@, 0, Seq::empty(), tokens[at].at) {
                    Ok((parts, trailing)) => Ok((tuple_type(parts, trailing), at + 1)),
                    Err(fault) => Err(fault),
                }
            },
            TokenKind::Ident(name) => if name@ == "Span"@ {
                if !punct_at(tokens, at + 1, '<') {
                    Ok((TypeView::Span, at + 1))
                } else if !joint_at(tokens, at + 2, '\'') {
                    Err(unexpected(tokens, at + 2, end))
                } else if ident_at(tokens, at + 3) is None {
                    Err(unexpected(tokens, at + 3, end))
                } else if !punct_at(tokens, at + 4, '>') {
                    Err(unexpected(tokens, at + 4, end))
                } else {
                    Ok((TypeView::Span, at + 5))
                }
            } else if name@ == "Vec"@ || name@ == "Option"@ {
                if !punct_at(tokens, at + 1, '<') {
                    Err(unexpected(tokens, at + 1, end))
                } else {
                    match type_of(tokens, at + 2, end) {
                        Ok((inner, next)) => if !punct_at(tokens, next, '>') {
                            Err(unexpected(tokens, next, end))
                        } else if name@ == "Vec"@ {
                            Ok((TypeView::List(Box::new(inner)), next + 1))
                        } else {
                            Ok((TypeView::Opt(Box::new(inner)), next + 1))
                        },
                        Err(fault) => Err(fault),
                    }
                }
            } else {
                Err(GrammarError { fault: Fault::UnknownType, at: tokens[at].at })
            },
            _ => Err(unexpected(tokens, at, end)),
        }
    } else {
        Err(unexpected(tokens, at, end))
    }
}

/// The types that stand from `at` to the end of `tokens` with commas
/// between them, behind those of `parts`, and whether a comma stands
/// behind the last.
pub open spec fn types_of(tokens: Seq<Token>, at: int, parts: Seq<TypeView>, end: Location) -> Result<
    (Seq<TypeView>, bool),
    GrammarError,
>
    decreases tokens, tokens.len() - at, 1nat,
{
    match type_of(tokens, at, end) {
        Ok((part, next)) => if next == tokens.len() {
            Ok((parts.push(part), false))
        } else if !punct_at(tokens, next, ',') || next < at {
            Err(unexpected(tokens, next, end))
        } else if next + 1 == tokens.len() {
            Ok((parts.push(part), true))
        } else {
            types_of(tokens, next + 1, parts.push(part), end)
        },
        Err(fault) => Err(fault),
    }
}

/// One action, or more than one, or one with a comma behind it, as the
/// round brackets round them mean it.
pub open spec fn tuple_action(parts: Seq<ActionView>, trailing: bool) -> ActionView {
    if parts.len() == 1 && !trailing {
        parts[0]
    } else {
        ActionView::Tuple(parts)
    }
}

/// `action` with the fields `.0`, `.1`, .. that stand from `at` on.
pub open spec fn action_tail(tokens: Seq<Token>, at: int, action: ActionView, end: Location) -> Result<
    (ActionView, int),
    GrammarError,
>
    decreases tokens.len() - at,
{
    if punct_at(tokens, at, '.') {
        if at + 1 < tokens.len() {
            match tokens[at + 1].kind {
                TokenKind::Index(index) => action_tail(
                    tokens,
                    at + 2,
                    ActionView::Field(Box::new(action), index as int),
                    end,
                ),
                _ => Err(unexpected(tokens, at + 1, end)),
            }
        } else {
            Err(unexpected(tokens, at + 1, end))
        }
    } else {
        Ok((action, at))
    }
}

/// The action that stands at `at`, in a rule whose binder is `binder`:
/// the binder, `()`, a tuple of actions or an action in round brackets,
/// and behind it fields.
pub open spec fn action_of(
    tokens: Seq<Token>,
    at: int,
    binder: Option<Seq<char>>,
    end: Location,
) -> Result<(ActionView, int), GrammarError>
    decreases tokens, tokens.len() - at, 0nat,
{
    if 0 <= at < tokens.len() {
        match tokens[at].kind {
            TokenKind::Ident(name) => if binder == Some(name@) {
                action_tail(tokens, at + 1, ActionView::Bound, end)
            } else {
                Err(GrammarError { fault: Fault::UnknownBinder, at: tokens[at].at })
            },
            TokenKind::Group(bracket, inner) => if bracket != Bracket::Round {
                Err(unexpected(tokens, at, end))
            } else if inner.len() == 0 {
                action_tail(tokens, at + 1, ActionView::Unit, end)
            } else {
                match actions_of(inner@, 0, binder, Seq::empty(), tokens[at].at) {
                    Ok((parts, trailing)) => action_tail(
                        tokens,
                        at + 1,
                        tuple_action(parts, trailing),
                        end,
                    ),
                    Err(fault) => Err(fault),
                }
            },
            _ => Err(unexpected(tokens, at, end)),
        }
    } else {
        Err(unexpected(tokens, at, end))
    }
}

/// The actions that stand from `at` to the end of `tokens` with commas
/// between them, behind those of `parts`, and whether a comma stands
/// behind the last.
pub open spec fn actions_of(
    tokens: Seq<Token>,
    at: int,
    binder: Option<Seq<char>>,
    parts: Seq<ActionView>,
    end: Location,
) -> Result<(Seq<ActionView>, bool), GrammarError>
    decreases tokens, tokens.len() - at, 1nat,
{
    match action_of(tokens, at, binder, end) {
        Ok((part, next)) => if next == tokens.len() {
            Ok((parts.push(part), false))
        } else if !punct_at(tokens, next, ',') || next < at {
            Err(unexpected(tokens, next, end))
        } else if next + 1 == tokens.len() {
            Ok((parts.push(part), true))
        } else {
            actions_of(tokens, next + 1, binder, parts.push(part), end)
        },
        Err(fault) => Err(fault),
    }
}

/// The action in the curly brackets at `at`, if curly brackets stand
/// there.
pub open spec fn braced_action(
    tokens: Seq<Token>,
    at: int,
    binder: Option<Seq<char>>,
) -> Result<(Option<ActionView>, int), GrammarError> {
    match group_at(tokens, at, Bracket::Curly) {
        Some(inner) => match action_of(inner, 0, binder, tokens[at].at) {
            Ok((action, next)) => if next == inner.len() {
                Ok((Some(action), at + 1))
            } else {
                Err(unexpected(inner, next, tokens[at].at))
            },
            Err(fault) => Err(fault),
        },
        None => Ok((None, at)),
    }
}

/// The declared type at `at`, if `->` stands there.
pub open spec fn declared_type(tokens: Seq<Token>, at: int, end: Location) -> Result<
    (Option<TypeView>, int),
    GrammarError,
> {
    if arrow_at(tokens, at) {
        match type_of(tokens, at + 2, end) {
            Ok((declared, next)) => Ok((Some(declared), next)),
            Err(fault) => Err(fault),
        }
    } else {
        Ok((None, at))
    }
}

/// The binder at `at`, if a name and `:` stand there.
pub open spec fn binder_of(tokens: Seq<Token>, at: int) -> (Option<Seq<char>>, int) {
    if ident_at(tokens, at) is Some && punct_at(tokens, at + 1, ':') {
        (ident_at(tokens, at), at + 2)
    } else {
        (None, at)
    }
}

/// The rule that stands at `at`.
pub open spec fn rule_of(tokens: Seq<Token>, at: int, end: Location) -> Result<
    (RuleView, int),
    GrammarError,
> {
    match ident_at(tokens, at) {
        Some(name) => match declared_type(tokens, at + 1, end) {
            Ok((result, after_type)) => if !punct_at(tokens, after_type, '=') {
                Err(unexpected(tokens, after_type, end))
            } else {
                let (binder, after_binder) = binder_of(tokens, after_type + 1);
                match alt_of(tokens, after_binder, end) {
                    Ok((body, after_body)) => match braced_action(tokens, after_body, binder) {
                        Ok((action, next)) => Ok(
                            (
                                RuleView { name, at: tokens[at].at, result, binder, body, action },
                                next,
                            ),
                        ),
                        Err(fault) => Err(fault),
                    },
                    Err(fault) => Err(fault),
                }
            },
            Err(fault) => Err(fault),
        },
        None => Err(unexpected(tokens, at, end)),
    }
}

/// The rules that stand from `at` to the end of `tokens`, behind those of
/// `rules`.
pub open spec fn rules_of(tokens: Seq<Token>, at: int, rules: Seq<RuleView>, end: Location) -> Result<
    Seq<RuleView>,
    GrammarError,
>
    decreases tokens.len() - at,
{
    if 0 <= at < tokens.len() {
        match rule_of(tokens, at, end) {
            Ok((rule, next)) => if at < next <= tokens.len() {
                rules_of(tokens, next, rules.push(rule), end)
            } else {
                Err(unexpected(tokens, at, end))
            },
            Err(fault) => Err(fault),
        }
    } else {
        Ok(rules)
    }
}

/// The place given for a fault at the end of `tokens`: that of the last
/// token, and line 1, column 0 where there is none.
pub open spec fn end_of(tokens: Seq<Token>) -> Location {
    if tokens.len() > 0 {
        tokens[tokens.len() - 1].at
    } else {
        Location { line: 1, column: 0 }
    }
}

} // verus!
