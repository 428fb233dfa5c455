//! Parsing expression grammars as values.
//!
//! A [`grammar::Grammar`] is a set of named rules. It is written in a
//! notation of its own and read by [`grammar::Grammar::from_text`], or built
//! from [`grammar::Rule`]s by [`grammar::Grammar::new`]; either way it is
//! checked, so that a grammar names only rules it has and every rule keeps
//! to the type it declares. [`grammar::Grammar::match_rule`] matches one of
//! its rules against a prefix of a text and gives back the rest of the text
//! and the value of the rule.
//!
//! ```text
//! digit = '0'..='9'
//! number -> Span<'a> = r: $@(digit+) { r.0 }
//! sum = sum '+' number | number
//! ```
//!
//! Choice is ordered, whitespace between the parts of a sequence, a
//! repetition or a delimited list is skipped unless the parts stand in an
//! atomic expression, and a rule may call itself before anything is
//! consumed: its result is then grown from a failing seed, one round after
//! the other, for as long as a round consumes more than the one before.
//!
//! What matching means is defined in [`semantics`], over plain values, and
//! the matcher is proved to compute exactly that. [`laws`] holds what
//! follows for every grammar and text, [`progress`] why matching ends,
//! [`preservation`] why values have the types that the grammar gives them.
//! [`descent`] defines plain recursive descent, without a memo, and
//! [`agreement`] shows that the matcher yields the same wherever plain
//! descent ends. Which rule sets are grammars is defined in [`wellformed`]
//! and [`typing`]. The notation is defined in [`syntax`] and read by the
//! functions of [`parser`], which are proved to read exactly that; the
//! text is cut into [`token`]s by the Rust lexer.

pub mod agreement;
pub mod descent;
pub mod error;
pub mod grammar;
pub mod input;
pub mod laws;
mod matcher;
pub mod parser;
pub mod preservation;
mod memo;
pub mod progress;
pub mod semantics;
pub mod syntax;
mod text;
pub mod token;
pub mod typing;
pub mod value;
pub mod wellformed;
