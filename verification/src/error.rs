//! What can be wrong with the definition of a grammar.

use vstd::prelude::*;
use crate::token::Location;

verus! {

/// The ways in which a grammar definition can be wrong.
#[derive(Clone, Copy, Debug, PartialEq, Eq)]
pub enum Fault {
    /// The text is no sequence of tokens.
    NotTokens,
    /// A token stands where the notation has no place for it.
    UnexpectedToken,
    /// The tokens end where the notation asks for more.
    UnexpectedEnd,
    /// A result type that the library does not know.
    UnknownType,
    /// An action names something other than the binder of its rule.
    UnknownBinder,
    /// A rule has the name of an earlier rule.
    DuplicateRule,
    /// An expression names a rule that the grammar does not have.
    UndefinedRule,
    /// A character range whose first character comes after its last.
    InvertedRange,
    /// A sequence of no expressions.
    EmptySequence,
    /// A rule whose value is not of the type it declares.
    TypeMismatch,
}

/// A fault and the place in the notation text it was found at. A fault
/// inside a rule that was built by hand is placed at the name of that rule,
/// but for an undefined rule, which is placed where it is named.
#[derive(Clone, Copy, Debug, PartialEq, Eq)]
pub struct GrammarError {
    pub fault: Fault,
    pub at: Location,
}

} // verus!
