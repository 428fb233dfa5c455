//! Grammars as data: atoms, expressions, actions, result types and rules,
//! each with the plain-value model that contracts speak of.

use vstd::prelude::*;
use vstd::string::StringSliceAdditionalSpecFns;
use vstd::utf8::encode_utf8;
use crate::error::GrammarError;
use crate::input::Input;
use crate::matcher::Session;
use crate::memo::Memo;
use crate::semantics::{find, Hit, Key, Scene};
use crate::token::Location;
use crate::value::Value;
use crate::typing::{declared, fault_of, faultless, has_type, lemma_fault_of, rules_mistyped};
use crate::wellformed::{find_rule, rules_fault};

verus! {

/// A leaf of an expression, as plain values.
pub enum AtomView {
    Ident(Seq<char>, Location),
    Str(Seq<char>),
    Char(char),
    Range(char, char),
}

/// A leaf of an expression.
#[derive(Debug)]
pub enum Atom {
    /// The rule of that name; the place is where the name was written.
    Ident(String, Location),
    /// Exactly this text.
    Str(String),
    /// Exactly this character.
    Char(char),
    /// One character from the first to the second, both included.
    Range(char, char),
}

impl View for Atom {
    type V = AtomView;

    open spec fn view(&self) -> AtomView {
        match self {
            Atom::Ident(name, at) => AtomView::Ident(name@, *at),
            Atom::Str(text) => AtomView::Str(text@),
            Atom::Char(c) => AtomView::Char(*c),
            Atom::Range(low, high) => AtomView::Range(*low, *high),
        }
    }
}

/// An expression, as plain values.
pub enum ExprView {
    Alt(Box<ExprView>, Box<ExprView>),
    Sequence(Seq<ExprView>),
    Repeat0(Box<ExprView>),
    Repeat1(Box<ExprView>),
    Optional(Box<ExprView>),
    PosLookahead(Box<ExprView>),
    NegLookahead(Box<ExprView>),
    Atomic(Box<ExprView>),
    SpanCapture(Box<ExprView>),
    DelimitedList(Box<ExprView>, Box<ExprView>),
    Atom(AtomView),
}

/// A pattern over text.
#[derive(Debug)]
pub enum Expr {
    /// The left side, or where that fails the right side, tried at the
    /// same offset. The value is that of the side that matched.
    Alt(Box<Expr>, Box<Expr>),
    /// One expression after the other, with whitespace skipped between
    /// them. A sequence of one expression has the value of that
    /// expression; the value of any other sequence is unit.
    Sequence(Vec<Expr>),
    /// The inner expression any number of times, with whitespace skipped
    /// between the matches. The value is the list of their values. A
    /// match that consumes nothing and skips nothing is the last.
    Repeat0(Box<Expr>),
    /// The inner expression once or more.
    Repeat1(Box<Expr>),
    /// The inner expression or nothing. The value is the value of the
    /// inner expression where it matched, and absent where not.
    Optional(Box<Expr>),
    /// The inner expression must match here; nothing is consumed, and the
    /// value is unit.
    PosLookahead(Box<Expr>),
    /// The inner expression must fail here; nothing is consumed, and the
    /// value is unit.
    NegLookahead(Box<Expr>),
    /// The inner expression with no whitespace skipped anywhere inside it,
    /// nor inside the rules it calls.
    Atomic(Box<Expr>),
    /// The inner expression. The value is the span that the expression
    /// consumed, beside the value of the expression.
    SpanCapture(Box<Expr>),
    /// One item or more, with a separator between each two and whitespace
    /// skipped round the separators. The value is the list of the values
    /// of the items beside the list of the values of the separators.
    DelimitedList(Box<Expr>, Box<Expr>),
    /// A leaf. The value of a rule name is the value of the rule, that of
    /// any other leaf is unit.
    Atom(Atom),
}

impl Expr {
    /// The expression as plain values, level by level.
    pub open spec fn model(&self) -> ExprView
        decreases self,
    {
        match self {
            Expr::Alt(left, right) => ExprView::Alt(
                Box::new(left.model()),
                Box::new(right.model()),
            ),
            Expr::Sequence(items) => ExprView::Sequence(
                Seq::new(
                    items.len() as nat,
                    |i: int|
                        if 0 <= i < items.len() {
                            items[i].model()
                        } else {
                            ExprView::Sequence(Seq::empty())
                        },
                ),
            ),
            Expr::Repeat0(inner) => ExprView::Repeat0(Box::new(inner.model())),
            Expr::Repeat1(inner) => ExprView::Repeat1(Box::new(inner.model())),
            Expr::Optional(inner) => ExprView::Optional(Box::new(inner.model())),
            Expr::PosLookahead(inner) => ExprView::PosLookahead(Box::new(inner.model())),
            Expr::NegLookahead(inner) => ExprView::NegLookahead(Box::new(inner.model())),
            Expr::Atomic(inner) => ExprView::Atomic(Box::new(inner.model())),
            Expr::SpanCapture(inner) => ExprView::SpanCapture(Box::new(inner.model())),
            Expr::DelimitedList(item, separator) => ExprView::DelimitedList(
                Box::new(item.model()),
                Box::new(separator.model()),
            ),
            Expr::Atom(atom) => ExprView::Atom(atom@),
        }
    }
}

impl View for Expr {
    type V = ExprView;

    open spec fn view(&self) -> ExprView {
        self.model()
    }
}

/// An action, as plain values.
pub enum ActionView {
    Bound,
    Unit,
    Field(Box<ActionView>, int),
    Tuple(Seq<ActionView>),
}

/// What a rule makes of the value of its body.
#[derive(Debug)]
pub enum Action {
    /// The value that the binder holds.
    Bound,
    /// The unit value.
    Unit,
    /// The part of a tuple at an index, counted from 0.
    Field(Box<Action>, usize),
    /// The values of the parts, side by side.
    Tuple(Vec<Action>),
}

impl Action {
    /// The action as plain values, level by level.
    pub open spec fn model(&self) -> ActionView
        decreases self,
    {
        match self {
            Action::Bound => ActionView::Bound,
            Action::Unit => ActionView::Unit,
            Action::Field(inner, index) => ActionView::Field(
                Box::new(inner.model()),
                *index as int,
            ),
            Action::Tuple(parts) => ActionView::Tuple(
                Seq::new(
                    parts.len() as nat,
                    |i: int|
                        if 0 <= i < parts.len() {
                            parts[i].model()
                        } else {
                            ActionView::Unit
                        },
                ),
            ),
        }
    }
}

impl View for Action {
    type V = ActionView;

    open spec fn view(&self) -> ActionView {
        self.model()
    }
}

/// A result type, as plain values.
pub enum TypeView {
    Unit,
    Span,
    List(Box<TypeView>),
    Opt(Box<TypeView>),
    Tuple(Seq<TypeView>),
}

/// The type that a rule declares for its value.
#[derive(Debug)]
pub enum Type {
    /// `()`
    Unit,
    /// `Span`
    Span,
    /// `Vec` of the inner type
    List(Box<Type>),
    /// `Option` of the inner type
    Opt(Box<Type>),
    /// A tuple of the inner types
    Tuple(Vec<Type>),
}

impl Type {
    /// The type as plain values, level by level.
    pub open spec fn model(&self) -> TypeView
        decreases self,
    {
        match self {
            Type::Unit => TypeView::Unit,
            Type::Span => TypeView::Span,
            Type::List(inner) => TypeView::List(Box::new(inner.model())),
            Type::Opt(inner) => TypeView::Opt(Box::new(inner.model())),
            Type::Tuple(parts) => TypeView::Tuple(
                Seq::new(
                    parts.len() as nat,
                    |i: int|
                        if 0 <= i < parts.len() {
                            parts[i].model()
                        } else {
                            TypeView::Unit
                        },
                ),
            ),
        }
    }
}

impl View for Type {
    type V = TypeView;

    open spec fn view(&self) -> TypeView {
        self.model()
    }
}

/// A rule, as plain values.
pub struct RuleView {
    pub name: Seq<char>,
    pub at: Location,
    pub result: Option<TypeView>,
    pub binder: Option<Seq<char>>,
    pub body: ExprView,
    pub action: Option<ActionView>,
}

/// A named pattern, with what it makes of the value matched.
#[derive(Debug)]
pub struct Rule {
    /// The name that other rules call it by.
    pub name: String,
    /// Where the name was written.
    pub at: Location,
    /// The declared type of its value; without one the value is unit.
    pub result: Option<Type>,
    /// The name that the action knows the body's value by.
    pub binder: Option<String>,
    /// The pattern.
    pub body: Expr,
    /// What becomes of the body's value; without one the value is unit.
    pub action: Option<Action>,
}

impl View for Rule {
    type V = RuleView;

    open spec fn view(&self) -> RuleView {
        RuleView {
            name: self.name@,
            at: self.at,
            result: match self.result {
                Some(t) => Some(t@),
                None => None,
            },
            binder: match self.binder {
                Some(b) => Some(b@),
                None => None,
            },
            body: self.body@,
            action: match self.action {
                Some(a) => Some(a@),
                None => None,
            },
        }
    }
}

/// The models of rules, in order.
pub open spec fn rule_models(rules: Seq<Rule>) -> Seq<RuleView> {
    Seq::new(rules.len(), |i: int| rules[i]@)
}

/// A grammar, as plain values.
pub struct GrammarView {
    pub rules: Seq<RuleView>,
    pub blanks: Seq<char>,
}

/// The characters skipped as whitespace unless a grammar is given others:
/// space, tab, line feed and carriage return.
pub open spec fn default_blanks() -> Seq<char> {
    seq![' ', '\t', '\n', '\r']
}

impl GrammarView {
    /// What a match invocation on `text` works on.
    pub open spec fn scene(self, text: Seq<char>) -> Scene {
        Scene { rules: self.rules, blanks: self.blanks, text, bytes: encode_utf8(text) }
    }
}

/// Rules that belong together, and the characters skipped as whitespace
/// between the parts of their sequences, repetitions and lists.
///
/// No two rules of a grammar share a name, every rule named in a body is
/// one of the grammar, no sequence is empty, no range inverted, and every
/// rule keeps to the type it declares.
#[derive(Debug)]
pub struct Grammar {
    rules: Vec<Rule>,
    blanks: Vec<char>,
}

impl View for Grammar {
    type V = GrammarView;

    closed spec fn view(&self) -> GrammarView {
        GrammarView { rules: rule_models(self.rules@), blanks: self.blanks@ }
    }
}

impl Grammar {
    #[verifier::type_invariant]
    spec fn without_fault(self) -> bool {
        fault_of(rule_models(self.rules@)) is None
    }

    /// The grammar of `rules`, with the default whitespace, or the first
    /// fault of `rules`.
    pub fn new(rules: Vec<Rule>) -> (made: Result<Grammar, GrammarError>)
        ensures
            match fault_of(rule_models(rules@)) {
                Some(fault) => made == Err::<Grammar, GrammarError>(fault),
                None => match made {
                    Ok(grammar) => grammar@.rules == rule_models(rules@) && grammar@.blanks
                        == default_blanks() && faultless(grammar@.rules),
                    Err(_) => false,
                },
            },
    {
        match rules_fault(&rules) {
            Some(fault) => {
                return Err(fault);
            },
            None => {},
        }
        match rules_mistyped(&rules) {
            Some(fault) => Err(fault),
            None => {
                let mut blanks: Vec<char> = Vec::new();
                blanks.push(' ');
                blanks.push('\t');
                blanks.push('\n');
                blanks.push('\r');
                proof {
                    lemma_fault_of(rule_models(rules@));
                    assert(blanks@ =~= default_blanks());
                }
                Ok(Grammar { rules, blanks })
            },
        }
    }

    /// The same rules with `blanks` as the characters skipped as
    /// whitespace.
    pub fn with_blanks(self, blanks: Vec<char>) -> (made: Grammar)
        ensures
            made@.rules == self@.rules,
            made@.blanks == blanks@,
    {
        proof {
            use_type_invariant(&self);
        }
        Grammar { rules: self.rules, blanks }
    }

    /// The rules, in order.
    pub fn rules(&self) -> (rules: &Vec<Rule>)
        ensures
            rule_models(rules@) == self@.rules,
            faultless(self@.rules),
    {
        proof {
            use_type_invariant(self);
            lemma_fault_of(rule_models(self.rules@));
        }
        &self.rules
    }

    /// The characters skipped as whitespace.
    pub fn blanks(&self) -> (blanks: &Vec<char>)
        ensures
            blanks@ == self@.blanks,
    {
        &self.blanks
    }

    /// Matches the rule called `name` against the text at `input`, in a
    /// match invocation of its own. A match gives the cursor after what
    /// was consumed and the value of the rule, which is of the type that
    /// the rule declares. There is no match where the grammar has no rule
    /// of that name, or the cursor lies beyond the text.
    pub fn match_rule<'a>(&self, name: &str, input: Input<'a>) -> (found: Option<
        (Input<'a>, Value<'a>),
    >)
        ensures
            match self@.scene(input.source@).answer(name@, input.offset as int) {
                Some(hit) => match found {
                    Some((rest, value)) => rest.source == input.source && rest.offset == hit.end
                        && value@ == hit.value,
                    None => false,
                },
                None => found is None,
            },
            match (found, find(self@.rules, name@)) {
                (Some((rest, value)), Some(rule)) => has_type(value@, declared(self@.rules[rule]))
                    && input.offset <= rest.offset <= input.source.spec_bytes().len(),
                (Some(_), None) => false,
                _ => true,
            },
    {
        let bytes = input.source.as_bytes();
        let session = Session {
            rules: &self.rules,
            blanks: &self.blanks,
            source: input.source,
            bytes,
        };
        let wanted = name.to_owned();
        match find_rule(&self.rules, &wanted) {
            Some(rule) => {
                if input.offset > bytes.len() {
                    return None;
                }
                let mut memo = Memo::new(Ghost(session.scene()), bytes.len());
                proof {
                    use_type_invariant(self);
                    lemma_fault_of(rule_models(self.rules@));
                    let scene = session.scene();
                    let empty = Map::<Key, Option<Hit>>::empty();
                    scene.lemma_call(rule as int, input.offset as int, false, empty);
                    scene.lemma_call_typed(rule as int, input.offset as int, false, empty);
                }
                match session.call(rule, input.offset, false, &mut memo) {
                    Some((end, value)) => Some((Input { source: input.source, offset: end }, value)),
                    None => None,
                }
            },
            None => None,
        }
    }
}

} // verus!
