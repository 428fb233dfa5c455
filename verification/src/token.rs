//! The tokens of the grammar notation, as the Rust lexer cuts them.

use vstd::prelude::*;

verus! {

/// `proc_macro2::TokenStream`: what the lexer makes of a text. Nothing is
/// known of what is in it.
#[verifier::external_type_specification]
#[verifier::external_body]
pub struct ExTokenStream(proc_macro2::TokenStream);

/// `proc_macro2::TokenTree`: one token of the lexer, or a bracketed group
/// of them. Nothing is known of what is in it.
#[verifier::external_type_specification]
#[verifier::external_body]
pub struct ExTokenTree(proc_macro2::TokenTree);

/// `proc_macro2::Literal`: a literal as the lexer holds it. Nothing is
/// known of what is in it.
#[verifier::external_type_specification]
#[verifier::external_body]
pub struct ExLiteral(proc_macro2::Literal);

/// Where a token starts in the notation text.
#[derive(Clone, Copy, Debug, PartialEq, Eq)]
pub struct Location {
    /// Line, counted from 1.
    pub line: usize,
    /// Column in characters, counted from 0.
    pub column: usize,
}

/// The brackets round a group of tokens.
#[derive(Clone, Copy, Debug, PartialEq, Eq)]
pub enum Bracket {
    /// `( .. )`
    Round,
    /// `{ .. }`
    Curly,
    /// `[ .. ]`
    Square,
    /// A group that the text shows no brackets for.
    Unseen,
}

/// What a token is.
#[derive(Debug)]
pub enum TokenKind {
    /// A name.
    Ident(String),
    /// A string literal, by the text it stands for.
    Text(String),
    /// A character literal, by the character it stands for.
    Letter(char),
    /// An integer literal whose digits, read in base 10, fit a `usize`.
    Index(usize),
    /// One punctuation character, and whether the next token follows it
    /// directly as part of the same operator.
    Punct(char, bool),
    /// Tokens in brackets.
    Group(Bracket, Vec<Token>),
    /// Any other literal.
    Other,
}

/// A token and the place it was read at.
#[derive(Debug)]
pub struct Token {
    pub kind: TokenKind,
    pub at: Location,
}

/// A token tree taken apart; the tokens of a group and a literal are
/// still as the lexer holds them.
enum Tree {
    Group(Bracket, proc_macro2::TokenStream),
    Ident(String),
    Punct(char, bool),
    Literal(proc_macro2::Literal),
}

/// `proc_macro2::TokenStream::from_str`: the text cut into tokens by the
/// Rust lexer, or where the lexer refuses it, the line and column that
/// `proc_macro2::LexError::span` and `proc_macro2::Span::start` give for
/// the refusal. Nothing is claimed of the outcome.
#[verifier::external_body]
fn lex(text: &str) -> (stream: Result<proc_macro2::TokenStream, Location>) {
    text.parse::<proc_macro2::TokenStream>().map_err(
        |refusal| Location {
            line: refusal.span().start().line,
            column: refusal.span().start().column,
        },
    )
}

/// `proc_macro2::TokenStream::into_iter`: the trees of a stream in order,
/// each made a token by [`tree_token`].
#[verifier::external_body]
fn stream_tokens(stream: proc_macro2::TokenStream) -> (tokens: Vec<Token>) {
    stream.into_iter().map(|tree| tree_token(tree)).collect()
}

/// `proc_macro2::TokenTree::span` and `proc_macro2::Span::start`: the line
/// and column at which a tree starts. The tree is one that [`lex`] has
/// just made, so its span is known to the lexer.
#[verifier::external_body]
fn tree_place(tree: &proc_macro2::TokenTree) -> (at: Location) {
    Location { line: tree.span().start().line, column: tree.span().start().column }
}

/// `proc_macro2::TokenTree`, variant by variant: for a group what
/// `delimiter` and `stream` give, for a name what `to_string` gives, for a
/// punctuation character what `as_char` and `spacing` give, the variants of
/// `proc_macro2::Delimiter` and `proc_macro2::Spacing` told apart.
#[verifier::external_body]
fn tree_parts(tree: proc_macro2::TokenTree) -> (parts: Tree) {
    match tree {
        proc_macro2::TokenTree::Group(group) => Tree::Group(match group.delimiter() {
            proc_macro2::Delimiter::Parenthesis => Bracket::Round,
            proc_macro2::Delimiter::Brace => Bracket::Curly,
            proc_macro2::Delimiter::Bracket => Bracket::Square,
            proc_macro2::Delimiter::None => Bracket::Unseen,
        }, group.stream()),
        proc_macro2::TokenTree::Ident(name) => Tree::Ident(name.to_string()),
        proc_macro2::TokenTree::Punct(punct) => Tree::Punct(punct.as_char(), match punct.spacing() {
            proc_macro2::Spacing::Joint => true,
            proc_macro2::Spacing::Alone => false,
        }),
        proc_macro2::TokenTree::Literal(literal) => Tree::Literal(literal),
    }
}

/// `syn::Lit::new`, variant by variant: for a string and a character what
/// `value` gives, for an integer what `base10_parse` gives where it fits a
/// `usize`. Claimed of the outcome is only that it is the kind of a
/// literal: a text, a letter, an index or another literal.
#[verifier::external_body]
fn literal_kind(literal: proc_macro2::Literal) -> (kind: TokenKind)
    ensures
        kind is Text || kind is Letter || kind is Index || kind is Other,
{
    match syn::Lit::new(literal) {
        syn::Lit::Str(text) => TokenKind::Text(text.value()),
        syn::Lit::Char(letter) => TokenKind::Letter(letter.value()),
        syn::Lit::Int(number) => number.base10_parse::<usize>().map_or(
            TokenKind::Other,
            TokenKind::Index,
        ),
        _ => TokenKind::Other,
    }
}

/// The kind of token that the parts of a tree make: a name and a
/// punctuation character as they are, a group in its own brackets round
/// the tokens of its stream, and a literal as the kind of literal that it
/// is read as.
fn kind_from(parts: Tree) -> (kind: TokenKind)
    ensures
        match parts {
            Tree::Group(bracket, _) => match kind {
                TokenKind::Group(kept, _) => kept == bracket,
                _ => false,
            },
            Tree::Ident(name) => kind == TokenKind::Ident(name),
            Tree::Punct(c, joint) => kind == TokenKind::Punct(c, joint),
            Tree::Literal(_) => kind is Text || kind is Letter || kind is Index || kind is Other,
        },
{
    match parts {
        Tree::Group(bracket, stream) => TokenKind::Group(bracket, stream_tokens(stream)),
        Tree::Ident(name) => TokenKind::Ident(name),
        Tree::Punct(c, joint) => TokenKind::Punct(c, joint),
        Tree::Literal(literal) => literal_kind(literal),
    }
}

/// The token that a tree of the lexer stands for: the kind that its parts
/// make, at the place that the lexer gives for it. The tree is opaque, and
/// so nothing can be said of the token but through [`kind_from`].
fn tree_token(tree: proc_macro2::TokenTree) -> (token: Token) {
    let at = tree_place(&tree);
    let kind = kind_from(tree_parts(tree));
    Token { kind, at }
}

/// The tokens of `text`, or where it is no sequence of Rust tokens, the
/// place at which the lexer gave up.
pub fn tokenize(text: &str) -> (tokens: Result<Vec<Token>, Location>) {
    match lex(text) {
        Ok(stream) => Ok(stream_tokens(stream)),
        Err(at) => Err(at),
    }
}

} // verus!
