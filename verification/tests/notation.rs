use sully_peg::error::{Fault, GrammarError};
use sully_peg::grammar::{Action, Atom, Expr, Grammar, Rule, Type};
use sully_peg::token::{tokenize, Location};

fn fault_of(text: &str) -> GrammarError {
    Grammar::from_text(text).unwrap_err()
}

fn at(line: usize, column: usize) -> Location {
    Location { line, column }
}

fn body_of(text: &str) -> String {
    let grammar = Grammar::from_text(text).unwrap();
    format!("{:?}", grammar.rules()[0].body)
}

fn untyped(name: &str, body: Expr) -> Rule {
    Rule { name: name.to_string(), at: at(1, 0), result: None, binder: None, body, action: None }
}

#[test]
fn text_that_is_no_token_sequence_is_refused() {
    assert_eq!(fault_of("x = \"abc"), GrammarError { fault: Fault::NotTokens, at: at(1, 4) });
    assert_eq!(fault_of("x = 'a'\n  y = x]"), GrammarError { fault: Fault::NotTokens, at: at(2, 7) });
}

#[test]
fn a_rule_that_ends_early_is_refused() {
    assert_eq!(fault_of("x ="), GrammarError { fault: Fault::UnexpectedEnd, at: at(1, 2) });
    assert_eq!(fault_of("x"), GrammarError { fault: Fault::UnexpectedEnd, at: at(1, 0) });
    assert_eq!(fault_of("x = 'a' |"), GrammarError { fault: Fault::UnexpectedEnd, at: at(1, 8) });
    assert_eq!(fault_of("x = 'a'..="), GrammarError { fault: Fault::UnexpectedEnd, at: at(1, 9) });
    assert_eq!(fault_of("x = ()"), GrammarError { fault: Fault::UnexpectedEnd, at: at(1, 4) });
}

#[test]
fn a_token_out_of_place_is_refused() {
    assert_eq!(fault_of("x = = 'a'"), GrammarError { fault: Fault::UnexpectedToken, at: at(1, 4) });
    assert_eq!(fault_of("= 'a'"), GrammarError { fault: Fault::UnexpectedToken, at: at(1, 0) });
    assert_eq!(
        fault_of("x = 'a' ^ 'b' ^ 'c'"),
        GrammarError { fault: Fault::UnexpectedToken, at: at(1, 14) }
    );
    assert_eq!(fault_of("x = 'a'..'b'"), GrammarError { fault: Fault::UnexpectedToken, at: at(1, 9) });
    assert_eq!(fault_of("x = ('a' =)"), GrammarError { fault: Fault::UnexpectedToken, at: at(1, 9) });
    assert_eq!(fault_of("x = ['a']"), GrammarError { fault: Fault::UnexpectedToken, at: at(1, 4) });
    assert_eq!(fault_of("x = 1"), GrammarError { fault: Fault::UnexpectedToken, at: at(1, 4) });
    assert_eq!(fault_of("x - > () = 'a'"), GrammarError { fault: Fault::UnexpectedToken, at: at(1, 2) });
}

#[test]
fn an_unknown_type_is_refused() {
    assert_eq!(fault_of("x -> Foo = 'a'"), GrammarError { fault: Fault::UnknownType, at: at(1, 5) });
    assert_eq!(
        fault_of("x -> Vec<u8> = 'a'"),
        GrammarError { fault: Fault::UnknownType, at: at(1, 9) }
    );
}

#[test]
fn an_action_that_names_no_binder_is_refused() {
    assert_eq!(
        fault_of("x -> () = r: 'a' { q }"),
        GrammarError { fault: Fault::UnknownBinder, at: at(1, 19) }
    );
    assert_eq!(
        fault_of("x -> () = 'a' { r }"),
        GrammarError { fault: Fault::UnknownBinder, at: at(1, 16) }
    );
}

#[test]
fn a_second_rule_of_one_name_is_refused() {
    assert_eq!(
        fault_of("x = 'a' x = 'b'"),
        GrammarError { fault: Fault::DuplicateRule, at: at(1, 8) }
    );
}

#[test]
fn a_rule_that_is_not_defined_is_refused() {
    assert_eq!(fault_of("x = 'a' y"), GrammarError { fault: Fault::UndefinedRule, at: at(1, 8) });
    assert_eq!(
        fault_of("x = 'a'\ny = x (z | x)"),
        GrammarError { fault: Fault::UndefinedRule, at: at(2, 7) }
    );
}

#[test]
fn an_inverted_range_is_refused() {
    assert_eq!(fault_of("x = 'z'..='a'"), GrammarError { fault: Fault::InvertedRange, at: at(1, 4) });
    assert!(Grammar::from_text("x = 'a'..='a'").is_ok());
    let made = Grammar::new(vec![untyped("x", Expr::Atom(Atom::Range('b', 'a')))]);
    assert_eq!(made.unwrap_err(), GrammarError { fault: Fault::InvertedRange, at: at(1, 0) });
}

#[test]
fn an_empty_sequence_is_refused() {
    let made = Grammar::new(vec![untyped("x", Expr::Optional(Box::new(Expr::Sequence(vec![]))))]);
    assert_eq!(made.unwrap_err(), GrammarError { fault: Fault::EmptySequence, at: at(1, 0) });
}

#[test]
fn a_rule_that_breaks_its_type_is_refused() {
    assert_eq!(fault_of("x -> Span = 'a'"), GrammarError { fault: Fault::TypeMismatch, at: at(1, 0) });
    assert_eq!(
        fault_of("x = 'a'\nz -> () = r: $x { r }"),
        GrammarError { fault: Fault::TypeMismatch, at: at(2, 0) }
    );
    assert_eq!(
        fault_of("z -> Span = r: 'a' { r.0 }"),
        GrammarError { fault: Fault::TypeMismatch, at: at(1, 0) }
    );
    assert_eq!(
        fault_of("s -> Span = r: $'a' { r.0 }\nz -> Span = r: (s | 'a') { r }"),
        GrammarError { fault: Fault::TypeMismatch, at: at(2, 0) }
    );
    assert!(Grammar::from_text("s -> Span = r: $'a' { r.0 }\nz = s | 'a'").is_ok());
}

#[test]
fn the_first_fault_is_the_one_reported() {
    assert_eq!(
        fault_of("x = y\nx = 'z'..='a'"),
        GrammarError { fault: Fault::InvertedRange, at: at(2, 4) }
    );
    assert_eq!(fault_of("x = y\nx = 'a'"), GrammarError { fault: Fault::UndefinedRule, at: at(1, 4) });
    assert_eq!(
        fault_of("x -> Span = 'a'\ny = z"),
        GrammarError { fault: Fault::UndefinedRule, at: at(2, 4) }
    );
}

#[test]
fn alternation_binds_loosest() {
    assert_eq!(
        body_of("x = 'a' 'b' | 'c'* ^ 'd' | 'e'"),
        "Alt(Alt(Sequence([Atom(Char('a')), Atom(Char('b'))]), \
         DelimitedList(Sequence([Repeat0(Atom(Char('c')))]), Sequence([Atom(Char('d'))]))), \
         Sequence([Atom(Char('e'))]))"
    );
}

#[test]
fn prefix_operators_stack() {
    assert_eq!(
        body_of("x = !&@$'a'"),
        "Sequence([NegLookahead(PosLookahead(Atomic(SpanCapture(Atom(Char('a'))))))])"
    );
}

#[test]
fn postfix_operators_chain_and_bind_tighter_than_prefix() {
    assert_eq!(
        body_of("x = !'a'*+?"),
        "Sequence([Optional(Repeat1(Repeat0(NegLookahead(Atom(Char('a'))))))])"
    );
}

#[test]
fn brackets_group() {
    assert_eq!(
        body_of("x = ('a' | \"bc\") 'd'..='f'"),
        "Sequence([Alt(Sequence([Atom(Char('a'))]), Sequence([Atom(Str(\"bc\"))])), \
         Atom(Range('d', 'f'))])"
    );
}

#[test]
fn a_rule_carries_its_type_binder_and_action() {
    let grammar = Grammar::from_text("z -> (Span<'a>, Option<Vec<()>>) = r: $(('a'*)?) { (r.0, r.1,).0 }");
    assert_eq!(grammar.unwrap_err().fault, Fault::TypeMismatch);

    let grammar =
        Grammar::from_text("z -> (Span<'a>, (Option<Vec<()>>,)) = r: $(('a'*)?) { (r.0, (r.1,)) }")
            .unwrap();
    let rule = &grammar.rules()[0];
    assert_eq!(rule.name, "z");
    assert_eq!(rule.at, at(1, 0));
    assert_eq!(rule.binder.as_deref(), Some("r"));
    assert_eq!(
        format!("{:?}", rule.result),
        "Some(Tuple([Span, Tuple([Opt(List(Unit))])]))"
    );
    assert_eq!(
        format!("{:?}", rule.action),
        "Some(Tuple([Field(Bound, 0), Tuple([Field(Bound, 1)])]))"
    );
}

#[test]
fn rules_may_name_later_rules_and_themselves() {
    let grammar = Grammar::from_text("x = y x | y\ny = 'a'").unwrap();
    assert_eq!(grammar.rules().len(), 2);
    assert_eq!(
        format!("{:?}", grammar.rules()[0].body),
        "Alt(Sequence([Atom(Ident(\"y\", Location { line: 1, column: 4 })), \
         Atom(Ident(\"x\", Location { line: 1, column: 6 }))]), \
         Sequence([Atom(Ident(\"y\", Location { line: 1, column: 10 }))]))"
    );
}

#[test]
fn parse_reads_the_tokens_that_from_text_reads() {
    let text = "x = '0'..='9'\ny -> Vec<()> = r: x+ { r }";
    let tokens = tokenize(text).unwrap();
    let parsed = Grammar::parse(&tokens).unwrap();
    let read = Grammar::from_text(text).unwrap();
    assert_eq!(format!("{:?}", parsed), format!("{:?}", read));
    assert_eq!(parsed.blanks(), &vec![' ', '\t', '\n', '\r']);
}

#[test]
fn no_rules_make_a_grammar() {
    let grammar = Grammar::from_text("").unwrap();
    assert_eq!(grammar.rules().len(), 0);
}

#[test]
fn a_grammar_can_be_built_by_hand() {
    let rules = vec![
        Rule {
            name: "digit".to_string(),
            at: at(1, 0),
            result: Some(Type::Span),
            binder: Some("d".to_string()),
            body: Expr::SpanCapture(Box::new(Expr::Atom(Atom::Range('0', '9')))),
            action: Some(Action::Field(Box::new(Action::Bound), 0)),
        },
        untyped("digits", Expr::Repeat1(Box::new(Expr::Atom(Atom::Ident("digit".to_string(), at(2, 9)))))),
    ];
    let grammar = Grammar::new(rules).unwrap();
    assert_eq!(grammar.rules().len(), 2);
    assert_eq!(grammar.rules()[1].name, "digits");
}

#[test]
fn a_refusal_of_the_lexer_is_the_fault_that_the_text_is_no_tokens() {
    let made = Grammar::from_lexed(Err(at(3, 7)));
    assert_eq!(made.unwrap_err(), GrammarError { fault: Fault::NotTokens, at: at(3, 7) });
}

#[test]
fn the_tokens_of_the_lexer_are_read_as_parse_reads_them() {
    let text = "x = '0'..='9'\ny -> Vec<()> = r: x+ { r }";
    let read = Grammar::from_lexed(tokenize(text)).unwrap();
    let parsed = Grammar::parse(&tokenize(text).unwrap()).unwrap();
    assert_eq!(format!("{:?}", read), format!("{:?}", parsed));
    assert_eq!(format!("{:?}", read), format!("{:?}", Grammar::from_text(text).unwrap()));

    let faulty = "x = y";
    assert_eq!(
        Grammar::from_lexed(tokenize(faulty)).unwrap_err(),
        GrammarError { fault: Fault::UndefinedRule, at: at(1, 4) }
    );
    assert_eq!(Grammar::from_lexed(Ok(vec![])).unwrap().rules().len(), 0);
}
