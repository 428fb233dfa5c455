use sully_peg::grammar::{Atom, Expr, Grammar, Rule};
use sully_peg::input::{Input, Span};
use sully_peg::token::Location;
use sully_peg::value::Value;

fn compile(text: &str) -> Grammar {
    Grammar::from_text(text).unwrap()
}

fn end_of(grammar: &Grammar, rule: &str, text: &str) -> Option<usize> {
    grammar.match_rule(rule, Input::new(text)).map(|(rest, _)| rest.offset)
}

fn spanned<'a>(source: &'a str, start: usize, end: usize) -> Value<'a> {
    Value::Span(Span::new(source, start, end))
}

#[test]
fn a_failed_alternative_consumes_nothing() {
    let g = compile("x = 'a' 'b' | 'a' 'c'");
    assert_eq!(end_of(&g, "x", "ac"), Some(2));
    assert_eq!(end_of(&g, "x", "ad"), None);
}

#[test]
fn the_left_alternative_wins_where_it_matches() {
    let g = compile("x = \"a\" | \"ab\"\ny = \"ab\" | \"a\"");
    assert_eq!(end_of(&g, "x", "ab"), Some(1));
    assert_eq!(end_of(&g, "y", "ab"), Some(2));
    assert_eq!(end_of(&g, "y", "ac"), Some(1));
}

#[test]
fn an_alternation_has_the_value_of_the_side_that_matched() {
    let g = compile(
        "a -> Span = r: $'a' { r.0 }
         b -> Span = r: $'b' { r.0 }
         x -> Span = r: (a | b) { r }",
    );
    let s = "b";
    assert_eq!(
        g.match_rule("x", Input::new(s)),
        Some((Input::new(s).advance(1), spanned(s, 0, 1)))
    );
}

#[test]
fn a_repetition_of_what_fails_is_empty() {
    let g = compile("x -> Vec<()> = r: 'a'* { r }");
    let input = Input::new("bbb");
    assert_eq!(g.match_rule("x", input), Some((input, Value::List(vec![]))));
}

#[test]
fn a_repetition_of_one_or_more_of_what_fails_fails() {
    let g = compile("x -> Vec<()> = r: 'a'+ { r }");
    assert_eq!(g.match_rule("x", Input::new("bbb")), None);
    let input = Input::new("ab");
    assert_eq!(g.match_rule("x", input), Some((input.advance(1), Value::List(vec![Value::Unit]))));
}

#[test]
fn a_repetition_leaves_the_whitespace_behind_its_last_match() {
    let g = compile("x = 'a'*");
    assert_eq!(end_of(&g, "x", "a a  b"), Some(3));
    assert_eq!(end_of(&g, "x", "a a  "), Some(3));
}

#[test]
fn a_repetition_of_what_matches_nothing_ends() {
    let g = compile("x -> Vec<Option<()>> = r: ('a'?)* { r }");
    let input = Input::new("b");
    assert_eq!(
        g.match_rule("x", input),
        Some((input, Value::List(vec![Value::Opt(None)])))
    );
    let input = Input::new("aab");
    assert_eq!(
        g.match_rule("x", input),
        Some((
            input.advance(2),
            Value::List(vec![
                Value::Opt(Some(Box::new(Value::Unit))),
                Value::Opt(Some(Box::new(Value::Unit))),
                Value::Opt(None),
            ])
        ))
    );
}

#[test]
fn a_sequence_skips_all_the_whitespace_between_its_parts() {
    let g = compile("x = 'a' 'b'");
    assert_eq!(end_of(&g, "x", "ab"), Some(2));
    assert_eq!(end_of(&g, "x", "a \t\r\n  b"), Some(8));
    assert_eq!(end_of(&g, "x", " ab"), None);
    assert_eq!(end_of(&g, "x", "ab  "), Some(2));
}

#[test]
fn an_atomic_sequence_skips_nothing() {
    let g = compile("x = @('a' 'b')\ny = 'a' @('b' 'c') 'd'");
    assert_eq!(end_of(&g, "x", "ab"), Some(2));
    assert_eq!(end_of(&g, "x", "a b"), None);
    assert_eq!(end_of(&g, "y", "a bc d"), Some(6));
    assert_eq!(end_of(&g, "y", "a b c d"), None);
}

#[test]
fn a_span_covers_what_its_expression_consumed() {
    let g = compile(
        "w -> Span = r: $('a' 'b') { r.0 }
         x -> Vec<Span> = r: w* { r }",
    );
    let s = "ab  a b\ta  b";
    let input = Input::new(s);
    assert_eq!(
        g.match_rule("x", input),
        Some((
            input.advance(s.len()),
            Value::List(vec![spanned(s, 0, 2), spanned(s, 4, 7), spanned(s, 8, 12)])
        ))
    );
}

#[test]
fn a_lookahead_consumes_nothing() {
    let g = compile("x -> ((), Span) = r: $(&\"ab\" 'a') { (r.1, r.0) }\ny = !'a'");
    let s = "ab";
    let input = Input::new(s);
    assert_eq!(
        g.match_rule("x", input),
        Some((input.advance(1), Value::Tuple(vec![Value::Unit, spanned(s, 0, 1)])))
    );
    assert_eq!(end_of(&g, "y", "b"), Some(0));
    assert_eq!(end_of(&g, "y", ""), Some(0));
    assert_eq!(end_of(&g, "y", "a"), None);
}

#[test]
fn the_whitespace_can_be_chosen() {
    let g = compile("x = 'a' 'b'").with_blanks(vec!['_', 'é']);
    assert_eq!(end_of(&g, "x", "a__b"), Some(4));
    assert_eq!(end_of(&g, "x", "a_é_b"), Some(6));
    assert_eq!(end_of(&g, "x", "a b"), None);
    let none = compile("x = 'a' 'b'").with_blanks(vec![]);
    assert_eq!(end_of(&none, "x", "a b"), None);
    assert_eq!(end_of(&none, "x", "ab"), Some(2));
}

#[test]
fn characters_are_matched_whole() {
    let g = compile("x = 'α'..='ω'+\ny = \"é\" 'é'\nz = '\\u{0}'..='\\u{10ffff}'");
    assert_eq!(end_of(&g, "x", "αβγd"), Some(6));
    assert_eq!(end_of(&g, "x", "abc"), None);
    assert_eq!(end_of(&g, "y", "éé"), Some(4));
    assert_eq!(end_of(&g, "z", "😀"), Some(4));
    assert_eq!(end_of(&g, "z", "€"), Some(3));
    assert_eq!(g.match_rule("z", Input::new("é").advance(1)), None);
    assert_eq!(g.match_rule("z", Input::new("é").advance(2)), None);
}

#[test]
fn a_string_matches_byte_for_byte() {
    let g = compile("x = \"\"\ny = \"a\\nb\"");
    assert_eq!(end_of(&g, "x", "abc"), Some(0));
    assert_eq!(end_of(&g, "x", ""), Some(0));
    assert_eq!(end_of(&g, "y", "a\nb"), Some(3));
    assert_eq!(end_of(&g, "y", "a\n"), None);
}

#[test]
fn a_cursor_beyond_the_text_matches_nothing() {
    let g = compile("x = 'a'*");
    let input = Input::new("aa");
    assert_eq!(g.match_rule("x", input.advance(2)), Some((input.advance(2), Value::Unit)));
    assert_eq!(g.match_rule("x", input.advance(3)), None);
}

#[test]
fn a_rule_that_the_grammar_lacks_matches_nothing() {
    let g = compile("x = 'a'");
    assert_eq!(g.match_rule("y", Input::new("a")), None);
}

#[test]
fn matching_starts_at_the_cursor() {
    let g = compile("x -> Span = r: $'b' { r.0 }");
    let s = "abc";
    let input = Input::new(s).advance(1);
    assert_eq!(g.match_rule("x", input), Some((input.advance(1), spanned(s, 1, 2))));
}

#[test]
fn left_recursion_grows_to_the_longest_match() {
    let g = compile(
        "num = @('0'..='9'+)
         sum -> (Span, ()) = r: $(sum '+' num | num) { r }
         all = sum !('+' | '0'..='9')",
    );
    let s = "1+22 + 333";
    let input = Input::new(s);
    assert_eq!(
        g.match_rule("sum", input),
        Some((input.advance(10), Value::Tuple(vec![spanned(s, 0, 10), Value::Unit])))
    );
    assert_eq!(end_of(&g, "sum", "1+"), Some(1));
    assert_eq!(end_of(&g, "all", "1+2"), Some(3));
    assert_eq!(end_of(&g, "all", "1+"), None);
}

#[test]
fn left_recursion_without_a_seed_fails() {
    let g = compile("x = x 'a'\ny = y | 'b'");
    assert_eq!(end_of(&g, "x", "aaa"), None);
    assert_eq!(end_of(&g, "y", "b"), Some(1));
}

#[test]
fn a_rule_is_remembered_apart_for_each_whitespace_context() {
    let g = compile(
        "x = '0'..='9'
         y = x+
         w = &y @y
         v = &@y y",
    );
    assert_eq!(end_of(&g, "w", "1 2"), Some(1));
    assert_eq!(end_of(&g, "v", "1 2"), Some(3));
}

#[test]
fn a_delimited_list_takes_a_separator_only_with_its_item() {
    let g = compile("x = 'a' ^ ','");
    assert_eq!(end_of(&g, "x", ""), None);
    assert_eq!(end_of(&g, "x", "a"), Some(1));
    assert_eq!(end_of(&g, "x", "a,"), Some(1));
    assert_eq!(end_of(&g, "x", "a , a ,a, b"), Some(8));
    let tight = compile("x = @('a' ^ ',')");
    assert_eq!(end_of(&tight, "x", "a,a , a"), Some(3));
}

#[test]
fn a_delimited_list_has_one_item_more_than_separators() {
    let g = compile("x -> (Vec<()>, Vec<()>) = r: 'a' ^ ',' { r }");
    let input = Input::new("a,a,a,");
    assert_eq!(
        g.match_rule("x", input),
        Some((
            input.advance(5),
            Value::Tuple(vec![
                Value::List(vec![Value::Unit, Value::Unit, Value::Unit]),
                Value::List(vec![Value::Unit, Value::Unit]),
            ])
        ))
    );
}

#[test]
fn an_action_picks_and_pairs() {
    let g = compile(
        "d -> Span = r: $('0'..='9') { r.0 }
         x -> ((Span, ()), (Vec<Span>, ((),))) = r: $(d+) { ((r.0, ()), (r.1, ((),))) }",
    );
    let s = "1 2";
    let input = Input::new(s);
    assert_eq!(
        g.match_rule("x", input),
        Some((
            input.advance(3),
            Value::Tuple(vec![
                Value::Tuple(vec![spanned(s, 0, 3), Value::Unit]),
                Value::Tuple(vec![
                    Value::List(vec![spanned(s, 0, 1), spanned(s, 2, 3)]),
                    Value::Tuple(vec![Value::Unit]),
                ]),
            ])
        ))
    );
}

#[test]
fn a_rule_without_an_action_is_unit() {
    let g = compile("d -> Span = r: $('0'..='9') { r.0 }\nx = d d*");
    let input = Input::new("12");
    assert_eq!(g.match_rule("x", input), Some((input.advance(2), Value::Unit)));
}

#[test]
fn a_grammar_built_by_hand_matches() {
    let name = |text: &str| Expr::Atom(Atom::Ident(text.to_string(), Location { line: 1, column: 0 }));
    let rule = |text: &str, body: Expr| Rule {
        name: text.to_string(),
        at: Location { line: 1, column: 0 },
        result: None,
        binder: None,
        body,
        action: None,
    };
    let g = Grammar::new(vec![
        rule("list", Expr::DelimitedList(Box::new(name("item")), Box::new(Expr::Atom(Atom::Char(';'))))),
        rule("item", Expr::Sequence(vec![Expr::Atom(Atom::Str("it".to_string())), name("digit")])),
        rule("digit", Expr::Atom(Atom::Range('0', '9'))),
    ])
    .unwrap();
    assert_eq!(end_of(&g, "list", "it 1; it2 ;it 3;"), Some(15));
}

#[test]
fn a_value_can_be_duplicated() {
    let s = "abc";
    let value = Value::Tuple(vec![
        Value::List(vec![spanned(s, 0, 1), spanned(s, 1, 3)]),
        Value::Opt(Some(Box::new(Value::Unit))),
        Value::Opt(None),
    ]);
    assert_eq!(value.duplicate(), value);
}

#[test]
fn a_span_knows_its_range() {
    let s = "hello";
    let span = Span::new(s, 1, 4);
    assert_eq!(span.start(), 1);
    assert_eq!(span.end(), 4);
    assert_eq!(span.len(), 3);
    assert_eq!(span.source(), s);
    assert_eq!(Span::new(s, 5, 5).len(), 0);
    assert_ne!(Span::new(s, 1, 4), Span::new(s, 1, 3));
    assert_ne!(Span::new(s, 1, 4), Span::new("jello", 1, 4));
}

#[test]
fn a_cursor_moves_by_value() {
    let input = Input::new("hello");
    let moved = input.advance(2).advance(1);
    assert_eq!(input.offset, 0);
    assert_eq!(moved.offset, 3);
    assert_eq!(moved.source, "hello");
}

#[test]
fn a_rule_called_while_another_grows_is_committed_once() {
    let g = compile("a = b 'x' | 'y'\nb = a");
    assert_eq!(end_of(&g, "a", "yx"), Some(1));
    let direct = compile("a = a 'x' | 'y'");
    assert_eq!(end_of(&direct, "a", "yxxx"), Some(4));
}

#[test]
fn a_grammar_of_nested_values_matches() {
    let g = compile(
        r#"
        value = object | array | string | number | "true" | "false" | "null"
        object = '{' (pair ^ ',')? '}'
        pair = string ':' value
        array = '[' (value ^ ',')? ']'
        string = @('"' (!'"' any)* '"')
        number = @('-'? digit+)
        digit = '0'..='9'
        any = '\u{0}'..='\u{10ffff}'
        whole -> Span = r: $(value !any) { r.0 }
        "#,
    );
    let text = r#"{"a": [1, -2, {"b": null}], "c d": "x y", "e": []}"#;
    assert_eq!(end_of(&g, "value", text), Some(text.len()));
    assert_eq!(
        g.match_rule("whole", Input::new(text)),
        Some((Input::new(text).advance(text.len()), spanned(text, 0, text.len())))
    );
    assert_eq!(end_of(&g, "whole", r#"{"a": [1, -2, {"b": null}"#), None);
    assert_eq!(end_of(&g, "value", r#"[1, 2,]"#), None);
    assert_eq!(end_of(&g, "value", r#""a b" rest"#), Some(5));
}

#[test]
fn left_recursive_rules_nest() {
    let g = compile(
        "digit = '0'..='9'
         number = @(digit+)
         atom = number | '(' sum ')'
         product = product '*' atom | product '/' atom | atom
         sum = sum '+' product | sum '-' product | product
         spans -> Vec<Span> = r: term ^ ';' { r.0 }
         term -> Span = r: $sum { r.0 }",
    );
    assert_eq!(end_of(&g, "sum", "1+2*3"), Some(5));
    assert_eq!(end_of(&g, "sum", "(1 + 2) * (3 - 4) / 5 - 6"), Some(25));
    assert_eq!(end_of(&g, "sum", "1 + * 2"), Some(1));
    assert_eq!(end_of(&g, "sum", "((1)"), None);
    let s = "1+2; 3 * (4 - 5) ;6;";
    assert_eq!(
        g.match_rule("spans", Input::new(s)),
        Some((
            Input::new(s).advance(19),
            Value::List(vec![spanned(s, 0, 3), spanned(s, 5, 16), spanned(s, 18, 19)])
        ))
    );
}
