use sully_peg::grammar::Grammar;
use sully_peg::input::{Input, Span};
use sully_peg::value::Value;

fn grammar(text: &str) -> Grammar {
    Grammar::from_text(text).unwrap()
}

fn pair<'a>(first: Value<'a>, second: Value<'a>) -> Value<'a> {
    Value::Tuple(vec![first, second])
}

fn span<'a>(source: &'a str, start: usize, end: usize) -> Value<'a> {
    Value::Span(Span::new(source, start, end))
}

#[test]
fn test_char_lit() {
    let g = grammar("x = 'x'");
    let input = Input::new("x");
    assert_eq!(g.match_rule("x", input), Some((input.advance(1), Value::Unit)));
}

#[test]
fn test_str_lit() {
    let g = grammar("x = \"Hello\"");
    let input = Input::new("Hello, there!");
    assert_eq!(g.match_rule("x", input), Some((input.advance(5), Value::Unit)));
}

#[test]
fn test_char_range() {
    let g = grammar("x = '0'..='9'");
    let input = Input::new("1234");
    assert_eq!(g.match_rule("x", input), Some((input.advance(1), Value::Unit)));
}

#[test]
fn test_call() {
    let g = grammar(
        "x = '0'..='9'
         y = x",
    );
    let input = Input::new("1234");
    assert_eq!(g.match_rule("y", input), Some((input.advance(1), Value::Unit)));
}

#[test]
fn test_cat() {
    let g = grammar("x = '0' '1'");
    let input = Input::new("0101");
    assert_eq!(g.match_rule("x", input), Some((input.advance(2), Value::Unit)));
}

#[test]
fn test_many0() {
    let g = grammar(
        "x = '0'..='9'
         y = x*",
    );
    let input = Input::new("1234");
    assert_eq!(g.match_rule("y", input), Some((input.advance(4), Value::Unit)));

    let input = Input::new("");
    assert_eq!(g.match_rule("y", input), Some((input, Value::Unit)));
}

#[test]
fn test_many1() {
    let g = grammar(
        "x = '0'..='9'
         y = x+",
    );
    let input = Input::new("1234");
    assert_eq!(g.match_rule("y", input), Some((input.advance(4), Value::Unit)));

    let input = Input::new("");
    assert_eq!(g.match_rule("y", input), None);
}

#[test]
fn test_optional() {
    let g = grammar(
        "x = '0'..='9'
         y = x x?",
    );
    let input = Input::new("1234");
    assert_eq!(g.match_rule("y", input), Some((input.advance(2), Value::Unit)));

    let input = Input::new("1");
    assert_eq!(g.match_rule("y", input), Some((input.advance(1), Value::Unit)));

    let input = Input::new("");
    assert_eq!(g.match_rule("y", input), None);
}

#[test]
fn test_pos() {
    let g = grammar(
        "x = 'a'..='z'
         y = &x \"a1234\"",
    );
    let input = Input::new("a1234");
    assert_eq!(g.match_rule("y", input), Some((input.advance(5), Value::Unit)));

    let input = Input::new("asdf");
    assert_eq!(g.match_rule("y", input), None);
}

#[test]
fn test_neg() {
    let g = grammar(
        "x = 'a'..='z'
         y = !x \"1234\"",
    );
    let input = Input::new("1234");
    assert_eq!(g.match_rule("y", input), Some((input.advance(4), Value::Unit)));

    let input = Input::new("asdf");
    assert_eq!(g.match_rule("y", input), None);
}

#[test]
fn test_implicit_space() {
    let g = grammar(
        "x = '0'..='9'
         y = x x x x",
    );
    let input = Input::new("12 34");
    assert_eq!(g.match_rule("y", input), Some((input.advance(5), Value::Unit)));

    let input = Input::new("1 2 3 4 5");
    assert_eq!(g.match_rule("y", input), Some((input.advance(7), Value::Unit)));
}

#[test]
fn test_implicit_space_many0() {
    let g = grammar(
        "x = '0'..='9'
         y = x*",
    );
    let input = Input::new("12 3 4 5");
    assert_eq!(g.match_rule("y", input), Some((input.advance(8), Value::Unit)));

    let input = Input::new("");
    assert_eq!(g.match_rule("y", input), Some((input, Value::Unit)));
}

#[test]
fn test_implicit_space_many1() {
    let g = grammar(
        "x = '0'..='9'
         y = x+",
    );
    let input = Input::new("12 3 4 5");
    assert_eq!(g.match_rule("y", input), Some((input.advance(8), Value::Unit)));

    let input = Input::new("");
    assert_eq!(g.match_rule("y", input), None);
}

#[test]
fn test_atomic() {
    let g = grammar(
        "x = '0'..='9'
         y = x+
         z = @y",
    );
    let input = Input::new("12 3 4 5");
    assert_eq!(g.match_rule("y", input), Some((input.advance(8), Value::Unit)));
    assert_eq!(g.match_rule("z", input), Some((input.advance(2), Value::Unit)));
}

#[test]
fn test_action() {
    let g = grammar(
        "x = '0'..='9'
         y = x+
         z -> ((), ()) = r: y { (r, r) }",
    );
    let input = Input::new("12 3 4 5");
    assert_eq!(g.match_rule("y", input), Some((input.advance(8), Value::Unit)));
    assert_eq!(
        g.match_rule("z", input),
        Some((input.advance(8), pair(Value::Unit, Value::Unit)))
    );
}

#[test]
fn test_span() {
    let g = grammar(
        "x = '0'..='9'
         y = x+
         z -> Span<'a> = r: $y { r.0 }",
    );

    let s = "12 3 4 5";
    let input = Input::new(s);
    let span = Span::new(s, 0, s.len());
    assert_eq!(g.match_rule("y", input), Some((input.advance(8), Value::Unit)));
    assert_eq!(g.match_rule("z", input), Some((input.advance(8), Value::Span(span))));
}

#[test]
fn test_left_rec() {
    let g = grammar(
        "x = '0'..='9'
         y -> (Span<'a>, ()) = r: $(y x | x) { r }",
    );

    let s = "1 2 3";
    let input = Input::new(s);
    let span = Span::new(s, 0, 5);
    assert_eq!(
        g.match_rule("y", input),
        Some((input.advance(5), pair(Value::Span(span), Value::Unit)))
    );
}

#[test]
fn test_left_rec_extra() {
    let g = grammar(
        "x = '0'..='9'
         y = y x | x
         z -> (Span<'a>, ()) = r: $y { r }",
    );

    let s = "1 2 3";
    let input = Input::new(s);
    let span = Span::new(s, 0, 5);
    assert_eq!(g.match_rule("y", input), Some((input.advance(5), Value::Unit)));
    assert_eq!(
        g.match_rule("z", input),
        Some((input.advance(5), pair(Value::Span(span), Value::Unit)))
    );
}

#[test]
fn test_many0_vector() {
    let g = grammar(
        "x = '0'..='9'
         y -> Vec<(Span<'a>, ())> = r: ($x)* { r }",
    );

    let s = "1 2 3";
    let input = Input::new(s);
    assert_eq!(
        g.match_rule("y", input),
        Some((
            input.advance(5),
            Value::List(vec![
                pair(span(s, 0, 1), Value::Unit),
                pair(span(s, 2, 3), Value::Unit),
                pair(span(s, 4, 5), Value::Unit),
            ])
        ))
    );
}

#[test]
fn test_many1_vector() {
    let g = grammar(
        "x = '0'..='9'
         y -> Vec<(Span<'a>, ())> = r: ($x)+ { r }",
    );

    let s = "1 2 3";
    let input = Input::new(s);
    assert_eq!(
        g.match_rule("y", input),
        Some((
            input.advance(5),
            Value::List(vec![
                pair(span(s, 0, 1), Value::Unit),
                pair(span(s, 2, 3), Value::Unit),
                pair(span(s, 4, 5), Value::Unit),
            ])
        ))
    );
}

#[test]
fn test_optional_vector() {
    let g = grammar(
        "x = '0'..='9'
         y -> Option<(Span<'a>, ())> = r: ($x)? { r }",
    );

    let s = "1";
    let input = Input::new(s);
    assert_eq!(
        g.match_rule("y", input),
        Some((
            input.advance(1),
            Value::Opt(Some(Box::new(pair(span(s, 0, 1), Value::Unit))))
        ))
    );

    let s = "";
    let input = Input::new(s);
    assert_eq!(g.match_rule("y", input), Some((input, Value::Opt(None))));
}

#[test]
fn test_delims() {
    let g = grammar(
        "x = '0'..='9'
         y -> Span<'a> = r: $@(x+) { r.0 }
         comma -> Span<'a> = r: $',' { r.0 }
         z -> (Vec<Span<'a>>, Vec<Span<'a>>)
             = r: y ^ comma { r }",
    );

    let s = "10, 20, 30";
    let input = Input::new(s);
    assert_eq!(
        g.match_rule("z", input),
        Some((
            input.advance(s.len()),
            pair(
                Value::List(vec![span(s, 0, 2), span(s, 4, 6), span(s, 8, 10)]),
                Value::List(vec![span(s, 2, 3), span(s, 6, 7)]),
            )
        ))
    );
}
