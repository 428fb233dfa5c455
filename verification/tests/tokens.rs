use sully_peg::token::{tokenize, Bracket, TokenKind};

#[test]
fn tokenize_reads_a_rule() {
    let tokens = tokenize("x = 'a'..='z'").unwrap();
    assert_eq!(tokens.len(), 7);
    assert!(matches!(&tokens[0].kind, TokenKind::Ident(name) if name == "x"));
    assert!(matches!(tokens[1].kind, TokenKind::Punct('=', false)));
    assert!(matches!(tokens[2].kind, TokenKind::Letter('a')));
    assert!(matches!(tokens[3].kind, TokenKind::Punct('.', true)));
    assert!(matches!(tokens[4].kind, TokenKind::Punct('.', true)));
    assert!(matches!(tokens[5].kind, TokenKind::Punct('=', _)));
    assert!(matches!(tokens[6].kind, TokenKind::Letter('z')));
}

#[test]
fn tokenize_places_tokens() {
    let tokens = tokenize("x = 'a'\n  y = x").unwrap();
    assert_eq!((tokens[0].at.line, tokens[0].at.column), (1, 0));
    assert_eq!((tokens[2].at.line, tokens[2].at.column), (1, 4));
    assert_eq!((tokens[3].at.line, tokens[3].at.column), (2, 2));
    assert_eq!((tokens[5].at.line, tokens[5].at.column), (2, 6));
}

#[test]
fn tokenize_nests_groups() {
    let tokens = tokenize("a (b {c} [d])").unwrap();
    assert_eq!(tokens.len(), 2);
    match &tokens[1].kind {
        TokenKind::Group(Bracket::Round, inner) => {
            assert_eq!(inner.len(), 3);
            assert!(matches!(&inner[0].kind, TokenKind::Ident(name) if name == "b"));
            assert!(
                matches!(&inner[1].kind, TokenKind::Group(Bracket::Curly, deep) if deep.len() == 1)
            );
            assert!(
                matches!(&inner[2].kind, TokenKind::Group(Bracket::Square, deep) if deep.len() == 1)
            );
        }
        other => panic!("no group: {:?}", other),
    }
}

#[test]
fn tokenize_reads_the_values_of_literals() {
    let tokens = tokenize(r#""a\nb" '\t' 12 1.5 b'x'"#).unwrap();
    assert_eq!(tokens.len(), 5);
    assert!(matches!(&tokens[0].kind, TokenKind::Text(text) if text == "a\nb"));
    assert!(matches!(tokens[1].kind, TokenKind::Letter('\t')));
    assert!(matches!(tokens[2].kind, TokenKind::Index(12)));
    assert!(matches!(tokens[3].kind, TokenKind::Other));
    assert!(matches!(tokens[4].kind, TokenKind::Other));
}

#[test]
fn tokenize_marks_joint_punctuation() {
    let tokens = tokenize("-> - >").unwrap();
    assert!(matches!(tokens[0].kind, TokenKind::Punct('-', true)));
    assert!(matches!(tokens[1].kind, TokenKind::Punct('>', false)));
    assert!(matches!(tokens[2].kind, TokenKind::Punct('-', false)));
    assert!(matches!(tokens[3].kind, TokenKind::Punct('>', false)));
}

#[test]
fn tokenize_refuses_what_is_no_token_sequence() {
    assert!(tokenize("x = (").is_err());
    assert!(tokenize("x = \"abc").is_err());
    let at = tokenize("x = 'a'\ny = )").unwrap_err();
    assert_eq!((at.line, at.column), (2, 4));
}

#[test]
fn tokenize_of_nothing_is_empty() {
    assert_eq!(tokenize("").unwrap().len(), 0);
    assert_eq!(tokenize("  // only a comment\n").unwrap().len(), 0);
}
