use lang_front::ast::Span;
use lang_front::front::{parse_source, show_source};
use lang_front::lexer::TokenKind;
use lang_front::parser::ParserError;

#[test]
fn source_to_tree() {
    let source = "fn bla(a:b, c:d,)\n-> e\n{\nlet a = b;\n}";
    let function = parse_source(source).unwrap().unwrap();
    assert_eq!(function.name().span().slice(source), "bla");
    assert_eq!(function.parameters().len(), 2);
    assert_eq!(function.kind().as_ref().unwrap().span().slice(source), "e");
    assert_eq!(function.body().statements().len(), 1);
}

#[test]
fn source_to_text() {
    let source = "fn f(x: T) -> U { let mut y = x; }";
    assert_eq!(
        show_source(source),
        Some(Ok(String::from(
            "Function\n  Identifier f\n  Parameter\n    Identifier x\n    Identifier T\n  Identifier U\n  Block\n    Binding (mut=true)\n      Identifier y\n      Identifier x\n"
        )))
    );
}

#[test]
fn source_to_error() {
    assert_eq!(
        show_source("fn bla;"),
        Some(Err(ParserError::UnexpectedToken {
            expected: TokenKind::TokLeftParen,
            actual: TokenKind::TokSemiColon,
            span: Span::new(6, 7),
        }))
    );
    assert_eq!(show_source(""), Some(Err(ParserError::UnexpectedEof { offset: 0 })));
    assert_eq!(
        parse_source("fn").map(|parsed| parsed.err()),
        Some(Some(ParserError::UnexpectedEof { offset: 2 }))
    );
}

#[test]
fn unreadable_source() {
    let source = format!("fn {}() {{;}}", "a".repeat(65536));
    assert!(parse_source(&source).is_none());
    assert_eq!(show_source(&source), None);
    let source = format!("fn {}() {{;}}", "a".repeat(65535));
    assert!(parse_source(&source).unwrap().is_ok());
}

#[test]
fn names_with_other_letters_are_refused() {
    assert_eq!(
        show_source("fn größe() {;}"),
        Some(Err(ParserError::UnexpectedToken {
            expected: TokenKind::TokLeftParen,
            actual: TokenKind::Error,
            span: Span::new(5, 6),
        }))
    );
}
