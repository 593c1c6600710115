use lang_front::ast::{Function, Show, Span};
use lang_front::lexer::{Lexer, Token, TokenKind};
use lang_front::parser::{Parser, ParserError};

fn parse(source: &str) -> Result<Function, ParserError> {
    let tokens = Lexer::new(source).go();
    Parser::new(&tokens).go()
}

fn shown(function: &Function, source: &str) -> String {
    let mut buffer = String::new();
    function.show(source, 0, &mut buffer);
    buffer
}

#[test]
fn end_to_end_function() {
    let source = "fn bla(a:b, c:d,)\n-> e\n{\nlet a = b;\n}";
    let function = parse(source).unwrap();
    assert_eq!(function.name().span().slice(source), "bla");
    let parameters = function.parameters();
    assert_eq!(parameters.len(), 2);
    assert_eq!(parameters[0].name().span().slice(source), "a");
    assert_eq!(parameters[0].kind().span().slice(source), "b");
    assert_eq!(parameters[1].name().span().slice(source), "c");
    assert_eq!(parameters[1].kind().span().slice(source), "d");
    assert_eq!(function.kind().as_ref().unwrap().span().slice(source), "e");
    let statements = function.body().statements();
    assert_eq!(statements.len(), 1);
    assert!(!statements[0].is_mutable());
    assert_eq!(statements[0].name().span().slice(source), "a");
    assert_eq!(statements[0].expression().span().slice(source), "b");
}

#[test]
fn end_to_end_spans() {
    let source = "fn bla(a:b, c:d,)\n-> e\n{\nlet a = b;\n}";
    let function = parse(source).unwrap();
    assert_eq!(function.name().span(), Span::new(3, 6));
    assert_eq!(function.parameters()[0].name().span(), Span::new(7, 8));
    assert_eq!(function.parameters()[0].kind().span(), Span::new(9, 10));
    assert_eq!(function.parameters()[1].name().span(), Span::new(12, 13));
    assert_eq!(function.parameters()[1].kind().span(), Span::new(14, 15));
    assert_eq!(function.kind().as_ref().unwrap().span(), Span::new(21, 22));
    let statement = &function.body().statements()[0];
    assert_eq!(statement.name().span(), Span::new(29, 30));
    assert_eq!(statement.expression().span(), Span::new(33, 34));
}

#[test]
fn end_to_end_shown() {
    let source = "fn bla(a:b, c:d,)\n-> e\n{\nlet a = b;\n}";
    let function = parse(source).unwrap();
    let expected = "Function\n\
                    \x20 Identifier bla\n\
                    \x20 Parameter\n\
                    \x20   Identifier a\n\
                    \x20   Identifier b\n\
                    \x20 Parameter\n\
                    \x20   Identifier c\n\
                    \x20   Identifier d\n\
                    \x20 Identifier e\n\
                    \x20 Block\n\
                    \x20   Binding (mut=false)\n\
                    \x20     Identifier a\n\
                    \x20     Identifier b\n";
    assert_eq!(shown(&function, source), expected);
}

#[test]
fn trailing_separator() {
    let with = "fn f(a:b, c:d,) {;}";
    let without = "fn f(a:b, c:d) {;}";
    let first = parse(with).unwrap();
    let second = parse(without).unwrap();
    assert_eq!(first.parameters().len(), 2);
    assert_eq!(second.parameters().len(), 2);
    for i in 0..2 {
        assert_eq!(first.parameters()[i].name().span(), second.parameters()[i].name().span());
        assert_eq!(first.parameters()[i].kind().span(), second.parameters()[i].kind().span());
    }
    assert_eq!(first.parameters()[0].name().span().slice(with), "a");
    assert_eq!(first.parameters()[0].kind().span().slice(with), "b");
    assert_eq!(first.parameters()[1].name().span().slice(with), "c");
    assert_eq!(first.parameters()[1].kind().span().slice(with), "d");
    assert_eq!(shown(&first, with), shown(&second, without));
}

#[test]
fn empty_parameter_list() {
    let source = "fn f() {;}";
    let function = parse(source).unwrap();
    assert_eq!(function.parameters().len(), 0);
    assert!(function.kind().is_none());
    assert_eq!(function.body().statements().len(), 0);
    assert_eq!(shown(&function, source), "Function\n  Identifier f\n  Block\n");
}

#[test]
fn one_parameter() {
    let function = parse("fn f(x: T) {;}").unwrap();
    assert_eq!(function.parameters().len(), 1);
    assert_eq!(function.parameters()[0].name().span(), Span::new(5, 6));
    assert_eq!(function.parameters()[0].kind().span(), Span::new(8, 9));
    let function = parse("fn f(x: T,) {;}").unwrap();
    assert_eq!(function.parameters().len(), 1);
}

#[test]
fn lone_separator_is_no_list() {
    assert_eq!(
        parse("fn f(,) {;}").err(),
        Some(ParserError::UnexpectedToken {
            expected: TokenKind::TokIdentifier,
            actual: TokenKind::TokComma,
            span: Span::new(5, 6),
        })
    );
}

#[test]
fn two_separators_are_refused() {
    assert_eq!(
        parse("fn f(a:b,,) {;}").err(),
        Some(ParserError::UnexpectedToken {
            expected: TokenKind::TokIdentifier,
            actual: TokenKind::TokComma,
            span: Span::new(9, 10),
        })
    );
}

#[test]
fn missing_separator_is_refused() {
    assert_eq!(
        parse("fn f(a:b c:d) {;}").err(),
        Some(ParserError::UnexpectedToken {
            expected: TokenKind::TokRightParen,
            actual: TokenKind::TokIdentifier,
            span: Span::new(9, 10),
        })
    );
}

#[test]
fn unexpected_token() {
    let source = "fn bla;";
    match parse(source) {
        Err(ParserError::UnexpectedToken { expected, actual, span }) => {
            assert_eq!(expected, TokenKind::TokLeftParen);
            assert_eq!(actual, TokenKind::TokSemiColon);
            assert_eq!(span.start(), 6);
            assert_eq!(span.end(), 7);
            assert_eq!(span.slice(source), ";");
        }
        other => panic!("{:?}", other),
    }
}

#[test]
fn error_span_leaves_trivia_out() {
    let source = "fn bla   ;  \n";
    assert_eq!(
        parse(source).err(),
        Some(ParserError::UnexpectedToken {
            expected: TokenKind::TokLeftParen,
            actual: TokenKind::TokSemiColon,
            span: Span::new(9, 10),
        })
    );
}

#[test]
fn unexpected_end() {
    assert_eq!(parse("").err(), Some(ParserError::UnexpectedEof { offset: 0 }));
    assert_eq!(parse("fn").err(), Some(ParserError::UnexpectedEof { offset: 2 }));
    assert_eq!(parse("fn bla").err(), Some(ParserError::UnexpectedEof { offset: 6 }));
    assert_eq!(parse("fn bla(").err(), Some(ParserError::UnexpectedEof { offset: 7 }));
    assert_eq!(parse("fn bla(a:b,").err(), Some(ParserError::UnexpectedEof { offset: 11 }));
    assert_eq!(parse("fn bla() ->").err(), Some(ParserError::UnexpectedEof { offset: 11 }));
    assert_eq!(parse("fn bla() {").err(), Some(ParserError::UnexpectedEof { offset: 10 }));
    assert_eq!(parse("fn bla() { let a = b;").err(), Some(ParserError::UnexpectedEof { offset: 21 }));
}

#[test]
fn end_offset_counts_trailing_trivia() {
    assert_eq!(parse("  \n").err(), Some(ParserError::UnexpectedEof { offset: 3 }));
    assert_eq!(parse("fn bla  \r\n ").err(), Some(ParserError::UnexpectedEof { offset: 11 }));
}

#[test]
fn leading_trivia_is_skipped() {
    let source = " \n\t fn f() {;}";
    let function = parse(source).unwrap();
    assert_eq!(function.name().span(), Span::new(7, 8));
    assert_eq!(function.name().span().slice(source), "f");
}

#[test]
fn names_leave_trivia_out() {
    let source = "fn  bla  ( a  :  b ) ->  e  { let  mut  x  =  y  ; }";
    let function = parse(source).unwrap();
    assert_eq!(function.name().span().slice(source), "bla");
    assert_eq!(function.parameters()[0].name().span().slice(source), "a");
    assert_eq!(function.parameters()[0].kind().span().slice(source), "b");
    assert_eq!(function.kind().as_ref().unwrap().span().slice(source), "e");
    let statement = &function.body().statements()[0];
    assert!(statement.is_mutable());
    assert_eq!(statement.name().span().slice(source), "x");
    assert_eq!(statement.expression().span().slice(source), "y");
}

#[test]
fn mutable_binding() {
    let source = "fn f() { let mut a = b; }";
    let function = parse(source).unwrap();
    let statements = function.body().statements();
    assert_eq!(statements.len(), 1);
    assert!(statements[0].is_mutable());
    assert_eq!(
        shown(&function, source),
        "Function\n  Identifier f\n  Block\n    Binding (mut=true)\n      Identifier a\n      Identifier b\n"
    );
}

#[test]
fn no_return_kind() {
    let function = parse("fn f(a:b) { let a = b; }").unwrap();
    assert!(function.kind().is_none());
}

#[test]
fn return_kind_needs_a_name() {
    assert_eq!(
        parse("fn f() -> {;}").err(),
        Some(ParserError::UnexpectedToken {
            expected: TokenKind::TokIdentifier,
            actual: TokenKind::TokLeftBrace,
            span: Span::new(10, 11),
        })
    );
}

#[test]
fn empty_braces_are_refused() {
    assert_eq!(
        parse("fn f() {}").err(),
        Some(ParserError::UnexpectedToken {
            expected: TokenKind::KwLet,
            actual: TokenKind::TokRightBrace,
            span: Span::new(8, 9),
        })
    );
}

#[test]
fn other_statements_are_refused() {
    assert_eq!(
        parse("fn f() { a = b; }").err(),
        Some(ParserError::UnexpectedToken {
            expected: TokenKind::KwLet,
            actual: TokenKind::TokIdentifier,
            span: Span::new(9, 10),
        })
    );
}

#[test]
fn second_statement_is_refused() {
    assert_eq!(
        parse("fn f() { let a = b; let c = d; }").err(),
        Some(ParserError::UnexpectedToken {
            expected: TokenKind::TokRightBrace,
            actual: TokenKind::KwLet,
            span: Span::new(20, 23),
        })
    );
}

#[test]
fn binding_errors() {
    assert_eq!(
        parse("fn f() { let = b; }").err(),
        Some(ParserError::UnexpectedToken {
            expected: TokenKind::TokIdentifier,
            actual: TokenKind::TokEquals,
            span: Span::new(13, 14),
        })
    );
    assert_eq!(
        parse("fn f() { let a b; }").err(),
        Some(ParserError::UnexpectedToken {
            expected: TokenKind::TokEquals,
            actual: TokenKind::TokIdentifier,
            span: Span::new(15, 16),
        })
    );
    assert_eq!(
        parse("fn f() { let a = b }").err(),
        Some(ParserError::UnexpectedToken {
            expected: TokenKind::TokSemiColon,
            actual: TokenKind::TokRightBrace,
            span: Span::new(19, 20),
        })
    );
    assert_eq!(
        parse("fn f() { let mut mut a = b; }").err(),
        Some(ParserError::UnexpectedToken {
            expected: TokenKind::TokIdentifier,
            actual: TokenKind::KwMut,
            span: Span::new(17, 20),
        })
    );
}

#[test]
fn error_token_is_refused_where_it_stands() {
    assert_eq!(
        parse("fn f(a:#) {;}").err(),
        Some(ParserError::UnexpectedToken {
            expected: TokenKind::TokIdentifier,
            actual: TokenKind::Error,
            span: Span::new(7, 8),
        })
    );
}

#[test]
fn keyword_is_no_name() {
    assert_eq!(
        parse("fn let() {;}").err(),
        Some(ParserError::UnexpectedToken {
            expected: TokenKind::TokIdentifier,
            actual: TokenKind::KwLet,
            span: Span::new(3, 6),
        })
    );
}

#[test]
fn first_token_must_be_fn() {
    assert_eq!(
        parse("bla()").err(),
        Some(ParserError::UnexpectedToken {
            expected: TokenKind::KwFn,
            actual: TokenKind::TokIdentifier,
            span: Span::new(0, 3),
        })
    );
}

#[test]
fn what_follows_the_function_is_left() {
    let source = "fn f() {;} fn g() {;}";
    let tokens = Lexer::new(source).go();
    let mut parser = Parser::new(&tokens);
    let first = parser.go().unwrap();
    let second = parser.go().unwrap();
    assert_eq!(first.name().span().slice(source), "f");
    assert_eq!(second.name().span().slice(source), "g");
    assert_eq!(parser.go().err(), Some(ParserError::UnexpectedEof { offset: 21 }));
}

#[test]
fn tokens_made_by_hand() {
    let tokens = [
        Token::new(TokenKind::TokSpace, 3),
        Token::new(TokenKind::KwFn, 2),
        Token::new(TokenKind::TokNewline, 2),
        Token::new(TokenKind::TokIdentifier, 300),
        Token::new(TokenKind::TokSemiColon, 1),
    ];
    assert_eq!(
        Parser::new(&tokens).go().err(),
        Some(ParserError::UnexpectedToken {
            expected: TokenKind::TokLeftParen,
            actual: TokenKind::TokSemiColon,
            span: Span::new(307, 308),
        })
    );
}
