use lang_front::lexer::{is_ident_ch, Lexer, Token, TokenKind};
use lang_front::lexer::TokenKind::{
    Error, KwExport, KwFn, KwImport, KwLet, KwMut, TokArrow, TokColon, TokComma, TokDot,
    TokEquals, TokIdentifier, TokLeftAngle, TokLeftBrace, TokLeftParen, TokMinus, TokMinusEquals,
    TokNewline, TokPlus, TokPlusEquals, TokRightAngle, TokRightBrace, TokRightParen, TokSemiColon,
    TokSpace, TokUnderscore,
};

fn lex(source: &str) -> Vec<Token> {
    Lexer::new(source).go()
}

fn pairs(source: &str) -> Vec<(TokenKind, usize)> {
    lex(source).iter().map(|token| (token.kind(), token.size())).collect()
}

#[test]
fn simple() {
    let source = ".,;:=(){}<>--=->++=abc123 _1_ _\t\\let mut fn\n\r\n\r";
    let actual = Lexer::new(&source).go();
    let expected = [
        Token::new(TokDot, 1),
        Token::new(TokComma, 1),
        Token::new(TokSemiColon, 1),
        Token::new(TokColon, 1),
        Token::new(TokEquals, 1),
        Token::new(TokLeftParen, 1),
        Token::new(TokRightParen, 1),
        Token::new(TokLeftBrace, 1),
        Token::new(TokRightBrace, 1),
        Token::new(TokLeftAngle, 1),
        Token::new(TokRightAngle, 1),
        Token::new(TokMinus, 1),
        Token::new(TokMinusEquals, 2),
        Token::new(TokArrow, 2),
        Token::new(TokPlus, 1),
        Token::new(TokPlusEquals, 2),
        Token::new(TokIdentifier, 6),
        Token::new(TokSpace, 1),
        Token::new(TokIdentifier, 3),
        Token::new(TokSpace, 1),
        Token::new(TokUnderscore, 1),
        Token::new(TokSpace, 1),
        Token::new(Error, 1),
        Token::new(KwLet, 3),
        Token::new(TokSpace, 1),
        Token::new(KwMut, 3),
        Token::new(TokSpace, 1),
        Token::new(KwFn, 2),
        Token::new(TokNewline, 1),
        Token::new(TokNewline, 2),
        Token::new(TokNewline, 1),
    ];
    assert_eq!(actual, expected);
}

#[test]
fn empty_text_has_no_tokens() {
    assert_eq!(lex(""), vec![]);
}

#[test]
fn token_accessors() {
    let token = Token::new(TokArrow, 2);
    assert_eq!(token.kind(), TokArrow);
    assert_eq!(token.size(), 2);
    assert!(!token.is_ws());
    assert!(Token::new(TokSpace, 1).is_ws());
    assert!(Token::new(TokNewline, 2).is_ws());
    assert!(!Token::new(TokIdentifier, 1).is_ws());
    assert!(!Token::new(Error, 1).is_ws());
}

#[test]
fn sizes_add_up_to_the_length() {
    let sources = [
        "",
        "fn bla(a:b, c:d,)\n-> e\n{\nlet a = b;\n}",
        ".,;:=(){}<>--=->++=abc123 _1_ _\t\\let mut fn\n\r\n\r",
        "\r\r\n\n\r",
        "---->>==++==",
        "a_b_c __ _ _9 9a",
        "x # y ? z",
    ];
    for source in sources {
        let total: usize = lex(source).iter().map(|token| token.size()).sum();
        assert_eq!(total, source.chars().count());
    }
}

#[test]
fn sizes_count_characters() {
    assert_eq!(pairs("é"), vec![(Error, 1)]);
    assert_eq!(pairs("a→b"), vec![(TokIdentifier, 1), (Error, 1), (TokIdentifier, 1)]);
    let total: usize = lex("let ü = ß;").iter().map(|token| token.size()).sum();
    assert_eq!(total, 10);
}

#[test]
fn crlf_is_one_newline() {
    assert_eq!(pairs("\r\n"), vec![(TokNewline, 2)]);
    assert_eq!(
        pairs("a\r\nb"),
        vec![(TokIdentifier, 1), (TokNewline, 2), (TokIdentifier, 1)]
    );
    assert_eq!(pairs("\r\n\r\n"), vec![(TokNewline, 2), (TokNewline, 2)]);
}

#[test]
fn lone_line_ends() {
    assert_eq!(pairs("\n"), vec![(TokNewline, 1)]);
    assert_eq!(pairs("\r"), vec![(TokNewline, 1)]);
    assert_eq!(pairs("\n\r"), vec![(TokNewline, 1), (TokNewline, 1)]);
    assert_eq!(pairs("\r\r\n"), vec![(TokNewline, 1), (TokNewline, 2)]);
    assert_eq!(pairs("\ra"), vec![(TokNewline, 1), (TokIdentifier, 1)]);
}

#[test]
fn identifier_is_maximal() {
    assert_eq!(pairs("abc123 "), vec![(TokIdentifier, 6), (TokSpace, 1)]);
    assert_eq!(pairs("abc123"), vec![(TokIdentifier, 6)]);
    assert_eq!(pairs("a_b1_"), vec![(TokIdentifier, 5)]);
    assert_eq!(pairs("a-b"), vec![(TokIdentifier, 1), (TokMinus, 1), (TokIdentifier, 1)]);
}

#[test]
fn digits_begin_no_name() {
    assert_eq!(pairs("1a"), vec![(Error, 1), (TokIdentifier, 1)]);
    assert_eq!(pairs("12"), vec![(Error, 1), (Error, 1)]);
}

#[test]
fn underscore_alone_is_placeholder() {
    assert_eq!(pairs("_ "), vec![(TokUnderscore, 1), (TokSpace, 1)]);
    assert_eq!(pairs("_;"), vec![(TokUnderscore, 1), (TokSemiColon, 1)]);
    assert_eq!(pairs("_"), vec![(TokUnderscore, 1)]);
    assert_eq!(pairs("_-"), vec![(TokUnderscore, 1), (TokMinus, 1)]);
}

#[test]
fn underscore_begins_name() {
    assert_eq!(pairs("_1"), vec![(TokIdentifier, 2)]);
    assert_eq!(pairs("__"), vec![(TokIdentifier, 2)]);
    assert_eq!(pairs("_a_ "), vec![(TokIdentifier, 3), (TokSpace, 1)]);
    assert_eq!(pairs("_let"), vec![(TokIdentifier, 4)]);
}

#[test]
fn keywords_are_whole_words() {
    assert_eq!(pairs("export"), vec![(KwExport, 6)]);
    assert_eq!(pairs("fn"), vec![(KwFn, 2)]);
    assert_eq!(pairs("import"), vec![(KwImport, 6)]);
    assert_eq!(pairs("let"), vec![(KwLet, 3)]);
    assert_eq!(pairs("mut"), vec![(KwMut, 3)]);
    assert_eq!(pairs("lets"), vec![(TokIdentifier, 4)]);
    assert_eq!(pairs("le"), vec![(TokIdentifier, 2)]);
    assert_eq!(pairs("Fn"), vec![(TokIdentifier, 2)]);
    assert_eq!(pairs("fn_"), vec![(TokIdentifier, 3)]);
    assert_eq!(pairs("exports"), vec![(TokIdentifier, 7)]);
    assert_eq!(pairs("letmut"), vec![(TokIdentifier, 6)]);
}

#[test]
fn digraphs_need_their_second_character() {
    assert_eq!(pairs("->"), vec![(TokArrow, 2)]);
    assert_eq!(pairs("-="), vec![(TokMinusEquals, 2)]);
    assert_eq!(pairs("+="), vec![(TokPlusEquals, 2)]);
    assert_eq!(pairs("-"), vec![(TokMinus, 1)]);
    assert_eq!(pairs("+"), vec![(TokPlus, 1)]);
    assert_eq!(pairs("+>"), vec![(TokPlus, 1), (TokRightAngle, 1)]);
    assert_eq!(pairs("- >"), vec![(TokMinus, 1), (TokSpace, 1), (TokRightAngle, 1)]);
    assert_eq!(pairs("=>"), vec![(TokEquals, 1), (TokRightAngle, 1)]);
    assert_eq!(pairs("=="), vec![(TokEquals, 1), (TokEquals, 1)]);
    assert_eq!(pairs("-->"), vec![(TokMinus, 1), (TokArrow, 2)]);
}

#[test]
fn whitespace_is_not_merged() {
    assert_eq!(pairs("  \t"), vec![(TokSpace, 1), (TokSpace, 1), (TokSpace, 1)]);
}

#[test]
fn punctuation_is_one_to_one() {
    assert_eq!(
        pairs("(){}<>.,;:="),
        vec![
            (TokLeftParen, 1),
            (TokRightParen, 1),
            (TokLeftBrace, 1),
            (TokRightBrace, 1),
            (TokLeftAngle, 1),
            (TokRightAngle, 1),
            (TokDot, 1),
            (TokComma, 1),
            (TokSemiColon, 1),
            (TokColon, 1),
            (TokEquals, 1),
        ]
    );
}

#[test]
fn unknown_characters_are_error_tokens() {
    assert_eq!(pairs("#"), vec![(Error, 1)]);
    assert_eq!(pairs("a$"), vec![(TokIdentifier, 1), (Error, 1)]);
    assert_eq!(pairs("\\"), vec![(Error, 1)]);
}

#[test]
fn name_characters() {
    assert!(is_ident_ch('a'));
    assert!(is_ident_ch('Z'));
    assert!(is_ident_ch('0'));
    assert!(is_ident_ch('9'));
    assert!(is_ident_ch('_'));
    assert!(!is_ident_ch(' '));
    assert!(!is_ident_ch('-'));
    assert!(!is_ident_ch('é'));
}

#[test]
fn longest_word_that_fits() {
    let source = "a".repeat(65535);
    assert_eq!(Lexer::new(&source).try_go(), Some(vec![Token::new(TokIdentifier, 65535)]));
    assert_eq!(pairs(&source), vec![(TokIdentifier, 65535)]);
}

#[test]
fn word_too_long_is_refused() {
    let source = "a".repeat(65536);
    assert_eq!(Lexer::new(&source).try_go(), None);
    let source = format!("let x = {};", "_".repeat(70000));
    assert_eq!(Lexer::new(&source).try_go(), None);
}

#[test]
fn long_text_of_short_tokens() {
    let source = "ab ".repeat(40000);
    let tokens = Lexer::new(&source).try_go().unwrap();
    assert_eq!(tokens.len(), 80000);
    assert_eq!(tokens[0], Token::new(TokIdentifier, 2));
    assert_eq!(tokens[79999], Token::new(TokSpace, 1));
}
