use jasm_lexer::scan::tokenize;
use jasm_lexer::token::{span_slice, LexError, Span, Token, TokenKind};

fn scan(src: &str) -> Result<Vec<Token>, LexError> {
    tokenize(src.as_bytes(), b"test.jasm")
}

fn kinds(src: &str) -> Vec<TokenKind> {
    scan(src).unwrap().into_iter().map(|t| t.kind).collect()
}

fn text(src: &str, kind: &TokenKind) -> String {
    let span = match kind {
        TokenKind::Identifier(s) => *s,
        TokenKind::StringLiteral(s) => *s,
        TokenKind::FloatLiteral(s) => *s,
        other => panic!("no text payload in {:?}", other),
    };
    String::from_utf8(span_slice(src.as_bytes(), span).to_vec()).unwrap()
}

#[test]
fn empty_input_yields_no_tokens() {
    assert_eq!(scan("").unwrap(), vec![]);
}

#[test]
fn whitespace_only_yields_no_tokens() {
    assert_eq!(scan("  \t\n \t ").unwrap(), vec![]);
}

#[test]
fn keywords_become_keyword_kinds() {
    assert_eq!(
        kinds("let var def func struct end repeat until"),
        vec![
            TokenKind::Let,
            TokenKind::Var,
            TokenKind::Def,
            TokenKind::Func,
            TokenKind::Struct,
            TokenKind::End,
            TokenKind::Repeat,
            TokenKind::Until,
        ]
    );
}

#[test]
fn keyword_with_suffix_is_one_identifier() {
    let toks = scan("endx").unwrap();
    assert_eq!(toks.len(), 1);
    assert_eq!(text("endx", &toks[0].kind), "endx");
    assert!(matches!(toks[0].kind, TokenKind::Identifier(_)));
}

#[test]
fn maximal_munch_keeps_digits_in_identifier() {
    let toks = scan("abc123").unwrap();
    assert_eq!(toks.len(), 1);
    assert!(matches!(toks[0].kind, TokenKind::Identifier(_)));
    assert_eq!(text("abc123", &toks[0].kind), "abc123");
}

#[test]
fn hex_literal_value() {
    assert_eq!(kinds("0x1F"), vec![TokenKind::IntegerLiteral(31)]);
    assert_eq!(kinds("0x1f"), vec![TokenKind::IntegerLiteral(31)]);
}

#[test]
fn binary_literal_value() {
    assert_eq!(kinds("0b101"), vec![TokenKind::IntegerLiteral(5)]);
}

#[test]
fn decimal_literal_value() {
    assert_eq!(kinds("42"), vec![TokenKind::IntegerLiteral(42)]);
    assert_eq!(kinds("007"), vec![TokenKind::IntegerLiteral(7)]);
}

#[test]
fn float_literal_lexeme() {
    let toks = scan("3.14").unwrap();
    assert_eq!(toks.len(), 1);
    assert!(matches!(toks[0].kind, TokenKind::FloatLiteral(_)));
    assert_eq!(text("3.14", &toks[0].kind).parse::<f64>().unwrap(), 3.14);
}

#[test]
fn float_forms() {
    assert!(matches!(kinds("5.")[0], TokenKind::FloatLiteral(_)));
    assert!(matches!(kinds(".5")[0], TokenKind::FloatLiteral(_)));
    assert!(matches!(kinds("1e5")[0], TokenKind::FloatLiteral(_)));
    assert!(matches!(kinds("1.5e3")[0], TokenKind::FloatLiteral(_)));
    assert!(matches!(kinds("12E4")[0], TokenKind::FloatLiteral(_)));
}

#[test]
fn largest_i64_stays_integer() {
    assert_eq!(
        kinds("9223372036854775807"),
        vec![TokenKind::IntegerLiteral(i64::MAX)]
    );
}

#[test]
fn decimal_overflow_falls_through_to_float() {
    let src = "9223372036854775808";
    let toks = scan(src).unwrap();
    assert_eq!(toks.len(), 1);
    assert!(matches!(toks[0].kind, TokenKind::FloatLiteral(_)));
    assert_eq!(text(src, &toks[0].kind), src);
}

#[test]
fn special_float_spellings() {
    assert!(matches!(kinds("inf")[0], TokenKind::FloatLiteral(_)));
    assert!(matches!(kinds("Infinity")[0], TokenKind::FloatLiteral(_)));
    let toks = scan("NaN").unwrap();
    assert!(matches!(toks[0].kind, TokenKind::FloatLiteral(_)));
    assert!(text("NaN", &toks[0].kind).parse::<f64>().unwrap().is_nan());
}

#[test]
fn special_float_prefix_is_an_identifier() {
    let toks = scan("info").unwrap();
    assert_eq!(toks.len(), 1);
    assert!(matches!(toks[0].kind, TokenKind::Identifier(_)));
    assert_eq!(text("info", &toks[0].kind), "info");
}

#[test]
fn underscore_identifier() {
    let toks = scan("_foo9").unwrap();
    assert_eq!(toks.len(), 1);
    assert!(matches!(toks[0].kind, TokenKind::Identifier(_)));
    assert_eq!(text("_foo9", &toks[0].kind), "_foo9");
}

#[test]
fn string_payload_excludes_quotes() {
    let src = "\"hello\"";
    let toks = scan(src).unwrap();
    assert_eq!(toks.len(), 1);
    assert!(matches!(toks[0].kind, TokenKind::StringLiteral(_)));
    assert_eq!(text(src, &toks[0].kind), "hello");
}

#[test]
fn single_quoted_string() {
    let src = "'ab'";
    let toks = scan(src).unwrap();
    assert_eq!(toks.len(), 1);
    assert_eq!(text(src, &toks[0].kind), "ab");
}

#[test]
fn empty_string_literal() {
    let src = "\"\"";
    let toks = scan(src).unwrap();
    assert_eq!(toks.len(), 1);
    assert_eq!(text(src, &toks[0].kind), "");
}

#[test]
fn backslash_has_no_special_meaning() {
    let src = "\"a\\b\"";
    let toks = scan(src).unwrap();
    assert_eq!(toks.len(), 1);
    assert_eq!(text(src, &toks[0].kind), "a\\b");
}

#[test]
fn all_operators_and_punctuation() {
    assert_eq!(
        kinds(", : = ; | & ^ / * + - %"),
        vec![
            TokenKind::Comma,
            TokenKind::Colon,
            TokenKind::Equals,
            TokenKind::SemiColon,
            TokenKind::Or,
            TokenKind::And,
            TokenKind::Xor,
            TokenKind::Divide,
            TokenKind::Multiply,
            TokenKind::Plus,
            TokenKind::Minus,
            TokenKind::Modulo,
        ]
    );
}

#[test]
fn line_and_column_across_newline() {
    let toks = scan("let\n  x").unwrap();
    assert_eq!(toks.len(), 2);
    assert_eq!(toks[0], Token { kind: TokenKind::Let, line: 1, col: 1 });
    assert_eq!(toks[1].line, 2);
    assert_eq!(toks[1].col, 3);
    assert!(matches!(toks[1].kind, TokenKind::Identifier(_)));
}

#[test]
fn token_column_points_at_lexeme_start() {
    let toks = scan("  until 12345").unwrap();
    assert_eq!(toks[0].col, 3);
    assert_eq!(toks[1].col, 9);
    let toks = scan("a+b").unwrap();
    assert_eq!((toks[0].col, toks[1].col, toks[2].col), (1, 2, 3));
}

#[test]
fn string_column_points_at_opening_quote() {
    let toks = scan("  'ab' x").unwrap();
    assert_eq!(toks[0].col, 3);
    assert_eq!(toks[1].col, 8);
}

#[test]
fn string_body_advances_columns_not_lines() {
    let toks = scan("\"a\nb\" x").unwrap();
    assert_eq!(toks.len(), 2);
    assert_eq!(text("\"a\nb\" x", &toks[0].kind), "a\nb");
    assert_eq!(toks[1].line, 1);
    assert_eq!(toks[1].col, 7);
}

#[test]
fn adjacent_run_and_operator() {
    let toks = scan("x=1;").unwrap();
    assert_eq!(toks.len(), 4);
    assert_eq!(toks[1].kind, TokenKind::Equals);
    assert_eq!(toks[2].kind, TokenKind::IntegerLiteral(1));
    assert_eq!(toks[3].kind, TokenKind::SemiColon);
    assert_eq!((toks[0].col, toks[1].col, toks[2].col, toks[3].col), (1, 2, 3, 4));
}

#[test]
fn rescanning_gives_identical_tokens() {
    let src = "let x = 0x1F; \"s\" 3.5\nrepeat until end";
    let first = scan(src).unwrap();
    let second = scan(src).unwrap();
    assert_eq!(first, second);
}

#[test]
fn small_program_full_token_sequence() {
    let src = "def f:\n  var y = 2 + 3.5;\nend";
    let toks = scan(src).unwrap();
    let expect = vec![
        Token { kind: TokenKind::Def, line: 1, col: 1 },
        Token { kind: TokenKind::Identifier(Span { start: 4, end: 5 }), line: 1, col: 5 },
        Token { kind: TokenKind::Colon, line: 1, col: 6 },
        Token { kind: TokenKind::Var, line: 2, col: 3 },
        Token { kind: TokenKind::Identifier(Span { start: 13, end: 14 }), line: 2, col: 7 },
        Token { kind: TokenKind::Equals, line: 2, col: 9 },
        Token { kind: TokenKind::IntegerLiteral(2), line: 2, col: 11 },
        Token { kind: TokenKind::Plus, line: 2, col: 13 },
        Token { kind: TokenKind::FloatLiteral(Span { start: 21, end: 24 }), line: 2, col: 15 },
        Token { kind: TokenKind::SemiColon, line: 2, col: 18 },
        Token { kind: TokenKind::End, line: 3, col: 1 },
    ];
    assert_eq!(toks, expect);
    assert_eq!(text(src, &toks[8].kind), "3.5");
}
