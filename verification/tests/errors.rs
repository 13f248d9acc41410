use jasm_lexer::render::render_error;
use jasm_lexer::scan::tokenize;
use jasm_lexer::token::{span_slice, LexError, LexErrorKind};

fn fail(src: &str) -> LexError {
    tokenize(src.as_bytes(), b"test.jasm").unwrap_err()
}

fn snippet_text(src: &str, e: &LexError) -> String {
    String::from_utf8(span_slice(src.as_bytes(), e.snippet).to_vec()).unwrap()
}

#[test]
fn invalid_hex_digits_are_an_error_not_an_identifier() {
    let e = fail("0xZZ");
    assert_eq!(e.kind, LexErrorKind::InvalidToken);
    assert_eq!((e.line, e.col), (1, 4));
    assert_eq!(snippet_text("0xZZ", &e), "0xZZ");
    assert_eq!(e.filename, b"test.jasm".to_vec());
}

#[test]
fn empty_hex_prefix_is_invalid() {
    assert_eq!(fail("0x").kind, LexErrorKind::InvalidToken);
}

#[test]
fn bad_binary_digit_is_invalid() {
    assert_eq!(fail("0b2").kind, LexErrorKind::InvalidToken);
}

#[test]
fn hex_overflow_is_invalid() {
    assert_eq!(fail("0x8000000000000000").kind, LexErrorKind::InvalidToken);
}

#[test]
fn trailing_underscore_after_digit_is_invalid() {
    assert_eq!(fail("1_").kind, LexErrorKind::InvalidToken);
}

#[test]
fn dotted_identifier_is_invalid() {
    assert_eq!(fail("a.b").kind, LexErrorKind::InvalidToken);
}

#[test]
fn two_dots_in_number_are_invalid() {
    assert_eq!(fail("1.2.3").kind, LexErrorKind::InvalidToken);
}

#[test]
fn lone_dot_is_invalid() {
    assert_eq!(fail(".").kind, LexErrorKind::InvalidToken);
}

#[test]
fn unknown_symbol_reports_the_character() {
    let e = fail("@");
    assert_eq!(e.kind, LexErrorKind::UnexpectedCharacter(b'@'));
    assert_eq!((e.line, e.col), (1, 1));
    assert_eq!(snippet_text("@", &e), "@");
}

#[test]
fn unknown_symbol_position_on_later_line() {
    let e = fail("let\n @");
    assert_eq!(e.kind, LexErrorKind::UnexpectedCharacter(b'@'));
    assert_eq!((e.line, e.col), (2, 2));
    assert_eq!(snippet_text("let\n @", &e), " @");
}

#[test]
fn unterminated_string_names_the_missing_quote() {
    let e = fail("\"abc");
    assert_eq!(e.kind, LexErrorKind::UnexpectedEof(b'"'));
    assert_eq!((e.line, e.col), (1, 4));
    assert_eq!(snippet_text("\"abc", &e), "\"abc");
}

#[test]
fn unterminated_single_quote_names_that_quote() {
    let e = fail("'x");
    assert_eq!(e.kind, LexErrorKind::UnexpectedEof(b'\''));
}

#[test]
fn lone_quote_at_end_of_input() {
    let e = fail("\"");
    assert_eq!(e.kind, LexErrorKind::UnexpectedEof(b'"'));
    assert_eq!((e.line, e.col), (1, 1));
    assert_eq!(snippet_text("\"", &e), "\"");
}

#[test]
fn scanning_is_fail_fast() {
    let e = fail("@ let x");
    assert_eq!(e.kind, LexErrorKind::UnexpectedCharacter(b'@'));
}

#[test]
fn rendered_unexpected_character_message() {
    let src = "@";
    let e = fail(src);
    let msg = String::from_utf8(render_error(&e, src.as_bytes())).unwrap();
    assert_eq!(msg, "test.jasm:1:1\nSyntax error:\n\t@\n\tUnexpected character '@'");
}

#[test]
fn rendered_unterminated_string_message() {
    let src = "\"abc";
    let e = fail(src);
    let msg = String::from_utf8(render_error(&e, src.as_bytes())).unwrap();
    assert_eq!(
        msg,
        "test.jasm:1:4\nSyntax error:\n\t\"abc\n\tUnexpectedly reached end of file! Expected a '\"'"
    );
}

#[test]
fn rendered_invalid_token_message() {
    let src = "let\n  0xZZ";
    let e = fail(src);
    let msg = String::from_utf8(render_error(&e, src.as_bytes())).unwrap();
    assert_eq!(msg, "test.jasm:2:6\nSyntax error:\n\t  0xZZ\n\tInvalid token");
}

#[test]
fn rendered_message_with_multi_digit_position() {
    let src = "                  @";
    let e = fail(src);
    assert_eq!((e.line, e.col), (1, 19));
    let msg = String::from_utf8(render_error(&e, src.as_bytes())).unwrap();
    assert!(msg.starts_with("test.jasm:1:19\n"));
}
