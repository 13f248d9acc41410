//! Data carried out of the scanner: tokens with their positions, and the
//! single lexical error that ends a failed scan.
//!
//! Textual payloads (identifier names, string contents, float lexemes) are
//! half-open byte ranges into the original source buffer, so the buffer must
//! outlive the token sequence; nothing is copied out of it.

use vstd::prelude::*;

verus! {

/// A half-open range `start..end` of byte positions into the source buffer.
#[derive(Clone, Copy, PartialEq, Eq, Structural, Debug)]
pub struct Span {
    pub start: usize,
    pub end: usize,
}

impl Span {
    /// The span lies within a buffer of `len` bytes.
    pub open spec fn wf(self, len: int) -> bool {
        self.start <= self.end <= len
    }

    /// The bytes the span denotes within `code`.
    pub open spec fn text(self, code: Seq<u8>) -> Seq<u8> {
        code.subrange(self.start as int, self.end as int)
    }
}

/// Extract the bytes a span denotes, as a borrowed slice of the buffer.
pub fn span_slice<'a>(code: &'a [u8], s: Span) -> (r: &'a [u8])
    requires
        s.wf(code@.len() as int),
    ensures
        r@ == s.text(code@),
{
    vstd::slice::slice_subrange(code, s.start, s.end)
}

/// What a single token is: an operator, a punctuation mark, a literal,
/// an identifier, or one of the fixed keywords.
#[derive(Clone, Copy, PartialEq, Eq, Structural, Debug)]
pub enum TokenKind {
    Plus,
    Minus,
    Divide,
    Multiply,
    Modulo,
    /// A decimal, hexadecimal (`0x`) or binary (`0b`) integer literal.
    IntegerLiteral(i64),
    /// A float literal; the span holds its lexeme within the source buffer.
    FloatLiteral(Span),
    /// A quoted string; the span holds the text strictly between the quotes.
    StringLiteral(Span),
    /// An identifier; the span holds its lexeme within the source buffer.
    Identifier(Span),
    Let,
    Var,
    Def,
    Func,
    Struct,
    End,
    Repeat,
    Until,
    Comma,
    SemiColon,
    Colon,
    Equals,
    Or,
    And,
    Xor,
}

/// A classified lexeme together with the 1-based line and column of the
/// first byte of the lexeme that produced it.
#[derive(Clone, Copy, PartialEq, Eq, Structural, Debug)]
pub struct Token {
    pub kind: TokenKind,
    pub line: usize,
    pub col: usize,
}

/// The ways a scan can fail.
#[derive(Clone, Copy, PartialEq, Eq, Structural, Debug)]
pub enum LexErrorKind {
    /// Input ended inside a string literal; the payload is the quote byte
    /// that was still expected.
    UnexpectedEof(u8),
    /// A word run matched no keyword, numeral, float or identifier rule.
    InvalidToken,
    /// A byte that belongs to no recognized character class.
    UnexpectedCharacter(u8),
}

/// The single error a failed scan reports: what went wrong, where, under
/// which filename label, and a snippet span into the source buffer showing
/// the text that was being scanned when the failure occurred.
#[derive(Debug)]
pub struct LexError {
    pub kind: LexErrorKind,
    pub line: usize,
    pub col: usize,
    pub filename: Vec<u8>,
    pub snippet: Span,
}

} // verus!
