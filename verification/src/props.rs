//! Laws of the scanner, stated and proved over the scan and classification
//! specifications.

use vstd::prelude::*;
use crate::token::{LexErrorKind, Span, Token, TokenKind};
use crate::classify::{
    classify_run, is_word_byte, keyword_token, kw_def, kw_end, kw_func, kw_let, kw_repeat,
    kw_struct, kw_until, kw_var,
};
use crate::scan::{
    find_byte, is_quote, outcome_prepend, run_end, lemma_find_byte, lemma_run_end, spec_scan,
    LexFail, ScanOutcome,
};

verus! {

/// Keywords take precedence over every other class: a lexeme that spells
/// a keyword always classifies as that keyword's kind, and in particular
/// never as an identifier, even though every keyword spelling also
/// satisfies the identifier pattern.
pub proof fn lemma_keyword_precedence(code: Seq<u8>, i: int, j: int)
    requires
        0 <= i <= j <= code.len(),
        keyword_token(code.subrange(i, j)) is Some,
    ensures
        classify_run(code, i, j) == keyword_token(code.subrange(i, j)),
        !(classify_run(code, i, j) matches Some(TokenKind::Identifier(_))),
{
}

/// A run opened by the `0x` or `0b` numeric prefix commits to integer
/// parsing: it classifies as an integer literal or fails as an invalid
/// token, and is never reinterpreted as an identifier or a float.
pub proof fn lemma_numeric_prefix_commitment(code: Seq<u8>, i: int, j: int)
    requires
        0 <= i <= j <= code.len(),
        j - i >= 2,
        code[i] == 48,
        code[i + 1] == 120 || code[i + 1] == 98,
    ensures
        classify_run(code, i, j) is None || classify_run(code, i, j) matches Some(
            TokenKind::IntegerLiteral(_),
        ),
{
    let lex = code.subrange(i, j);
    assert(lex[0] == 48 && lex[1] == code[i + 1]);
    assert(kw_let()[0] == 108 && kw_var()[0] == 118 && kw_def()[0] == 100 && kw_func()[0] == 102
        && kw_struct()[0] == 115 && kw_end()[0] == 101 && kw_repeat()[0] == 114 && kw_until()[0]
        == 117);
    assert(keyword_token(lex) is None);
}

/// Maximal munch: a word byte opens a run that extends as far as word
/// bytes reach — every byte of the run is a word byte and the run stops
/// only at the buffer's end or at a non-word byte — and classification
/// applies to that whole run, never to a shorter prefix. A successful
/// classification yields one token carrying the position of the run's
/// first byte; a failed one ends the scan with an invalid-token error.
pub proof fn lemma_maximal_munch(code: Seq<u8>, i: int, line: int, col: int)
    requires
        0 <= i < code.len(),
        is_word_byte(code[i]),
    ensures
        i < run_end(code, i) <= code.len(),
        forall|k: int| i <= k < run_end(code, i) ==> is_word_byte(code[k]),
        run_end(code, i) == code.len() || !is_word_byte(code[run_end(code, i)]),
        (match classify_run(code, i, run_end(code, i)) {
            Some(kind) => spec_scan(code, i, line, col) == outcome_prepend(
                Token { kind, line: line as usize, col: col as usize },
                spec_scan(code, run_end(code, i), line, col + (run_end(code, i) - i)),
            ),
            None => spec_scan(code, i, line, col) matches ScanOutcome::Failed(f)
                && f.kind == LexErrorKind::InvalidToken,
        }),
{
    lemma_run_end(code, i);
}

/// A string literal's payload is the text strictly between the quotes:
/// both quote bytes are excluded, and no byte of the payload equals the
/// delimiter. When no closing quote exists, the scan ends with an
/// end-of-input error naming the missing quote byte.
pub proof fn lemma_string_literal(code: Seq<u8>, i: int, line: int, col: int)
    requires
        0 <= i < code.len(),
        is_quote(code[i]),
    ensures
        (match find_byte(code, i + 1, code[i]) {
            Some(x) => {
                &&& i < x < code.len() && code[x] == code[i]
                &&& forall|k: int| i + 1 <= k < x ==> code[k] != code[i]
                &&& spec_scan(code, i, line, col) == outcome_prepend(
                    Token {
                        kind: TokenKind::StringLiteral(
                            Span { start: (i + 1) as usize, end: x as usize },
                        ),
                        line: line as usize,
                        col: col as usize,
                    },
                    spec_scan(code, x + 1, line, col + (x + 1 - i)),
                )
            },
            None => spec_scan(code, i, line, col) matches ScanOutcome::Failed(f) && f.kind
                == LexErrorKind::UnexpectedEof(code[i]),
        }),
{
    lemma_find_byte(code, i + 1, code[i]);
}

/// Empty input scans to the empty token sequence, with no error.
pub proof fn lemma_empty_input()
    ensures
        spec_scan(Seq::<u8>::empty(), 0, 1, 1) == ScanOutcome::Tokens(Seq::<Token>::empty()),
{
}

} // verus!
