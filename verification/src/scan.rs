//! The scan loop: a single forward pass over the source bytes, tracking
//! 1-based line and column, grouping maximal word runs for the classifier,
//! scanning quoted strings, and emitting one-byte operator tokens, until the
//! input ends or the first lexical error.
//!
//! `spec_scan` states the whole protocol as a recursive function of the
//! buffer and the cursor state; `tokenize` is proved to return exactly its
//! result.

use vstd::prelude::*;
use crate::token::{LexError, LexErrorKind, Span, Token, TokenKind};
use crate::classify::{classify_run, classify_token, is_newline, is_space, is_word_byte};

verus! {

/// What a whole scan yields: the complete token sequence, or the first
/// lexical failure with its position and snippet.
pub enum ScanOutcome {
    Tokens(Seq<Token>),
    Failed(LexFail),
}

/// A lexical failure as the scan protocol states it: the kind, the 1-based
/// line and column the scanner reports, and the snippet span into the
/// source buffer.
pub struct LexFail {
    pub kind: LexErrorKind,
    pub line: int,
    pub col: int,
    pub snippet: Span,
}

/// The end of the maximal word run that starts at `i`: the first position
/// at or after `i` holding no word byte.
pub open spec fn run_end(code: Seq<u8>, i: int) -> int
    decreases code.len() - i,
{
    if 0 <= i < code.len() && is_word_byte(code[i]) {
        run_end(code, i + 1)
    } else {
        i
    }
}

/// The maximal-munch shape of a word run: `run_end` moves past at least
/// the byte at `i`, every byte before it is a word byte, and the run is
/// not extendable — it stops only at the buffer's end or at a non-word
/// byte. The scanner therefore never splits a word run.
pub proof fn lemma_run_end(code: Seq<u8>, i: int)
    requires
        0 <= i <= code.len(),
    ensures
        i <= run_end(code, i) <= code.len(),
        i < code.len() && is_word_byte(code[i]) ==> i + 1 <= run_end(code, i),
        forall|k: int| i <= k < run_end(code, i) ==> is_word_byte(code[k]),
        run_end(code, i) == code.len() || !is_word_byte(code[run_end(code, i)]),
    decreases code.len() - i,
{
    if i < code.len() && is_word_byte(code[i]) {
        lemma_run_end(code, i + 1);
    }
}

/// The first position at or after `i` holding the byte `q`, if any.
pub open spec fn find_byte(code: Seq<u8>, i: int, q: u8) -> Option<int>
    decreases code.len() - i,
{
    if !(0 <= i < code.len()) {
        None
    } else if code[i] == q {
        Some(i)
    } else {
        find_byte(code, i + 1, q)
    }
}

/// What `find_byte` means: a found position holds `q` and nothing before
/// it does; when nothing is found, `q` occurs nowhere at or after `i`.
/// For a string literal opened by a quote this is the payload boundary:
/// the text strictly between the quotes contains no closing quote.
pub proof fn lemma_find_byte(code: Seq<u8>, i: int, q: u8)
    requires
        0 <= i <= code.len(),
    ensures
        match find_byte(code, i, q) {
            Some(x) => i <= x < code.len() && code[x] == q && forall|k: int|
                i <= k < x ==> code[k] != q,
            None => forall|k: int| i <= k < code.len() ==> code[k] != q,
        },
    decreases code.len() - i,
{
    if i < code.len() && code[i] != q {
        lemma_find_byte(code, i + 1, q);
    }
}

/// The token kind of a one-byte operator or punctuation mark, if any.
pub open spec fn symbol_token(b: u8) -> Option<TokenKind> {
    if b == 44 {
        Some(TokenKind::Comma)
    } else if b == 58 {
        Some(TokenKind::Colon)
    } else if b == 61 {
        Some(TokenKind::Equals)
    } else if b == 59 {
        Some(TokenKind::SemiColon)
    } else if b == 124 {
        Some(TokenKind::Or)
    } else if b == 38 {
        Some(TokenKind::And)
    } else if b == 94 {
        Some(TokenKind::Xor)
    } else if b == 47 {
        Some(TokenKind::Divide)
    } else if b == 42 {
        Some(TokenKind::Multiply)
    } else if b == 43 {
        Some(TokenKind::Plus)
    } else if b == 45 {
        Some(TokenKind::Minus)
    } else if b == 37 {
        Some(TokenKind::Modulo)
    } else {
        None
    }
}

/// A quote byte: `"` or `'`.
pub open spec fn is_quote(b: u8) -> bool {
    b == 34 || b == 39
}

/// Put a token in front of a scan outcome; a failure swallows the token,
/// since a failed scan returns no partial token list.
pub open spec fn outcome_prepend(t: Token, o: ScanOutcome) -> ScanOutcome {
    match o {
        ScanOutcome::Tokens(ts) => ScanOutcome::Tokens(seq![t] + ts),
        ScanOutcome::Failed(e) => ScanOutcome::Failed(e),
    }
}

/// Put an already-emitted token sequence in front of a scan outcome.
pub open spec fn outcome_prepend_all(ts: Seq<Token>, o: ScanOutcome) -> ScanOutcome {
    match o {
        ScanOutcome::Tokens(rest) => ScanOutcome::Tokens(ts + rest),
        ScanOutcome::Failed(e) => ScanOutcome::Failed(e),
    }
}

/// The scan protocol from cursor position `i` at 1-based position
/// (`line`, `col`).
///
/// Each byte consumed advances the column by one, except a newline, which
/// resets the column to 1 and advances the line. A word byte opens a
/// maximal word run, classified whole; a failed classification is an
/// invalid-token error at the run's last column, with a snippet from the
/// start of the current line through the run. A quote opens a string
/// literal whose payload is the text strictly between the quotes; column
/// tracking continues through the body, and a missing closing quote is an
/// end-of-input error naming the quote. A one-byte operator yields its
/// token at once, and any other byte is an unexpected-character error.
/// Every token carries the line and column of the first byte of its
/// lexeme.
pub open spec fn spec_scan(code: Seq<u8>, i: int, line: int, col: int) -> ScanOutcome
    decreases code.len() - i,
        via spec_scan_decreases
{
    if !(0 <= i < code.len()) {
        ScanOutcome::Tokens(Seq::empty())
    } else {
        let b = code[i];
        if is_space(b) {
            spec_scan(code, i + 1, line, col + 1)
        } else if is_newline(b) {
            spec_scan(code, i + 1, line + 1, 1)
        } else if is_word_byte(b) {
            let j = run_end(code, i);
            match classify_run(code, i, j) {
                Some(kind) => outcome_prepend(
                    Token { kind, line: line as usize, col: col as usize },
                    spec_scan(code, j, line, col + (j - i)),
                ),
                None => ScanOutcome::Failed(
                    LexFail {
                        kind: LexErrorKind::InvalidToken,
                        line,
                        col: col + (j - i) - 1,
                        snippet: Span { start: (i - (col - 1)) as usize, end: j as usize },
                    },
                ),
            }
        } else if symbol_token(b) is Some {
            outcome_prepend(
                Token {
                    kind: symbol_token(b).unwrap(),
                    line: line as usize,
                    col: col as usize,
                },
                spec_scan(code, i + 1, line, col + 1),
            )
        } else if is_quote(b) {
            match find_byte(code, i + 1, b) {
                Some(x) => outcome_prepend(
                    Token {
                        kind: TokenKind::StringLiteral(
                            Span { start: (i + 1) as usize, end: x as usize },
                        ),
                        line: line as usize,
                        col: col as usize,
                    },
                    spec_scan(code, x + 1, line, col + (x + 1 - i)),
                ),
                None => ScanOutcome::Failed(
                    LexFail {
                        kind: LexErrorKind::UnexpectedEof(b),
                        line,
                        col: col + (code.len() - 1 - i),
                        snippet: Span {
                            start: (i - (col - 1)) as usize,
                            end: code.len() as usize,
                        },
                    },
                ),
            }
        } else {
            ScanOutcome::Failed(
                LexFail {
                    kind: LexErrorKind::UnexpectedCharacter(b),
                    line,
                    col,
                    snippet: Span { start: (i - (col - 1)) as usize, end: (i + 1) as usize },
                },
            )
        }
    }
}

#[via_fn]
proof fn spec_scan_decreases(code: Seq<u8>, i: int, line: int, col: int) {
    if 0 <= i < code.len() {
        lemma_run_end(code, i);
        lemma_find_byte(code, i + 1, code[i]);
    }
}

/// Prepending token by token agrees with prepending a pushed sequence.
proof fn lemma_prepend_all_push(ts: Seq<Token>, t: Token, o: ScanOutcome)
    ensures
        outcome_prepend_all(ts.push(t), o) == outcome_prepend_all(ts, outcome_prepend(t, o)),
{
    match o {
        ScanOutcome::Tokens(rest) => {
            assert(ts.push(t) + rest =~= ts + (seq![t] + rest));
        },
        ScanOutcome::Failed(_) => {},
    }
}


/// Whether `b` is a word byte, matching `is_word_byte`.
fn word_byte(b: u8) -> (r: bool)
    ensures
        r == is_word_byte(b),
{
    (97 <= b && b <= 122) || (65 <= b && b <= 90) || (48 <= b && b <= 57) || b == 95 || b == 46
}

/// The one-byte operator token for `b`, matching `symbol_token`.
fn symbol_of(b: u8) -> (r: Option<TokenKind>)
    ensures
        r == symbol_token(b),
{
    if b == 44 {
        Some(TokenKind::Comma)
    } else if b == 58 {
        Some(TokenKind::Colon)
    } else if b == 61 {
        Some(TokenKind::Equals)
    } else if b == 59 {
        Some(TokenKind::SemiColon)
    } else if b == 124 {
        Some(TokenKind::Or)
    } else if b == 38 {
        Some(TokenKind::And)
    } else if b == 94 {
        Some(TokenKind::Xor)
    } else if b == 47 {
        Some(TokenKind::Divide)
    } else if b == 42 {
        Some(TokenKind::Multiply)
    } else if b == 43 {
        Some(TokenKind::Plus)
    } else if b == 45 {
        Some(TokenKind::Minus)
    } else if b == 37 {
        Some(TokenKind::Modulo)
    } else {
        None
    }
}

/// Scan the whole buffer under the given filename label: the complete
/// ordered token sequence on success, or the first lexical error alone,
/// exactly as `spec_scan` decides from position 0 at line 1, column 1.
/// The scan is fail-fast: no tokens accompany an error, and nothing past
/// the failing byte is examined.
pub fn tokenize(code: &[u8], filename: &[u8]) -> (r: Result<Vec<Token>, LexError>)
    requires
        code@.len() < usize::MAX,
    ensures
        match r {
            Ok(toks) => spec_scan(code@, 0, 1, 1) == ScanOutcome::Tokens(toks@),
            Err(e) => {
                &&& spec_scan(code@, 0, 1, 1) == ScanOutcome::Failed(
                    LexFail {
                        kind: e.kind,
                        line: e.line as int,
                        col: e.col as int,
                        snippet: e.snippet,
                    },
                )
                &&& e.filename@ == filename@
                &&& e.snippet.wf(code@.len() as int)
                &&& e.line >= 1 && e.col >= 1
            },
        },
{
    let len = code.len();
    let mut toks: Vec<Token> = Vec::new();
    let mut i: usize = 0;
    let mut line: usize = 1;
    let mut col: usize = 1;
    while i < len
        invariant
            len == code@.len(),
            len < usize::MAX,
            i <= len,
            1 <= col && col <= i + 1,
            1 <= line && line <= i + 1,
            spec_scan(code@, 0, 1, 1) == outcome_prepend_all(
                toks@,
                spec_scan(code@, i as int, line as int, col as int),
            ),
        decreases len - i,
    {
        let ghost cur = spec_scan(code@, i as int, line as int, col as int);
        let b = code[i];
        if b == 32 || b == 9 {
            proof {
                assert(cur == spec_scan(code@, i + 1, line as int, col + 1));
            }
            i = i + 1;
            col = col + 1;
        } else if b == 10 {
            proof {
                assert(cur == spec_scan(code@, i + 1, line + 1, 1));
            }
            i = i + 1;
            line = line + 1;
            col = 1;
        } else if word_byte(b) {
            let mut j = i + 1;
            proof {
                assert(run_end(code@, i as int) == run_end(code@, j as int));
            }
            while j < len && word_byte(code[j])
                invariant
                    len == code@.len(),
                    i < j <= len,
                    run_end(code@, i as int) == run_end(code@, j as int),
                decreases len - j,
            {
                proof {
                    assert(run_end(code@, j as int) == run_end(code@, j + 1));
                }
                j = j + 1;
            }
            proof {
                assert(run_end(code@, j as int) == j);
                lemma_run_end(code@, i as int);
            }
            match classify_token(code, i, j) {
                Some(kind) => {
                    let t = Token { kind, line, col };
                    proof {
                        assert(cur == outcome_prepend(
                            t,
                            spec_scan(code@, j as int, line as int, col + (j - i)),
                        ));
                        lemma_prepend_all_push(
                            toks@,
                            t,
                            spec_scan(code@, j as int, line as int, col + (j - i)),
                        );
                    }
                    toks.push(t);
                    col = col + (j - i);
                    i = j;
                },
                None => {
                    return Err(
                        LexError {
                            kind: LexErrorKind::InvalidToken,
                            line,
                            col: col + (j - i) - 1,
                            filename: vstd::slice::slice_to_vec(filename),
                            snippet: Span { start: i + 1 - col, end: j },
                        },
                    );
                },
            }
        } else {
            let sym = symbol_of(b);
            if let Some(kind) = sym {
                let t = Token { kind, line, col };
                proof {
                    assert(cur == outcome_prepend(
                        t,
                        spec_scan(code@, i + 1, line as int, col + 1),
                    ));
                    lemma_prepend_all_push(
                        toks@,
                        t,
                        spec_scan(code@, i + 1, line as int, col + 1),
                    );
                }
                toks.push(t);
                i = i + 1;
                col = col + 1;
            } else if b == 34 || b == 39 {
                let mut x = i + 1;
                while x < len && code[x] != b
                    invariant
                        len == code@.len(),
                        i + 1 <= x <= len,
                        find_byte(code@, i + 1, b) == find_byte(code@, x as int, b),
                    decreases len - x,
                {
                    proof {
                        assert(find_byte(code@, x as int, b) == find_byte(code@, x + 1, b));
                    }
                    x = x + 1;
                }
                if x < len {
                    proof {
                        assert(find_byte(code@, x as int, b) == Some(x as int));
                    }
                    let t = Token {
                        kind: TokenKind::StringLiteral(Span { start: i + 1, end: x }),
                        line,
                        col,
                    };
                    proof {
                        assert(cur == outcome_prepend(
                            t,
                            spec_scan(code@, x + 1, line as int, col + (x + 1 - i)),
                        ));
                        lemma_prepend_all_push(
                            toks@,
                            t,
                            spec_scan(code@, x + 1, line as int, col + (x + 1 - i)),
                        );
                    }
                    toks.push(t);
                    col = col + (x + 1 - i);
                    i = x + 1;
                } else {
                    proof {
                        assert(find_byte(code@, x as int, b) is None);
                    }
                    return Err(
                        LexError {
                            kind: LexErrorKind::UnexpectedEof(b),
                            line,
                            col: col + (len - 1 - i),
                            filename: vstd::slice::slice_to_vec(filename),
                            snippet: Span { start: i + 1 - col, end: len },
                        },
                    );
                }
            } else {
                return Err(
                    LexError {
                        kind: LexErrorKind::UnexpectedCharacter(b),
                        line,
                        col,
                        filename: vstd::slice::slice_to_vec(filename),
                        snippet: Span { start: i + 1 - col, end: i + 1 },
                    },
                );
            }
        }
    }
    proof {
        assert(spec_scan(code@, i as int, line as int, col as int) == ScanOutcome::Tokens(
            Seq::empty(),
        ));
        assert(toks@ + Seq::<Token>::empty() =~= toks@);
    }
    Ok(toks)
}

} // verus!
