//! Rendering of a lexical error as a one-shot diagnostic message: the
//! filename label with the 1-based line and column, a header, the snippet
//! of source text that was being scanned, and the error description.

use vstd::prelude::*;
use crate::token::{LexError, LexErrorKind};

verus! {

/// The decimal digits of `n`, most significant first.
pub open spec fn dec_digits(n: int) -> Seq<u8>
    recommends
        n >= 0,
    decreases n,
{
    if n < 10 {
        seq![(48 + n) as u8]
    } else {
        dec_digits(n / 10) + seq![(48 + n % 10) as u8]
    }
}

/// Append the decimal digits of `n` to `out`.
pub fn push_dec(out: &mut Vec<u8>, n: usize)
    ensures
        final(out)@ == old(out)@ + dec_digits(n as int),
    decreases n,
{
    if n < 10 {
        out.push(48 + (n as u8));
        proof {
            assert(out@ =~= old(out)@ + dec_digits(n as int));
        }
    } else {
        push_dec(out, n / 10);
        out.push(48 + ((n % 10) as u8));
        proof {
            assert(out@ =~= old(out)@ + dec_digits(n as int));
        }
    }
}

/// The bytes of `Syntax error:`.
pub open spec fn msg_syntax_error() -> Seq<u8> {
    seq![83u8, 121u8, 110u8, 116u8, 97u8, 120u8, 32u8, 101u8, 114u8, 114u8, 111u8, 114u8, 58u8]
}

/// Append the bytes of `Syntax error:` to `out`.
fn push_syntax_error(out: &mut Vec<u8>)
    ensures
        final(out)@ == old(out)@ + msg_syntax_error(),
{
    out.push(83);
    out.push(121);
    out.push(110);
    out.push(116);
    out.push(97);
    out.push(120);
    out.push(32);
    out.push(101);
    out.push(114);
    out.push(114);
    out.push(111);
    out.push(114);
    out.push(58);
    proof {
        assert(out@ =~= old(out)@ + msg_syntax_error());
    }
}

/// The bytes of `Invalid token`.
pub open spec fn msg_invalid_token() -> Seq<u8> {
    seq![73u8, 110u8, 118u8, 97u8, 108u8, 105u8, 100u8, 32u8, 116u8, 111u8, 107u8, 101u8, 110u8]
}

/// Append the bytes of `Invalid token` to `out`.
fn push_invalid_token(out: &mut Vec<u8>)
    ensures
        final(out)@ == old(out)@ + msg_invalid_token(),
{
    out.push(73);
    out.push(110);
    out.push(118);
    out.push(97);
    out.push(108);
    out.push(105);
    out.push(100);
    out.push(32);
    out.push(116);
    out.push(111);
    out.push(107);
    out.push(101);
    out.push(110);
    proof {
        assert(out@ =~= old(out)@ + msg_invalid_token());
    }
}

/// The bytes of `Unexpected character '`.
pub open spec fn msg_unexpected_char_prefix() -> Seq<u8> {
    seq![85u8, 110u8, 101u8, 120u8, 112u8, 101u8, 99u8, 116u8, 101u8, 100u8, 32u8, 99u8, 104u8, 97u8, 114u8, 97u8, 99u8, 116u8, 101u8, 114u8, 32u8, 39u8]
}

/// Append the bytes of `Unexpected character '` to `out`.
fn push_unexpected_char_prefix(out: &mut Vec<u8>)
    ensures
        final(out)@ == old(out)@ + msg_unexpected_char_prefix(),
{
    out.push(85);
    out.push(110);
    out.push(101);
    out.push(120);
    out.push(112);
    out.push(101);
    out.push(99);
    out.push(116);
    out.push(101);
    out.push(100);
    out.push(32);
    out.push(99);
    out.push(104);
    out.push(97);
    out.push(114);
    out.push(97);
    out.push(99);
    out.push(116);
    out.push(101);
    out.push(114);
    out.push(32);
    out.push(39);
    proof {
        assert(out@ =~= old(out)@ + msg_unexpected_char_prefix());
    }
}

/// The bytes of `Unexpectedly reached end of file! Expected a '`.
pub open spec fn msg_eof_prefix() -> Seq<u8> {
    seq![85u8, 110u8, 101u8, 120u8, 112u8, 101u8, 99u8, 116u8, 101u8, 100u8, 108u8, 121u8, 32u8, 114u8, 101u8, 97u8, 99u8, 104u8, 101u8, 100u8, 32u8, 101u8, 110u8, 100u8, 32u8, 111u8, 102u8, 32u8, 102u8, 105u8, 108u8, 101u8, 33u8, 32u8, 69u8, 120u8, 112u8, 101u8, 99u8, 116u8, 101u8, 100u8, 32u8, 97u8, 32u8, 39u8]
}

/// Append the bytes of `Unexpectedly reached end of file! Expected a '` to `out`.
fn push_eof_prefix(out: &mut Vec<u8>)
    ensures
        final(out)@ == old(out)@ + msg_eof_prefix(),
{
    out.push(85);
    out.push(110);
    out.push(101);
    out.push(120);
    out.push(112);
    out.push(101);
    out.push(99);
    out.push(116);
    out.push(101);
    out.push(100);
    out.push(108);
    out.push(121);
    out.push(32);
    out.push(114);
    out.push(101);
    out.push(97);
    out.push(99);
    out.push(104);
    out.push(101);
    out.push(100);
    out.push(32);
    out.push(101);
    out.push(110);
    out.push(100);
    out.push(32);
    out.push(111);
    out.push(102);
    out.push(32);
    out.push(102);
    out.push(105);
    out.push(108);
    out.push(101);
    out.push(33);
    out.push(32);
    out.push(69);
    out.push(120);
    out.push(112);
    out.push(101);
    out.push(99);
    out.push(116);
    out.push(101);
    out.push(100);
    out.push(32);
    out.push(97);
    out.push(32);
    out.push(39);
    proof {
        assert(out@ =~= old(out)@ + msg_eof_prefix());
    }
}

/// The description of an error kind: the unexpected character or missing
/// quote is named inside single quotes.
pub open spec fn kind_message(k: LexErrorKind) -> Seq<u8> {
    match k {
        LexErrorKind::UnexpectedEof(q) => msg_eof_prefix() + seq![q, 39u8],
        LexErrorKind::InvalidToken => msg_invalid_token(),
        LexErrorKind::UnexpectedCharacter(c) => msg_unexpected_char_prefix() + seq![c, 39u8],
    }
}

/// The whole diagnostic: `filename:line:col`, the header line, then the
/// snippet and the error description on indented lines.
pub open spec fn render_spec(
    kind: LexErrorKind,
    line: int,
    col: int,
    filename: Seq<u8>,
    snippet: Seq<u8>,
) -> Seq<u8> {
    filename + seq![58u8] + dec_digits(line) + seq![58u8] + dec_digits(col) + seq![10u8]
        + msg_syntax_error() + seq![10u8, 9u8] + snippet + seq![10u8, 9u8] + kind_message(kind)
}

/// Append a whole slice to `out`.
fn push_slice(out: &mut Vec<u8>, s: &[u8])
    ensures
        final(out)@ == old(out)@ + s@,
{
    let mut k: usize = 0;
    while k < s.len()
        invariant
            k <= s@.len(),
            out@ == old(out)@ + s@.subrange(0, k as int),
        decreases s@.len() - k,
    {
        let b = s[k];
        out.push(b);
        proof {
            assert(old(out)@ + s@.subrange(0, k as int) + seq![s@[k as int]] =~= old(out)@
                + s@.subrange(0, k + 1));
        }
        k = k + 1;
    }
    proof {
        assert(s@.subrange(0, s@.len() as int) =~= s@);
    }
}

/// Render the diagnostic message for `e` against the source buffer it was
/// produced from.
pub fn render_error(e: &LexError, code: &[u8]) -> (out: Vec<u8>)
    requires
        e.snippet.wf(code@.len() as int),
    ensures
        out@ == render_spec(e.kind, e.line as int, e.col as int, e.filename@, e.snippet.text(code@)),
{
    let mut out: Vec<u8> = Vec::new();
    push_slice(&mut out, e.filename.as_slice());
    out.push(58);
    push_dec(&mut out, e.line);
    out.push(58);
    push_dec(&mut out, e.col);
    out.push(10);
    push_syntax_error(&mut out);
    out.push(10);
    out.push(9);
    push_slice(&mut out, crate::token::span_slice(code, e.snippet));
    out.push(10);
    out.push(9);
    match e.kind {
        LexErrorKind::UnexpectedEof(q) => {
            push_eof_prefix(&mut out);
            out.push(q);
            out.push(39);
        },
        LexErrorKind::InvalidToken => {
            push_invalid_token(&mut out);
        },
        LexErrorKind::UnexpectedCharacter(c) => {
            push_unexpected_char_prefix(&mut out);
            out.push(c);
            out.push(39);
        },
    }
    proof {
        assert(out@ =~= render_spec(
            e.kind,
            e.line as int,
            e.col as int,
            e.filename@,
            e.snippet.text(code@),
        ));
    }
    out
}

} // verus!
