//! Classification of a maximal word run into a keyword, integer literal,
//! float literal or identifier, in that order of precedence; a run that
//! matches none of the rules is an invalid token.

use vstd::prelude::*;
use crate::token::{Span, TokenKind};

verus! {

/// Horizontal whitespace: space or tab.
pub open spec fn is_space(b: u8) -> bool {
    b == 32 || b == 9
}

/// The line separator.
pub open spec fn is_newline(b: u8) -> bool {
    b == 10
}

/// An ASCII letter.
pub open spec fn is_alpha(b: u8) -> bool {
    (97 <= b <= 122) || (65 <= b <= 90)
}

/// An ASCII decimal digit.
pub open spec fn is_dec_digit(b: u8) -> bool {
    48 <= b <= 57
}

/// A byte that extends a word run: letter, digit, underscore, or the
/// decimal point (included so that runs swallow float literals whole).
pub open spec fn is_word_byte(b: u8) -> bool {
    is_alpha(b) || is_dec_digit(b) || b == 95 || b == 46
}

/// A byte that may open an identifier: letter or underscore.
pub open spec fn is_ident_start(b: u8) -> bool {
    is_alpha(b) || b == 95
}

/// A byte that may continue an identifier: letter, digit or underscore.
pub open spec fn is_ident_byte(b: u8) -> bool {
    is_alpha(b) || is_dec_digit(b) || b == 95
}

/// The identifier pattern: one leading letter/underscore, then any number
/// of letters, digits and underscores.
pub open spec fn is_identifier(s: Seq<u8>) -> bool {
    &&& s.len() > 0
    &&& is_ident_start(s[0])
    &&& forall|k: int| 1 <= k < s.len() ==> is_ident_byte(s[k])
}

/// The numeric value of a digit byte, covering decimal digits and both
/// letter cases for hexadecimal; any other byte maps to 255, which no
/// supported radix admits.
pub open spec fn digit_value(b: u8) -> int {
    if 48 <= b <= 57 {
        b - 48
    } else if 97 <= b <= 102 {
        b - 97 + 10
    } else if 65 <= b <= 70 {
        b - 65 + 10
    } else {
        255
    }
}

/// Whether `b` is a valid digit under `radix`.
pub open spec fn is_radix_digit(b: u8, radix: int) -> bool {
    digit_value(b) < radix
}

/// A non-empty sequence of valid digits under `radix`.
pub open spec fn all_radix_digits(s: Seq<u8>, radix: int) -> bool {
    &&& s.len() > 0
    &&& forall|k: int| 0 <= k < s.len() ==> is_radix_digit(s[k], radix)
}

/// The value of a digit sequence read most-significant first under `radix`.
pub open spec fn digits_val(s: Seq<u8>, radix: int) -> int
    decreases s.len(),
{
    if s.len() == 0 {
        0
    } else {
        digits_val(s.drop_last(), radix) * radix + digit_value(s.last())
    }
}

/// The spelling of the keyword `let`.
pub open spec fn kw_let() -> Seq<u8> {
    seq![108u8, 101u8, 116u8]
}

/// The spelling of the keyword `var`.
pub open spec fn kw_var() -> Seq<u8> {
    seq![118u8, 97u8, 114u8]
}

/// The spelling of the keyword `def`.
pub open spec fn kw_def() -> Seq<u8> {
    seq![100u8, 101u8, 102u8]
}

/// The spelling of the keyword `func`.
pub open spec fn kw_func() -> Seq<u8> {
    seq![102u8, 117u8, 110u8, 99u8]
}

/// The spelling of the keyword `struct`.
pub open spec fn kw_struct() -> Seq<u8> {
    seq![115u8, 116u8, 114u8, 117u8, 99u8, 116u8]
}

/// The spelling of the keyword `end`.
pub open spec fn kw_end() -> Seq<u8> {
    seq![101u8, 110u8, 100u8]
}

/// The spelling of the keyword `repeat`.
pub open spec fn kw_repeat() -> Seq<u8> {
    seq![114u8, 101u8, 112u8, 101u8, 97u8, 116u8]
}

/// The spelling of the keyword `until`.
pub open spec fn kw_until() -> Seq<u8> {
    seq![117u8, 110u8, 116u8, 105u8, 108u8]
}

/// The keyword kind a lexeme spells, if any. A lexeme equal to a keyword
/// spelling always becomes that keyword, never an identifier.
pub open spec fn keyword_token(s: Seq<u8>) -> Option<TokenKind> {
    if s == kw_let() {
        Some(TokenKind::Let)
    } else if s == kw_var() {
        Some(TokenKind::Var)
    } else if s == kw_def() {
        Some(TokenKind::Def)
    } else if s == kw_func() {
        Some(TokenKind::Func)
    } else if s == kw_struct() {
        Some(TokenKind::Struct)
    } else if s == kw_end() {
        Some(TokenKind::End)
    } else if s == kw_repeat() {
        Some(TokenKind::Repeat)
    } else if s == kw_until() {
        Some(TokenKind::Until)
    } else {
        None
    }
}

/// The integer token a digit sequence denotes under `radix`, if every byte
/// is a valid digit and the value fits in `i64`; otherwise nothing.
pub open spec fn radix_token(digits: Seq<u8>, radix: int) -> Option<TokenKind> {
    if all_radix_digits(digits, radix) && digits_val(digits, radix) <= i64::MAX as int {
        Some(TokenKind::IntegerLiteral(digits_val(digits, radix) as i64))
    } else {
        None
    }
}

/// A non-empty sequence of decimal digits.
pub open spec fn is_digits(s: Seq<u8>) -> bool {
    &&& s.len() > 0
    &&& forall|k: int| 0 <= k < s.len() ==> is_dec_digit(s[k])
}

/// The mantissa of a float literal: decimal digits with at most one
/// decimal point among them, and at least one digit.
pub open spec fn is_mantissa(s: Seq<u8>) -> bool {
    &&& s.len() > 0
    &&& forall|k: int| 0 <= k < s.len() ==> is_dec_digit(s[k]) || s[k] == 46
    &&& exists|k: int| 0 <= k < s.len() && is_dec_digit(s[k])
    &&& forall|k1: int, k2: int|
        0 <= k1 < s.len() && 0 <= k2 < s.len() && s[k1] == 46 && s[k2] == 46 ==> k1 == k2
}

/// An exponent marker: `e` or `E`.
pub open spec fn is_exp_marker(b: u8) -> bool {
    b == 101 || b == 69
}

/// The lower-case fold of an ASCII byte.
pub open spec fn lower_byte(b: u8) -> u8 {
    if 65 <= b <= 90 {
        (b + 32) as u8
    } else {
        b
    }
}

/// The lower-case fold of a lexeme.
pub open spec fn lexeme_lower(s: Seq<u8>) -> Seq<u8> {
    s.map_values(|b: u8| lower_byte(b))
}

/// A special float spelling: `inf`, `infinity` or `nan`, in any letter
/// case.
pub open spec fn is_special_float(s: Seq<u8>) -> bool {
    ||| lexeme_lower(s) == seq![105u8, 110u8, 102u8]
    ||| lexeme_lower(s) == seq![105u8, 110u8, 102u8, 105u8, 110u8, 105u8, 116u8, 121u8]
    ||| lexeme_lower(s) == seq![110u8, 97u8, 110u8]
}

/// The float-literal grammar: a special spelling, or a mantissa optionally
/// followed by an exponent marker and a non-empty digit sequence. Sign
/// characters cannot occur, since a word run never contains them.
pub open spec fn is_float_lexeme(s: Seq<u8>) -> bool {
    ||| is_special_float(s)
    ||| is_mantissa(s)
    ||| exists|e: int|
        0 <= e < s.len() && is_exp_marker(s[e]) && is_mantissa(s.subrange(0, e)) && is_digits(
            s.subrange(e + 1, s.len() as int),
        )
}

/// Classify the word run `code[i..j]`, in the fixed precedence order:
/// keyword, `0x` hexadecimal integer, `0b` binary integer, decimal
/// integer, float literal, identifier; `None` means an invalid token.
/// A run opened by `0x` or `0b` commits to integer parsing: on bad digits
/// or overflow it is invalid, never reinterpreted as another class.
pub open spec fn classify_run(code: Seq<u8>, i: int, j: int) -> Option<TokenKind> {
    let lex = code.subrange(i, j);
    if keyword_token(lex) is Some {
        keyword_token(lex)
    } else if lex.len() >= 2 && lex[0] == 48 && lex[1] == 120 {
        radix_token(lex.subrange(2, lex.len() as int), 16)
    } else if lex.len() >= 2 && lex[0] == 48 && lex[1] == 98 {
        radix_token(lex.subrange(2, lex.len() as int), 2)
    } else if radix_token(lex, 10) is Some {
        radix_token(lex, 10)
    } else if is_float_lexeme(lex) {
        Some(TokenKind::FloatLiteral(Span { start: i as usize, end: j as usize }))
    } else if is_identifier(lex) {
        Some(TokenKind::Identifier(Span { start: i as usize, end: j as usize }))
    } else {
        None
    }
}


/// The numeric value of a digit byte, matching `digit_value`.
pub fn digit_of(b: u8) -> (d: u8)
    ensures
        d as int == digit_value(b),
{
    if 48 <= b && b <= 57 {
        b - 48
    } else if 97 <= b && b <= 102 {
        b - 97 + 10
    } else if 65 <= b && b <= 70 {
        b - 65 + 10
    } else {
        255
    }
}

/// The outcome of reading a digit sequence as an integer.
pub enum IntParse {
    /// Every byte was a valid digit and the value fits in `i64`.
    Value(i64),
    /// Every byte was a valid digit but the value exceeds `i64::MAX`.
    TooLarge,
    /// The sequence is empty or holds a byte that is no digit of the radix.
    BadDigit,
}

/// Read `code[i..j]` as an unsigned integer under `radix`.
pub fn parse_radix(code: &[u8], i: usize, j: usize, radix: u8) -> (r: IntParse)
    requires
        i <= j <= code@.len(),
        radix == 2 || radix == 10 || radix == 16,
    ensures
        ({
            let s = code@.subrange(i as int, j as int);
            match r {
                IntParse::Value(v) => all_radix_digits(s, radix as int) && v as int == digits_val(
                    s,
                    radix as int,
                ) && v >= 0,
                IntParse::TooLarge => all_radix_digits(s, radix as int) && digits_val(
                    s,
                    radix as int,
                ) > i64::MAX as int,
                IntParse::BadDigit => !all_radix_digits(s, radix as int),
            }
        }),
{
    let ghost s = code@.subrange(i as int, j as int);
    if i == j {
        return IntParse::BadDigit;
    }
    let mut acc: u128 = 0;
    let mut over = false;
    let mut k = i;
    while k < j
        invariant
            i <= k <= j <= code@.len(),
            s == code@.subrange(i as int, j as int),
            radix == 2 || radix == 10 || radix == 16,
            forall|t: int| 0 <= t < k - i ==> is_radix_digit(s[t], radix as int),
            !over ==> acc as int == digits_val(s.subrange(0, k - i), radix as int) && acc
                <= i64::MAX as u128,
            over ==> digits_val(s.subrange(0, k - i), radix as int) > i64::MAX as int,
        decreases j - k,
    {
        let b = code[k];
        proof {
            assert(s[k - i] == code@[k as int]);
        }
        let d = digit_of(b);
        if d >= radix {
            proof {
                assert(!is_radix_digit(s[k - i], radix as int));
            }
            return IntParse::BadDigit;
        }
        proof {
            let pre = s.subrange(0, k - i);
            let post = s.subrange(0, k - i + 1);
            assert(post.drop_last() =~= pre);
            assert(post.last() == s[k - i]);
            assert(digits_val(post, radix as int) == digits_val(pre, radix as int) * (
            radix as int) + digit_value(b));
        }
        if !over {
            proof {
                assert(acc * (radix as u128) + (d as u128) <= 0x8000_0000_0000_0000u128 * 16)
                    by (nonlinear_arith)
                    requires
                        acc <= 0x7fff_ffff_ffff_ffffu128,
                        radix <= 16,
                        d < 16,
                ;
            }
            acc = acc * (radix as u128) + (d as u128);
            if acc > 0x7fff_ffff_ffff_ffffu128 {
                over = true;
            }
        } else {
            proof {
                let pre = s.subrange(0, k - i);
                let v = digits_val(pre, radix as int);
                assert(v * (radix as int) + digit_value(b) > i64::MAX as int)
                    by (nonlinear_arith)
                    requires
                        v > i64::MAX as int,
                        radix >= 2,
                        digit_value(b) >= 0,
                ;
            }
        }
        k += 1;
    }
    proof {
        assert(s.subrange(0, j - i) =~= s);
    }
    if over {
        IntParse::TooLarge
    } else {
        IntParse::Value(acc as i64)
    }
}


/// Decide whether `code[i..j]` is a valid mantissa.
pub fn mantissa_check(code: &[u8], i: usize, j: usize) -> (r: bool)
    requires
        i <= j <= code@.len(),
    ensures
        r == is_mantissa(code@.subrange(i as int, j as int)),
{
    let ghost s = code@.subrange(i as int, j as int);
    if i == j {
        return false;
    }
    let mut saw_digit = false;
    let mut saw_dot = false;
    let ghost mut digit_at: int = 0;
    let ghost mut dot_at: int = 0;
    let mut k = i;
    while k < j
        invariant
            i <= k <= j <= code@.len(),
            s == code@.subrange(i as int, j as int),
            forall|t: int| 0 <= t < k - i ==> is_dec_digit(s[t]) || s[t] == 46,
            saw_digit ==> 0 <= digit_at < k - i && is_dec_digit(s[digit_at]),
            !saw_digit ==> forall|t: int| 0 <= t < k - i ==> !is_dec_digit(s[t]),
            saw_dot ==> 0 <= dot_at < k - i && s[dot_at] == 46,
            forall|t: int| 0 <= t < k - i && s[t] == 46 ==> saw_dot && t == dot_at,
        decreases j - k,
    {
        let b = code[k];
        proof {
            assert(s[k - i] == code@[k as int]);
        }
        if 48 <= b && b <= 57 {
            if !saw_digit {
                saw_digit = true;
                proof {
                    digit_at = k - i;
                }
            }
        } else if b == 46 {
            if saw_dot {
                proof {
                    assert(s[dot_at] == 46 && s[k - i] == 46 && dot_at != k - i);
                }
                return false;
            }
            saw_dot = true;
            proof {
                dot_at = k - i;
            }
        } else {
            proof {
                assert(!(is_dec_digit(s[k - i]) || s[k - i] == 46));
            }
            return false;
        }
        k += 1;
    }
    proof {
        if saw_digit {
            assert(0 <= digit_at < s.len() && is_dec_digit(s[digit_at]));
            assert(is_mantissa(s));
        }
    }
    saw_digit
}

/// Decide whether `code[i..j]` is a non-empty run of decimal digits.
pub fn digits_check(code: &[u8], i: usize, j: usize) -> (r: bool)
    requires
        i <= j <= code@.len(),
    ensures
        r == is_digits(code@.subrange(i as int, j as int)),
{
    let ghost s = code@.subrange(i as int, j as int);
    if i == j {
        return false;
    }
    let mut k = i;
    while k < j
        invariant
            i <= k <= j <= code@.len(),
            s == code@.subrange(i as int, j as int),
            forall|t: int| 0 <= t < k - i ==> is_dec_digit(s[t]),
        decreases j - k,
    {
        let b = code[k];
        proof {
            assert(s[k - i] == code@[k as int]);
        }
        if !(48 <= b && b <= 57) {
            return false;
        }
        k += 1;
    }
    true
}

/// The lower-case fold of a byte, matching `lower_byte`.
fn lower_of(b: u8) -> (r: u8)
    ensures
        r == lower_byte(b),
{
    if 65 <= b && b <= 90 {
        b + 32
    } else {
        b
    }
}

/// Decide whether `code[i..j]` is a special float spelling.
fn special_float_check(code: &[u8], i: usize, j: usize) -> (r: bool)
    requires
        i <= j <= code@.len(),
    ensures
        r == is_special_float(code@.subrange(i as int, j as int)),
{
    let ghost s = code@.subrange(i as int, j as int);
    let ghost ls = lexeme_lower(s);
    proof {
        assert(ls.len() == s.len());
        assert(seq![105u8, 110u8, 102u8].len() == 3);
        assert(seq![105u8, 110u8, 102u8, 105u8, 110u8, 105u8, 116u8, 121u8].len() == 8);
        assert(seq![110u8, 97u8, 110u8].len() == 3);
    }
    if j - i == 3 {
        let a = lower_of(code[i]);
        let b = lower_of(code[i + 1]);
        let c = lower_of(code[i + 2]);
        proof {
            assert(s[0] == code@[i as int] && s[1] == code@[i + 1] && s[2] == code@[i + 2]);
            assert(ls[0] == lower_byte(s[0]) && ls[1] == lower_byte(s[1]) && ls[2] == lower_byte(
                s[2],
            ));
        }
        let inf = a == 105 && b == 110 && c == 102;
        let nan = a == 110 && b == 97 && c == 110;
        proof {
            if inf {
                assert(ls =~= seq![105u8, 110u8, 102u8]);
            } else if nan {
                assert(ls =~= seq![110u8, 97u8, 110u8]);
            }
        }
        inf || nan
    } else if j - i == 8 {
        let mut ok = true;
        let word: [u8; 8] = [105, 110, 102, 105, 110, 105, 116, 121];
        let mut k: usize = 0;
        while k < 8
            invariant
                k <= 8,
                i + 8 == j <= code@.len(),
                s == code@.subrange(i as int, j as int),
                ls == lexeme_lower(s),
                word@ == seq![105u8, 110u8, 102u8, 105u8, 110u8, 105u8, 116u8, 121u8],
                ok <==> (forall|t: int| 0 <= t < k ==> ls[t] == word@[t]),
            decreases 8 - k,
        {
            let w = word[k];
            let l = lower_of(code[i + k]);
            proof {
                assert(s[k as int] == code@[i + k]);
                assert(ls[k as int] == lower_byte(s[k as int]));
            }
            if l != w {
                ok = false;
            }
            k = k + 1;
        }
        proof {
            if ok {
                assert(ls =~= seq![105u8, 110u8, 102u8, 105u8, 110u8, 105u8, 116u8, 121u8]);
            }
        }
        ok
    } else {
        false
    }
}

/// Decide whether `code[i..j]` spells a float literal.
pub fn float_check(code: &[u8], i: usize, j: usize) -> (r: bool)
    requires
        i <= j <= code@.len(),
    ensures
        r == is_float_lexeme(code@.subrange(i as int, j as int)),
{
    let ghost s = code@.subrange(i as int, j as int);
    if special_float_check(code, i, j) {
        return true;
    }
    let mut e = i;
    while e < j && code[e] != 101 && code[e] != 69
        invariant
            i <= e <= j <= code@.len(),
            s == code@.subrange(i as int, j as int),
            forall|t: int| 0 <= t < e - i ==> !is_exp_marker(s[t]),
        decreases j - e,
    {
        proof {
            assert(s[e - i] == code@[e as int]);
        }
        e += 1;
    }
    if e == j {
        let r = mantissa_check(code, i, j);
        proof {
            if !r {
                assert forall|e2: int|
                    !(0 <= e2 < s.len() && is_exp_marker(s[e2]) && is_mantissa(s.subrange(0, e2))
                        && is_digits(s.subrange(e2 + 1, s.len() as int))) by {
                    if 0 <= e2 < s.len() {
                        assert(!is_exp_marker(s[e2]));
                    }
                }
                assert(!is_float_lexeme(s));
            }
        }
        r
    } else {
        let ghost ep = e - i;
        proof {
            assert(s[ep] == code@[e as int]);
            assert(is_exp_marker(s[ep]));
        }
        let rm = mantissa_check(code, i, e);
        let rd = digits_check(code, e + 1, j);
        proof {
            assert(code@.subrange(i as int, e as int) =~= s.subrange(0, ep));
            assert(code@.subrange(e + 1 as int, j as int) =~= s.subrange(ep + 1, s.len() as int));
        }
        let r = rm && rd;
        proof {
            if r {
                assert(0 <= ep < s.len() && is_exp_marker(s[ep]) && is_mantissa(
                    s.subrange(0, ep),
                ) && is_digits(s.subrange(ep + 1, s.len() as int)));
                assert(is_float_lexeme(s));
            } else {
                assert(!is_mantissa(s)) by {
                    assert(0 <= ep < s.len() && !(is_dec_digit(s[ep]) || s[ep] == 46));
                }
                assert forall|e2: int|
                    !(0 <= e2 < s.len() && is_exp_marker(s[e2]) && is_mantissa(s.subrange(0, e2))
                        && is_digits(s.subrange(e2 + 1, s.len() as int))) by {
                    if 0 <= e2 < s.len() && is_exp_marker(s[e2]) {
                        if e2 == ep {
                            assert(!(is_mantissa(s.subrange(0, ep)) && is_digits(
                                s.subrange(ep + 1, s.len() as int),
                            )));
                        } else {
                            assert(e2 > ep);
                            let m = s.subrange(0, e2);
                            assert(m[ep] == s[ep]);
                            assert(0 <= ep < m.len() && !(is_dec_digit(m[ep]) || m[ep] == 46));
                            assert(!is_mantissa(m));
                        }
                    }
                }
                assert(!is_float_lexeme(s));
            }
        }
        r
    }
}


/// Compare the run `code[i..j]` to a three-byte spelling.
fn run_eq3(code: &[u8], i: usize, j: usize, a: u8, b: u8, c: u8) -> (r: bool)
    requires
        i <= j <= code@.len(),
    ensures
        r == (code@.subrange(i as int, j as int) == seq![a, b, c]),
{
    let ghost s = code@.subrange(i as int, j as int);
    if j - i != 3 {
        proof {
            assert(seq![a, b, c].len() == 3);
        }
        return false;
    }
    proof {
        assert(s[0] == code@[i as int]);
        assert(s[1] == code@[i + 1]);
        assert(s[2] == code@[i + 2]);
    }
    let r = code[i] == a && code[i + 1] == b && code[i + 2] == c;
    proof {
        if r {
            assert(s =~= seq![a, b, c]);
        }
    }
    r
}

/// Compare the run `code[i..j]` to a four-byte spelling.
fn run_eq4(code: &[u8], i: usize, j: usize, a: u8, b: u8, c: u8, d: u8) -> (r: bool)
    requires
        i <= j <= code@.len(),
    ensures
        r == (code@.subrange(i as int, j as int) == seq![a, b, c, d]),
{
    let ghost s = code@.subrange(i as int, j as int);
    if j - i != 4 {
        proof {
            assert(seq![a, b, c, d].len() == 4);
        }
        return false;
    }
    proof {
        assert(s[0] == code@[i as int]);
        assert(s[1] == code@[i + 1]);
        assert(s[2] == code@[i + 2]);
        assert(s[3] == code@[i + 3]);
    }
    let r = code[i] == a && code[i + 1] == b && code[i + 2] == c && code[i + 3] == d;
    proof {
        if r {
            assert(s =~= seq![a, b, c, d]);
        }
    }
    r
}

/// Compare the run `code[i..j]` to a five-byte spelling.
fn run_eq5(code: &[u8], i: usize, j: usize, a: u8, b: u8, c: u8, d: u8, e: u8) -> (r: bool)
    requires
        i <= j <= code@.len(),
    ensures
        r == (code@.subrange(i as int, j as int) == seq![a, b, c, d, e]),
{
    let ghost s = code@.subrange(i as int, j as int);
    if j - i != 5 {
        proof {
            assert(seq![a, b, c, d, e].len() == 5);
        }
        return false;
    }
    proof {
        assert(s[0] == code@[i as int]);
        assert(s[1] == code@[i + 1]);
        assert(s[2] == code@[i + 2]);
        assert(s[3] == code@[i + 3]);
        assert(s[4] == code@[i + 4]);
    }
    let r = code[i] == a && code[i + 1] == b && code[i + 2] == c && code[i + 3] == d && code[i + 4]
        == e;
    proof {
        if r {
            assert(s =~= seq![a, b, c, d, e]);
        }
    }
    r
}

/// Compare the run `code[i..j]` to a six-byte spelling.
fn run_eq6(code: &[u8], i: usize, j: usize, a: u8, b: u8, c: u8, d: u8, e: u8, f: u8) -> (r: bool)
    requires
        i <= j <= code@.len(),
    ensures
        r == (code@.subrange(i as int, j as int) == seq![a, b, c, d, e, f]),
{
    let ghost s = code@.subrange(i as int, j as int);
    if j - i != 6 {
        proof {
            assert(seq![a, b, c, d, e, f].len() == 6);
        }
        return false;
    }
    proof {
        assert(s[0] == code@[i as int]);
        assert(s[1] == code@[i + 1]);
        assert(s[2] == code@[i + 2]);
        assert(s[3] == code@[i + 3]);
        assert(s[4] == code@[i + 4]);
        assert(s[5] == code@[i + 5]);
    }
    let r = code[i] == a && code[i + 1] == b && code[i + 2] == c && code[i + 3] == d && code[i + 4]
        == e && code[i + 5] == f;
    proof {
        if r {
            assert(s =~= seq![a, b, c, d, e, f]);
        }
    }
    r
}

/// Relies on regex::Regex::is_match with the anchored pattern
/// `^[a-zA-Z_]+\w*$`: on a run of word bytes (all ASCII, so `\w` means
/// letter, digit or underscore there) it accepts exactly the non-empty
/// strings whose first byte is a letter or underscore and whose remaining
/// bytes are letters, digits or underscores.
#[verifier::external_body]
fn regex_ident_match(code: &[u8], i: usize, j: usize) -> (r: bool)
    requires
        i <= j <= code@.len(),
        forall|k: int| i <= k < j ==> is_word_byte(code@[k]),
    ensures
        r == is_identifier(code@.subrange(i as int, j as int)),
{
    let lexeme = &code[i..j];
    match std::str::from_utf8(lexeme) {
        Ok(text) => regex::Regex::new(r"^[a-zA-Z_]+\w*$").unwrap().is_match(text),
        Err(_) => false,
    }
}

/// Classify the word run `code[i..j]`, returning its token kind or `None`
/// for an invalid token, exactly as `classify_run` decides.
pub fn classify_token(code: &[u8], i: usize, j: usize) -> (r: Option<TokenKind>)
    requires
        i < j <= code@.len(),
        forall|k: int| i <= k < j ==> is_word_byte(code@[k]),
    ensures
        r == classify_run(code@, i as int, j as int),
{
    let ghost lex = code@.subrange(i as int, j as int);
    if run_eq3(code, i, j, 108, 101, 116) {
        return Some(TokenKind::Let);
    }
    if run_eq3(code, i, j, 118, 97, 114) {
        return Some(TokenKind::Var);
    }
    if run_eq3(code, i, j, 100, 101, 102) {
        return Some(TokenKind::Def);
    }
    if run_eq4(code, i, j, 102, 117, 110, 99) {
        return Some(TokenKind::Func);
    }
    if run_eq6(code, i, j, 115, 116, 114, 117, 99, 116) {
        return Some(TokenKind::Struct);
    }
    if run_eq3(code, i, j, 101, 110, 100) {
        return Some(TokenKind::End);
    }
    if run_eq6(code, i, j, 114, 101, 112, 101, 97, 116) {
        return Some(TokenKind::Repeat);
    }
    if run_eq5(code, i, j, 117, 110, 116, 105, 108) {
        return Some(TokenKind::Until);
    }
    proof {
        assert(keyword_token(lex) is None);
        assert(lex[0] == code@[i as int]);
        if j - i >= 2 {
            assert(lex[1] == code@[i + 1]);
        }
    }
    if j - i >= 2 && code[i] == 48 && code[i + 1] == 120 {
        proof {
            assert(lex.subrange(2, lex.len() as int) =~= code@.subrange(i + 2, j as int));
        }
        match parse_radix(code, i + 2, j, 16) {
            IntParse::Value(v) => {
                return Some(TokenKind::IntegerLiteral(v));
            },
            _ => {
                return None;
            },
        }
    }
    if j - i >= 2 && code[i] == 48 && code[i + 1] == 98 {
        proof {
            assert(lex.subrange(2, lex.len() as int) =~= code@.subrange(i + 2, j as int));
        }
        match parse_radix(code, i + 2, j, 2) {
            IntParse::Value(v) => {
                return Some(TokenKind::IntegerLiteral(v));
            },
            _ => {
                return None;
            },
        }
    }
    match parse_radix(code, i, j, 10) {
        IntParse::Value(v) => {
            return Some(TokenKind::IntegerLiteral(v));
        },
        IntParse::TooLarge => {
            proof {
                assert forall|k: int| 0 <= k < lex.len() implies is_dec_digit(lex[k]) by {
                    assert(is_radix_digit(lex[k], 10));
                }
                assert(is_dec_digit(lex[0]));
                assert(is_mantissa(lex));
            }
            return Some(TokenKind::FloatLiteral(Span { start: i, end: j }));
        },
        IntParse::BadDigit => {},
    }
    if float_check(code, i, j) {
        return Some(TokenKind::FloatLiteral(Span { start: i, end: j }));
    }
    if regex_ident_match(code, i, j) {
        return Some(TokenKind::Identifier(Span { start: i, end: j }));
    }
    None
}

} // verus!
