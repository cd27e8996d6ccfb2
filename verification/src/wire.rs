//! The wire form of a token record.
//!
//! A token record `{ who, timestamp, nonce }` travels as a JSON object with
//! exactly those three keys, in that order: the subject as a JSON string, the
//! two integers as decimal literals. The subject's characters are written as
//! `\uXXXX` escapes (a surrogate pair for characters beyond the basic plane),
//! so the record text is plain ASCII and remains a JSON object that any
//! conforming reader decodes to the same three values.
//!
//! [`token_plain`] is the canonical record text of given fields.
//! [`parse_token_plain`] reads a record text back, and is deliberately wider
//! than the writer: it accepts the record in any standard JSON spelling of
//! the writer's key order — subjects written raw in UTF-8 or with any of the
//! standard escapes, JSON whitespace between tokens, and plain JSON integer
//! literals. [`lemma_parse_token_plain`] proves that every canonical record
//! text parses back to exactly the fields it was written from.

use vstd::arithmetic::div_mod::lemma_div_denominator;
use vstd::arithmetic::div_mod::lemma_div_is_ordered;
use vstd::arithmetic::div_mod::lemma_fundamental_div_mod;
use vstd::prelude::*;

verus! {

/// The lowercase hexadecimal digit of a value below 16.
pub open spec fn hex_digit(v: int) -> u8
    recommends
        0 <= v < 16,
{
    if v < 10 {
        (48 + v) as u8
    } else {
        (87 + v) as u8
    }
}

/// Four hexadecimal digits of a value below 0x10000, most significant first.
pub open spec fn hex4(v: int) -> Seq<u8>
    recommends
        0 <= v < 0x10000,
{
    seq![
        hex_digit(v / 4096 % 16),
        hex_digit(v / 256 % 16),
        hex_digit(v / 16 % 16),
        hex_digit(v % 16),
    ]
}

/// One `\uXXXX` escape unit for a code unit below 0x10000.
pub open spec fn unit_esc(v: int) -> Seq<u8>
    recommends
        0 <= v < 0x10000,
{
    seq![92u8, 117u8] + hex4(v)
}

/// The escape of one character: one unit for a basic-plane character, a
/// surrogate pair for a character beyond it.
pub open spec fn escape_char(c: char) -> Seq<u8> {
    let v = (c as u32) as int;
    if v < 0x10000 {
        unit_esc(v)
    } else {
        unit_esc(0xD800 + (v - 0x10000) / 0x400) + unit_esc(0xDC00 + (v - 0x10000) % 0x400)
    }
}

/// The escape of a character sequence.
pub open spec fn escape_chars(s: Seq<char>) -> Seq<u8>
    decreases s.len(),
{
    if s.len() == 0 {
        Seq::empty()
    } else {
        escape_char(s[0]) + escape_chars(s.drop_first())
    }
}

/// The decimal digits of a nonnegative value, no leading zeros.
pub open spec fn dec_digits(n: int) -> Seq<u8>
    recommends
        n >= 0,
    decreases n,
{
    if n < 10 {
        seq![(48 + n) as u8]
    } else {
        dec_digits(n / 10) + seq![(48 + n % 10) as u8]
    }
}

/// The decimal literal of an integer: a minus sign for a negative value, then
/// its magnitude's digits.
pub open spec fn int_lit(v: int) -> Seq<u8> {
    if v < 0 {
        seq![45u8] + dec_digits(-v)
    } else {
        dec_digits(v)
    }
}

/// The record text's opening: `{"who":"`.
pub open spec fn lit_head() -> Seq<u8> {
    seq![123u8, 34u8, 119u8, 104u8, 111u8, 34u8, 58u8, 34u8]
}

/// The record text between the subject and the timestamp: `,"timestamp":`.
pub open spec fn lit_timestamp() -> Seq<u8> {
    seq![44u8, 34u8, 116u8, 105u8, 109u8, 101u8, 115u8, 116u8, 97u8, 109u8, 112u8, 34u8, 58u8]
}

/// The record text between the timestamp and the nonce: `,"nonce":`.
pub open spec fn lit_nonce() -> Seq<u8> {
    seq![44u8, 34u8, 110u8, 111u8, 110u8, 99u8, 101u8, 34u8, 58u8]
}

/// The canonical record text of the fields `who`, `timestamp` and `nonce`.
pub open spec fn token_plain(who: Seq<char>, timestamp: int, nonce: int) -> Seq<u8> {
    lit_head() + escape_chars(who) + seq![34u8] + lit_timestamp() + int_lit(timestamp)
        + lit_nonce() + int_lit(nonce) + seq![125u8]
}

/// The escape of a concatenation is the concatenation of the escapes.
pub proof fn lemma_escape_chars_app(s1: Seq<char>, s2: Seq<char>)
    ensures
        escape_chars(s1 + s2) == escape_chars(s1) + escape_chars(s2),
    decreases s1.len(),
{
    if s1.len() == 0 {
        assert(s1 + s2 =~= s2);
        assert(escape_chars(s1) + escape_chars(s2) =~= escape_chars(s2));
    } else {
        assert((s1 + s2).drop_first() =~= s1.drop_first() + s2);
        lemma_escape_chars_app(s1.drop_first(), s2);
        assert((s1 + s2).len() != 0);
        assert((s1 + s2)[0] == s1[0]);
        assert(escape_char(s1[0]) + (escape_chars(s1.drop_first()) + escape_chars(s2)) =~= (
        escape_char(s1[0]) + escape_chars(s1.drop_first())) + escape_chars(s2));
    }
}

/// The escape of a single character.
pub proof fn lemma_escape_chars_single(c: char)
    ensures
        escape_chars(seq![c]) == escape_char(c),
{
    assert(seq![c].drop_first() =~= Seq::<char>::empty());
    assert(escape_chars(seq![c]) =~= escape_char(c) + escape_chars(Seq::<char>::empty()));
    assert(escape_char(c) + Seq::<u8>::empty() =~= escape_char(c));
}

/// Extending a prefix by one character extends its escape by that character's
/// escape.
pub proof fn lemma_escape_chars_snoc(s: Seq<char>, i: int)
    requires
        0 <= i < s.len(),
    ensures
        escape_chars(s.take(i + 1)) == escape_chars(s.take(i)) + escape_char(s[i]),
{
    assert(s.take(i + 1) =~= s.take(i) + seq![s[i]]);
    lemma_escape_chars_app(s.take(i), seq![s[i]]);
    lemma_escape_chars_single(s[i]);
}

/// The lowercase hexadecimal digit of a value below 16.
fn hex_byte(d: u8) -> (r: u8)
    requires
        d < 16,
    ensures
        r == hex_digit(d as int),
{
    if d < 10 {
        48 + d
    } else {
        87 + d
    }
}

/// Append the four hexadecimal digits of a code unit.
fn push_hex4(out: &mut Vec<u8>, v: u32)
    requires
        v < 0x10000,
    ensures
        final(out)@ == old(out)@ + hex4(v as int),
{
    out.push(hex_byte((v / 4096 % 16) as u8));
    out.push(hex_byte((v / 256 % 16) as u8));
    out.push(hex_byte((v / 16 % 16) as u8));
    out.push(hex_byte((v % 16) as u8));
    proof {
        assert(out@ =~= old(out)@ + hex4(v as int));
    }
}

/// Append one `\uXXXX` escape unit.
fn push_unit_esc(out: &mut Vec<u8>, v: u32)
    requires
        v < 0x10000,
    ensures
        final(out)@ == old(out)@ + unit_esc(v as int),
{
    out.push(92);
    out.push(117);
    push_hex4(out, v);
    proof {
        assert(out@ =~= old(out)@ + unit_esc(v as int));
    }
}

/// Append the escape of one character.
fn push_escaped_char(out: &mut Vec<u8>, c: char)
    ensures
        final(out)@ == old(out)@ + escape_char(c),
{
    let v = c as u32;
    if v < 0x10000 {
        push_unit_esc(out, v);
    } else {
        proof {
            vstd::utf8::char_is_scalar(c);
            assert((v - 0x10000) / 0x400 < 0x400) by (nonlinear_arith)
                requires
                    0x10000 <= v <= 0x10FFFF,
            ;
            assert((v - 0x10000) % 0x400 < 0x400) by (nonlinear_arith)
                requires
                    0x10000 <= v,
            ;
        }
        let hi = 0xD800 + (v - 0x10000) / 0x400;
        let lo = 0xDC00 + (v - 0x10000) % 0x400;
        push_unit_esc(out, hi);
        push_unit_esc(out, lo);
        proof {
            assert(out@ =~= old(out)@ + escape_char(c));
        }
    }
}

/// Append the escape of every character of the subject.
fn push_escaped(out: &mut Vec<u8>, who: &str)
    ensures
        final(out)@ == old(out)@ + escape_chars(who@),
{
    let n = who.unicode_len();
    let mut i: usize = 0;
    proof {
        assert(who@.take(0) =~= Seq::<char>::empty());
    }
    while i < n
        invariant
            n == who@.len(),
            i <= n,
            out@ == old(out)@ + escape_chars(who@.take(i as int)),
        decreases n - i,
    {
        let c = who.get_char(i);
        push_escaped_char(out, c);
        proof {
            lemma_escape_chars_snoc(who@, i as int);
        }
        i += 1;
    }
    proof {
        assert(who@.take(n as int) =~= who@);
    }
}

/// Append the decimal digits of a nonnegative value.
fn push_dec(out: &mut Vec<u8>, n: u64)
    ensures
        final(out)@ == old(out)@ + dec_digits(n as int),
    decreases n,
{
    if n < 10 {
        out.push(48 + (n as u8));
        proof {
            assert(out@ =~= old(out)@ + dec_digits(n as int));
        }
    } else {
        push_dec(out, n / 10);
        out.push(48 + ((n % 10) as u8));
        proof {
            assert(out@ =~= old(out)@ + dec_digits(n as int));
        }
    }
}

/// Append the decimal literal of an integer.
fn push_int(out: &mut Vec<u8>, v: i64)
    ensures
        final(out)@ == old(out)@ + int_lit(v as int),
{
    if v < 0 {
        out.push(45);
        let mag = (-(v as i128)) as u64;
        proof {
            assert(mag as int == -(v as int));
        }
        push_dec(out, mag);
        proof {
            assert(out@ =~= old(out)@ + int_lit(v as int));
        }
    } else {
        push_dec(out, v as u64);
    }
}

/// Ten to the `k`th power (1 for any nonpositive `k`).
pub open spec fn pow10(k: int) -> int
    decreases k,
{
    if k <= 0 {
        1
    } else {
        10 * pow10(k - 1)
    }
}

/// Ten to any power is positive.
pub proof fn lemma_pow10_pos(k: int)
    ensures
        pow10(k) >= 1,
    decreases k,
{
    if k > 0 {
        lemma_pow10_pos(k - 1);
    }
}

/// Ten to a power never shrinks as the power grows.
pub proof fn lemma_pow10_increases(a: int, b: int)
    requires
        a <= b,
    ensures
        pow10(a) <= pow10(b),
    decreases b - a,
{
    if a < b {
        lemma_pow10_increases(a, b - 1);
        lemma_pow10_pos(b - 1);
    }
}

/// Ten to the nineteenth, written out.
proof fn lemma_pow10_19()
    ensures
        pow10(19) == 10000000000000000000,
        pow10(18) == 1000000000000000000,
{
    reveal_with_fuel(pow10, 21);
}

/// The value of a hexadecimal digit byte, either case, or -1 for any other
/// byte.
pub open spec fn hex_val(b: u8) -> int {
    if 48 <= b <= 57 {
        b - 48
    } else if 97 <= b <= 102 {
        b - 87
    } else if 65 <= b <= 70 {
        b - 55
    } else {
        -1
    }
}

/// Whether a byte is a hexadecimal digit.
pub open spec fn is_hex(b: u8) -> bool {
    hex_val(b) >= 0
}

/// Whether a byte is JSON whitespace.
pub open spec fn is_ws(b: u8) -> bool {
    b == 32 || b == 9 || b == 10 || b == 13
}

/// The first position at or after `pos` that holds no JSON whitespace.
pub open spec fn skip_ws(j: Seq<u8>, pos: int) -> int
    decreases j.len() - pos,
{
    if pos < 0 || pos >= j.len() || !is_ws(j[pos]) {
        pos
    } else {
        skip_ws(j, pos + 1)
    }
}

/// Whether a byte is a UTF-8 continuation byte.
pub open spec fn is_cont(b: u8) -> bool {
    0x80 <= b <= 0xBF
}

/// Whether a byte is a decimal digit.
pub open spec fn is_digit(b: u8) -> bool {
    48 <= b <= 57
}

/// Read one `\uXXXX` escape unit at `pos`: its code unit, or `None` where no
/// well-formed unit starts there.
pub open spec fn scan_unit(j: Seq<u8>, pos: int) -> Option<int> {
    if 0 <= pos && pos + 6 <= j.len() && j[pos] == 92 && j[pos + 1] == 117 && is_hex(j[pos + 2])
        && is_hex(j[pos + 3]) && is_hex(j[pos + 4]) && is_hex(j[pos + 5]) {
        Some(
            hex_val(j[pos + 2]) * 4096 + hex_val(j[pos + 3]) * 256 + hex_val(j[pos + 4]) * 16
                + hex_val(j[pos + 5]),
        )
    } else {
        None
    }
}

/// Read one backslash escape at `pos`: the character it stands for and the
/// position after it. A `\uXXXX` unit that names a high surrogate must be
/// followed by a low-surrogate unit; the pair names one character.
pub open spec fn scan_escape(j: Seq<u8>, pos: int) -> Option<(char, int)> {
    if pos < 0 || pos + 2 > j.len() {
        None
    } else {
        let e = j[pos + 1];
        if e == 34 {
            Some(('"', pos + 2))
        } else if e == 92 {
            Some(('\\', pos + 2))
        } else if e == 47 {
            Some(('/', pos + 2))
        } else if e == 98 {
            Some(('\u{8}', pos + 2))
        } else if e == 102 {
            Some(('\u{c}', pos + 2))
        } else if e == 110 {
            Some(('\n', pos + 2))
        } else if e == 114 {
            Some(('\r', pos + 2))
        } else if e == 116 {
            Some(('\t', pos + 2))
        } else if e == 117 {
            match scan_unit(j, pos) {
                None => None,
                Some(u) => {
                    if 0xD800 <= u < 0xDC00 {
                        match scan_unit(j, pos + 6) {
                            None => None,
                            Some(l) => {
                                if 0xDC00 <= l < 0xE000 {
                                    Some(
                                        (
                                            ((0x10000 + (u - 0xD800) * 0x400 + (l
                                                - 0xDC00)) as u32) as char,
                                            pos + 12,
                                        ),
                                    )
                                } else {
                                    None
                                }
                            },
                        }
                    } else if 0xDC00 <= u < 0xE000 {
                        None
                    } else {
                        Some(((u as u32) as char, pos + 6))
                    }
                },
            }
        } else {
            None
        }
    }
}

/// Read one UTF-8 encoded character of two to four bytes at `pos`: the
/// character and the position after it. Overlong encodings, surrogates and
/// values beyond the last code point are refused.
pub open spec fn scan_utf8(j: Seq<u8>, pos: int) -> Option<(char, int)> {
    if pos < 0 || pos >= j.len() {
        None
    } else {
        let b0 = j[pos];
        if 0xC2 <= b0 <= 0xDF {
            if pos + 2 <= j.len() && is_cont(j[pos + 1]) {
                Some(((((b0 - 0xC0) * 0x40 + (j[pos + 1] - 0x80)) as u32) as char, pos + 2))
            } else {
                None
            }
        } else if 0xE0 <= b0 <= 0xEF {
            if pos + 3 <= j.len() && is_cont(j[pos + 1]) && is_cont(j[pos + 2]) && (b0 != 0xE0
                || j[pos + 1] >= 0xA0) && (b0 != 0xED || j[pos + 1] <= 0x9F) {
                Some(
                    (
                        (((b0 - 0xE0) * 0x1000 + (j[pos + 1] - 0x80) * 0x40 + (j[pos + 2]
                            - 0x80)) as u32) as char,
                        pos + 3,
                    ),
                )
            } else {
                None
            }
        } else if 0xF0 <= b0 <= 0xF4 {
            if pos + 4 <= j.len() && is_cont(j[pos + 1]) && is_cont(j[pos + 2]) && is_cont(
                j[pos + 3],
            ) && (b0 != 0xF0 || j[pos + 1] >= 0x90) && (b0 != 0xF4 || j[pos + 1] <= 0x8F) {
                Some(
                    (
                        (((b0 - 0xF0) * 0x40000 + (j[pos + 1] - 0x80) * 0x1000 + (j[pos + 2]
                            - 0x80) * 0x40 + (j[pos + 3] - 0x80)) as u32) as char,
                        pos + 4,
                    ),
                )
            } else {
                None
            }
        } else {
            None
        }
    }
}

/// Read a JSON string body starting at `pos` up to and including its closing
/// quote: the characters read and the position after the quote. Characters
/// may stand raw (in UTF-8) or behind any standard escape; control bytes must
/// be escaped.
pub open spec fn scan_str(j: Seq<u8>, pos: int) -> Option<(Seq<char>, int)>
    decreases j.len() - pos,
{
    if pos < 0 || pos >= j.len() {
        None
    } else if j[pos] == 34 {
        Some((Seq::empty(), pos + 1))
    } else if j[pos] == 92 {
        match scan_escape(j, pos) {
            None => None,
            Some(ce) => match scan_str(j, ce.1) {
                None => None,
                Some(we) => Some((seq![ce.0] + we.0, we.1)),
            },
        }
    } else if j[pos] < 0x20 {
        None
    } else if j[pos] < 0x80 {
        match scan_str(j, pos + 1) {
            None => None,
            Some(we) => Some((seq![j[pos] as char] + we.0, we.1)),
        }
    } else {
        match scan_utf8(j, pos) {
            None => None,
            Some(ce) => match scan_str(j, ce.1) {
                None => None,
                Some(we) => Some((seq![ce.0] + we.0, we.1)),
            },
        }
    }
}

/// The first position at or after `pos` that holds no decimal digit.
pub open spec fn digits_end(j: Seq<u8>, pos: int) -> int
    decreases j.len() - pos,
{
    if pos < 0 || pos >= j.len() || !is_digit(j[pos]) {
        pos
    } else {
        digits_end(j, pos + 1)
    }
}

/// The value of the decimal digits `j[pos..end]`.
pub open spec fn digits_val(j: Seq<u8>, pos: int, end: int) -> int
    decreases end - pos,
{
    if pos >= end {
        0
    } else {
        digits_val(j, pos, end - 1) * 10 + (j[end - 1] - 48)
    }
}

/// Read a JSON integer literal of a signed 64-bit value at `pos`: the value
/// and the position after its last digit. `None` where the text is no such
/// literal: no digits, a leading zero (which JSON forbids), or a value
/// outside the signed 64-bit range. `-0` is valid JSON and reads as zero.
pub open spec fn scan_int(j: Seq<u8>, pos: int) -> Option<(int, int)> {
    if pos < 0 || pos >= j.len() {
        None
    } else if j[pos] == 45 {
        let e = digits_end(j, pos + 1);
        if e == pos + 1 {
            None
        } else if j[pos + 1] == 48 {
            if e == pos + 2 {
                Some((0, e))
            } else {
                None
            }
        } else {
            let v = -digits_val(j, pos + 1, e);
            if v >= -0x8000000000000000 {
                Some((v, e))
            } else {
                None
            }
        }
    } else {
        let e = digits_end(j, pos);
        if e == pos {
            None
        } else if j[pos] == 48 && e > pos + 1 {
            None
        } else {
            let v = digits_val(j, pos, e);
            if v <= 0x7fffffffffffffff {
                Some((v, e))
            } else {
                None
            }
        }
    }
}

/// The bytes at `pos` start with the pattern: the position after it, or
/// `None`.
pub open spec fn expect_bytes(j: Seq<u8>, pos: int, pat: Seq<u8>) -> Option<int> {
    if 0 <= pos && pos + pat.len() <= j.len() && j.subrange(pos, pos + pat.len()) == pat {
        Some(pos + pat.len())
    } else {
        None
    }
}

/// The quoted key `"who"`.
pub open spec fn lit_key_who() -> Seq<u8> {
    seq![34u8, 119u8, 104u8, 111u8, 34u8]
}

/// The quoted key `"timestamp"`.
pub open spec fn lit_key_timestamp() -> Seq<u8> {
    seq![34u8, 116u8, 105u8, 109u8, 101u8, 115u8, 116u8, 97u8, 109u8, 112u8, 34u8]
}

/// The quoted key `"nonce"`.
pub open spec fn lit_key_nonce() -> Seq<u8> {
    seq![34u8, 110u8, 111u8, 110u8, 99u8, 101u8, 34u8]
}

/// Read a whole record text: the three fields, or `None` where the text is
/// not a JSON object with exactly the keys `who` (a string), `timestamp` and
/// `nonce` (signed 64-bit integers), in that order, with nothing after it but
/// whitespace.
pub open spec fn parse_token_plain(j: Seq<u8>) -> Option<(Seq<char>, int, int)> {
    let p0 = skip_ws(j, 0);
    if p0 >= j.len() || j[p0] != 123 {
        None
    } else {
        match expect_bytes(j, skip_ws(j, p0 + 1), lit_key_who()) {
            None => None,
            Some(k1) => {
                let c1 = skip_ws(j, k1);
                if c1 >= j.len() || j[c1] != 58 {
                    None
                } else {
                    let q1 = skip_ws(j, c1 + 1);
                    if q1 >= j.len() || j[q1] != 34 {
                        None
                    } else {
                        match scan_str(j, q1 + 1) {
                            None => None,
                            Some(wp) => {
                                let s1 = skip_ws(j, wp.1);
                                if s1 >= j.len() || j[s1] != 44 {
                                    None
                                } else {
                                    match expect_bytes(
                                        j,
                                        skip_ws(j, s1 + 1),
                                        lit_key_timestamp(),
                                    ) {
                                        None => None,
                                        Some(k2) => {
                                            let c2 = skip_ws(j, k2);
                                            if c2 >= j.len() || j[c2] != 58 {
                                                None
                                            } else {
                                                match scan_int(j, skip_ws(j, c2 + 1)) {
                                                    None => None,
                                                    Some(tp) => {
                                                        let s2 = skip_ws(j, tp.1);
                                                        if s2 >= j.len() || j[s2] != 44 {
                                                            None
                                                        } else {
                                                            parse_token_tail(j, s2, wp.0, tp.0)
                                                        }
                                                    },
                                                }
                                            }
                                        },
                                    }
                                }
                            },
                        }
                    }
                }
            },
        }
    }
}

/// Read the rest of a record text from the comma before the `nonce` key: the
/// three fields, the first two handed in.
pub open spec fn parse_token_tail(j: Seq<u8>, s2: int, w: Seq<char>, t: int) -> Option<
    (Seq<char>, int, int),
> {
    match expect_bytes(j, skip_ws(j, s2 + 1), lit_key_nonce()) {
        None => None,
        Some(k3) => {
            let c3 = skip_ws(j, k3);
            if c3 >= j.len() || j[c3] != 58 {
                None
            } else {
                match scan_int(j, skip_ws(j, c3 + 1)) {
                    None => None,
                    Some(np) => {
                        let s3 = skip_ws(j, np.1);
                        if s3 >= j.len() || j[s3] != 125 {
                            None
                        } else if skip_ws(j, s3 + 1) == j.len() {
                            Some((w, t, np.0))
                        } else {
                            None
                        }
                    },
                }
            }
        },
    }
}

/// Relies on `char::from_u32`: it returns the character of every Unicode
/// scalar value, and the argument is one by the `requires`.
#[verifier::external_body]
fn char_from_scalar(v: u32) -> (c: char)
    requires
        v < 0xD800 || (0xE000 <= v && v <= 0x10FFFF),
    ensures
        c == (v as char),
        c as u32 == v,
{
    char::from_u32(v).unwrap()
}

/// Relies on `String::push`: it appends the given character.
pub assume_specification [String::push] (s: &mut String, c: char)
    ensures
        final(s)@ == old(s)@ + seq![c],
;

/// The value of a hexadecimal digit byte, or `None` for any other byte.
fn hex_val_byte(b: u8) -> (r: Option<u8>)
    ensures
        match r {
            Some(d) => d as int == hex_val(b) && d < 16,
            None => !is_hex(b),
        },
{
    if 48 <= b && b <= 57 {
        Some(b - 48)
    } else if 97 <= b && b <= 102 {
        Some(b - 87)
    } else if 65 <= b && b <= 70 {
        Some(b - 55)
    } else {
        None
    }
}

/// Read one `\uXXXX` escape unit at `pos`.
fn read_unit(j: &Vec<u8>, pos: usize) -> (r: Option<u32>)
    requires
        pos <= j@.len(),
    ensures
        match r {
            Some(u) => scan_unit(j@, pos as int) == Some(u as int) && u < 0x10000 && pos + 6
                <= j@.len(),
            None => scan_unit(j@, pos as int) is None,
        },
{
    if j.len() - pos < 6 {
        return None;
    }
    if j[pos] != 92 || j[pos + 1] != 117 {
        return None;
    }
    let d0 = match hex_val_byte(j[pos + 2]) {
        Some(d) => d,
        None => {
            return None;
        },
    };
    let d1 = match hex_val_byte(j[pos + 3]) {
        Some(d) => d,
        None => {
            return None;
        },
    };
    let d2 = match hex_val_byte(j[pos + 4]) {
        Some(d) => d,
        None => {
            return None;
        },
    };
    let d3 = match hex_val_byte(j[pos + 5]) {
        Some(d) => d,
        None => {
            return None;
        },
    };
    Some((d0 as u32) * 4096 + (d1 as u32) * 256 + (d2 as u32) * 16 + (d3 as u32))
}

/// Read an escaped string body up to and including its closing quote.
fn scan_str_exec(j: &Vec<u8>, pos: usize) -> (r: Option<(String, usize)>)
    requires
        pos <= j@.len(),
    ensures
        match r {
            Some(p) => scan_str(j@, pos as int) == Some((p.0@, p.1 as int)) && pos < p.1
                <= j@.len(),
            None => scan_str(j@, pos as int) is None,
        },
{
    let mut acc = String::new();
    let mut cur: usize = pos;
    loop
        invariant
            pos <= cur <= j@.len(),
            scan_str(j@, pos as int) == (match scan_str(j@, cur as int) {
                Some(we) => Some((acc@ + we.0, we.1)),
                None => None::<(Seq<char>, int)>,
            }),
        decreases j@.len() - cur,
    {
        if cur >= j.len() {
            return None;
        }
        let b = j[cur];
        if b == 34 {
            proof {
                assert(acc@ + Seq::<char>::empty() =~= acc@);
            }
            return Some((acc, cur + 1));
        }
        let ghost prev = cur as int;
        let c: char;
        if b == 92 {
            if j.len() - cur < 2 {
                return None;
            }
            let e = j[cur + 1];
            if e == 34 {
                c = '"';
                cur = cur + 2;
            } else if e == 92 {
                c = '\\';
                cur = cur + 2;
            } else if e == 47 {
                c = '/';
                cur = cur + 2;
            } else if e == 98 {
                c = '\u{8}';
                cur = cur + 2;
            } else if e == 102 {
                c = '\u{c}';
                cur = cur + 2;
            } else if e == 110 {
                c = '\n';
                cur = cur + 2;
            } else if e == 114 {
                c = '\r';
                cur = cur + 2;
            } else if e == 116 {
                c = '\t';
                cur = cur + 2;
            } else if e == 117 {
                let u = match read_unit(j, cur) {
                    Some(u) => u,
                    None => {
                        return None;
                    },
                };
                if 0xD800 <= u && u < 0xDC00 {
                    let l = match read_unit(j, cur + 6) {
                        Some(l) => l,
                        None => {
                            return None;
                        },
                    };
                    if !(0xDC00 <= l && l < 0xE000) {
                        return None;
                    }
                    c = char_from_scalar(0x10000 + (u - 0xD800) * 0x400 + (l - 0xDC00));
                    cur = cur + 12;
                } else if 0xDC00 <= u && u < 0xE000 {
                    return None;
                } else {
                    c = char_from_scalar(u);
                    cur = cur + 6;
                }
            } else {
                return None;
            }
            proof {
                assert(scan_escape(j@, prev) == Some((c, cur as int)));
            }
        } else if b < 0x20 {
            return None;
        } else if b < 0x80 {
            c = b as char;
            cur = cur + 1;
        } else if 0xC2 <= b && b <= 0xDF {
            if j.len() - cur < 2 {
                return None;
            }
            let c1 = j[cur + 1];
            if !(0x80 <= c1 && c1 <= 0xBF) {
                return None;
            }
            let cp: u32 = ((b - 0xC0) as u32) * 0x40 + ((c1 - 0x80) as u32);
            proof {
                assert(cp <= 0x7FF);
            }
            c = char_from_scalar(cp);
            cur = cur + 2;
            proof {
                assert(scan_utf8(j@, prev) == Some((c, cur as int)));
            }
        } else if 0xE0 <= b && b <= 0xEF {
            if j.len() - cur < 3 {
                return None;
            }
            let c1 = j[cur + 1];
            let c2 = j[cur + 2];
            if !(0x80 <= c1 && c1 <= 0xBF) || !(0x80 <= c2 && c2 <= 0xBF) {
                return None;
            }
            if b == 0xE0 && c1 < 0xA0 {
                return None;
            }
            if b == 0xED && c1 > 0x9F {
                return None;
            }
            let cp: u32 = ((b - 0xE0) as u32) * 0x1000 + ((c1 - 0x80) as u32) * 0x40 + ((c2
                - 0x80) as u32);
            proof {
                if b < 0xED {
                    assert(cp < 0xD800);
                } else if b == 0xED {
                    assert(cp < 0xD800);
                } else {
                    assert(0xE000 <= cp <= 0xFFFF);
                }
            }
            c = char_from_scalar(cp);
            cur = cur + 3;
            proof {
                assert(scan_utf8(j@, prev) == Some((c, cur as int)));
            }
        } else if 0xF0 <= b && b <= 0xF4 {
            if j.len() - cur < 4 {
                return None;
            }
            let c1 = j[cur + 1];
            let c2 = j[cur + 2];
            let c3 = j[cur + 3];
            if !(0x80 <= c1 && c1 <= 0xBF) || !(0x80 <= c2 && c2 <= 0xBF) || !(0x80 <= c3 && c3
                <= 0xBF) {
                return None;
            }
            if b == 0xF0 && c1 < 0x90 {
                return None;
            }
            if b == 0xF4 && c1 > 0x8F {
                return None;
            }
            let cp: u32 = ((b - 0xF0) as u32) * 0x40000 + ((c1 - 0x80) as u32) * 0x1000 + ((c2
                - 0x80) as u32) * 0x40 + ((c3 - 0x80) as u32);
            proof {
                if b == 0xF4 {
                    assert(0x10000 <= cp <= 0x10FFFF);
                } else {
                    assert(0x10000 <= cp <= 0xFFFFF);
                }
            }
            c = char_from_scalar(cp);
            cur = cur + 4;
            proof {
                assert(scan_utf8(j@, prev) == Some((c, cur as int)));
            }
        } else {
            return None;
        }
        let ghost acc_before = acc@;
        acc.push(c);
        proof {
            assert(scan_str(j@, prev) == (match scan_str(j@, cur as int) {
                Some(we) => Some((seq![c] + we.0, we.1)),
                None => None::<(Seq<char>, int)>,
            }));
            assert(forall|w: Seq<char>| acc_before + (seq![c] + w) =~= (acc_before + seq![c]) + w);
        }
    }
}

/// Read a canonical decimal literal of a signed 64-bit value.
fn scan_int_exec(j: &Vec<u8>, pos: usize) -> (r: Option<(i64, usize)>)
    requires
        pos <= j@.len(),
    ensures
        match r {
            Some(p) => scan_int(j@, pos as int) == Some((p.0 as int, p.1 as int)) && pos < p.1
                <= j@.len(),
            None => scan_int(j@, pos as int) is None,
        },
{
    if pos >= j.len() {
        return None;
    }
    let neg = j[pos] == 45;
    let start: usize = if neg {
        pos + 1
    } else {
        pos
    };
    let mut e: usize = start;
    while e < j.len() && 48 <= j[e] && j[e] <= 57
        invariant
            start <= e <= j@.len(),
            start <= j@.len(),
            forall|k: int| start <= k < e ==> is_digit(j@[k]),
        decreases j@.len() - e,
    {
        e = e + 1;
    }
    proof {
        lemma_digits_end_range(j@, start as int, e as int);
    }
    if e == start {
        return None;
    }
    if j[start] == 48 {
        if neg {
            if e == start + 1 {
                return Some((0, e));
            }
            return None;
        }
        if e > start + 1 {
            return None;
        }
    }
    if e - start > 19 {
        proof {
            lemma_digits_val_lower(j@, start as int, e as int);
            lemma_pow10_19();
            lemma_pow10_increases(19, e - start - 1);
        }
        return None;
    }
    let mut acc: u64 = 0;
    let mut k: usize = start;
    while k < e
        invariant
            start <= k <= e <= j@.len(),
            e - start <= 19,
            forall|kk: int| start <= kk < e ==> is_digit(j@[kk]),
            acc as int == digits_val(j@, start as int, k as int),
            (acc as int) < pow10(k - start),
        decreases e - k,
    {
        proof {
            lemma_pow10_19();
            lemma_pow10_increases(k - start, 18);
        }
        let d: u8 = j[k] - 48;
        acc = acc * 10 + (d as u64);
        k = k + 1;
    }
    if neg {
        if acc > 9223372036854775808 {
            return None;
        }
        let v: i64 = (-(acc as i128)) as i64;
        Some((v, e))
    } else {
        if acc > 9223372036854775807 {
            return None;
        }
        Some((acc as i64, e))
    }
}

/// Positions `pos..end` hold digits and `end` holds none: the digit run from
/// `pos` ends exactly at `end`.
proof fn lemma_digits_end_range(j: Seq<u8>, pos: int, end: int)
    requires
        0 <= pos <= end <= j.len(),
        forall|k: int| pos <= k < end ==> is_digit(j[k]),
        end == j.len() || !is_digit(j[end]),
    ensures
        digits_end(j, pos) == end,
    decreases end - pos,
{
    if pos < end {
        lemma_digits_end_range(j, pos + 1, end);
    }
}

/// The value of a digit run without a leading zero is at least ten to one
/// less than its length.
proof fn lemma_digits_val_lower(j: Seq<u8>, pos: int, end: int)
    requires
        0 <= pos < end <= j.len(),
        forall|k: int| pos <= k < end ==> is_digit(j[k]),
        j[pos] != 48,
    ensures
        digits_val(j, pos, end) >= pow10(end - pos - 1),
    decreases end - pos,
{
    if pos + 1 == end {
        assert(digits_val(j, pos, pos) == 0);
        assert(digits_val(j, pos, end) == j[pos] - 48);
    } else {
        lemma_digits_val_lower(j, pos, end - 1);
        lemma_pow10_pos(end - pos - 2);
    }
}

/// Write the canonical record text of the fields `who`, `timestamp` and
/// `nonce`.
pub fn emit_token_record(who: &str, timestamp: i64, nonce: i64) -> (r: Vec<u8>)
    ensures
        r@ == token_plain(who@, timestamp as int, nonce as int),
{
    let mut out: Vec<u8> = Vec::new();
    out.push(123);
    out.push(34);
    out.push(119);
    out.push(104);
    out.push(111);
    out.push(34);
    out.push(58);
    out.push(34);
    proof {
        assert(out@ =~= lit_head());
    }
    push_escaped(&mut out, who);
    out.push(34);
    out.push(44);
    out.push(34);
    out.push(116);
    out.push(105);
    out.push(109);
    out.push(101);
    out.push(115);
    out.push(116);
    out.push(97);
    out.push(109);
    out.push(112);
    out.push(34);
    out.push(58);
    proof {
        assert(out@ =~= lit_head() + escape_chars(who@) + seq![34u8] + lit_timestamp());
    }
    push_int(&mut out, timestamp);
    out.push(44);
    out.push(34);
    out.push(110);
    out.push(111);
    out.push(110);
    out.push(99);
    out.push(101);
    out.push(34);
    out.push(58);
    push_int(&mut out, nonce);
    out.push(125);
    proof {
        assert(out@ =~= token_plain(who@, timestamp as int, nonce as int));
    }
    out
}

/// A window inside an equal window is the same slice of the pattern.
proof fn lemma_window(j: Seq<u8>, pos: int, s: Seq<u8>, a: int, b: int)
    requires
        0 <= pos,
        pos + s.len() <= j.len(),
        j.subrange(pos, pos + s.len()) == s,
        0 <= a <= b <= s.len(),
    ensures
        j.subrange(pos + a, pos + b) == s.subrange(a, b),
{
    assert forall|k: int| 0 <= k < b - a implies j.subrange(pos + a, pos + b)[k] == s.subrange(
        a,
        b,
    )[k] by {
        assert(j.subrange(pos, pos + s.len())[a + k] == j[pos + a + k]);
    }
    assert(j.subrange(pos + a, pos + b) =~= s.subrange(a, b));
}

/// A hexadecimal digit byte reads back as its value.
proof fn lemma_hex_val_digit(d: int)
    requires
        0 <= d < 16,
    ensures
        hex_val(hex_digit(d)) == d,
        is_hex(hex_digit(d)),
{
}

/// The four hexadecimal digits of a code unit weigh back to that unit.
proof fn lemma_hex4_reconstruct(v: int)
    requires
        0 <= v < 0x10000,
    ensures
        hex_val(hex_digit(v / 4096 % 16)) * 4096 + hex_val(hex_digit(v / 256 % 16)) * 256
            + hex_val(hex_digit(v / 16 % 16)) * 16 + hex_val(hex_digit(v % 16)) == v,
{
    lemma_hex_val_digit(v / 4096 % 16);
    lemma_hex_val_digit(v / 256 % 16);
    lemma_hex_val_digit(v / 16 % 16);
    lemma_hex_val_digit(v % 16);
    let q1 = v / 16;
    let q2 = v / 256;
    let q3 = v / 4096;
    lemma_div_denominator(v, 16, 16);
    lemma_div_denominator(v, 256, 16);
    lemma_fundamental_div_mod(v, 16);
    lemma_fundamental_div_mod(q1, 16);
    lemma_fundamental_div_mod(q2, 16);
    lemma_div_is_ordered(v, 0xFFFF, 4096);
    lemma_div_is_ordered(0, v, 4096);
    assert(0xFFFFint / 4096 == 15);
    assert(0int / 4096 == 0);
    assert(q3 % 16 == q3);
}

/// A `\uXXXX` escape of a code unit scans back as that unit.
proof fn lemma_scan_unit_esc(j: Seq<u8>, pos: int, v: int)
    requires
        0 <= pos,
        pos + 6 <= j.len(),
        0 <= v < 0x10000,
        j.subrange(pos, pos + 6) == unit_esc(v),
    ensures
        scan_unit(j, pos) == Some(v),
{
    let u = unit_esc(v);
    assert(u.len() == 6);
    assert forall|k: int| 0 <= k < 6 implies j[pos + k] == u[k] by {
        assert(j.subrange(pos, pos + 6)[k] == j[pos + k]);
    }
    assert(u[0] == 92 && u[1] == 117);
    assert(u[2] == hex_digit(v / 4096 % 16));
    assert(u[3] == hex_digit(v / 256 % 16));
    assert(u[4] == hex_digit(v / 16 % 16));
    assert(u[5] == hex_digit(v % 16));
    lemma_hex4_reconstruct(v);
}

/// An escaped string body followed by a closing quote scans back as the
/// characters it was written from.
pub proof fn lemma_scan_str_esc(j: Seq<u8>, pos: int, w: Seq<char>)
    requires
        0 <= pos,
        pos + escape_chars(w).len() + 1 <= j.len(),
        j.subrange(pos, pos + escape_chars(w).len() + 1) == escape_chars(w) + seq![34u8],
    ensures
        scan_str(j, pos) == Some((w, pos + escape_chars(w).len() + 1)),
    decreases w.len(),
{
    let ec = escape_chars(w);
    let pat = ec + seq![34u8];
    if w.len() == 0 {
        assert(ec =~= Seq::<u8>::empty());
        assert(j.subrange(pos, pos + 1)[0] == j[pos]);
        assert(j[pos] == pat[0]);
        assert(w =~= Seq::<char>::empty());
    } else {
        let c = w[0];
        let rest = w.drop_first();
        let ecr = escape_chars(rest);
        let e0 = escape_char(c);
        assert(ec == e0 + ecr);
        vstd::utf8::char_is_scalar(c);
        vstd::utf8::char_u32_cast(c, c as u32);
        let v = (c as u32) as int;
        assert(j.subrange(pos + e0.len(), pos + ec.len() + 1) == pat.subrange(
            e0.len() as int,
            pat.len() as int,
        )) by {
            lemma_window(j, pos, pat, e0.len() as int, pat.len() as int);
        }
        assert(pat.subrange(e0.len() as int, pat.len() as int) =~= ecr + seq![34u8]);
        lemma_scan_str_esc(j, pos + e0.len(), rest);
        assert(seq![c] + rest =~= w);
        if v < 0x10000 {
            assert(e0 == unit_esc(v));
            assert(j.subrange(pos, pos + 6) == pat.subrange(0, 6)) by {
                lemma_window(j, pos, pat, 0, 6);
            }
            assert(pat.subrange(0, 6) =~= unit_esc(v));
            lemma_scan_unit_esc(j, pos, v);
            assert(j[pos] == 92 && j[pos + 1] == 117) by {
                assert(j.subrange(pos, pos + 6)[0] == j[pos]);
                assert(j.subrange(pos, pos + 6)[1] == j[pos + 1]);
            }
            assert((v as u32) as char == c);
            assert(scan_escape(j, pos) == Some((c, pos + 6)));
        } else {
            let hi = 0xD800 + (v - 0x10000) / 0x400;
            let lo = 0xDC00 + (v - 0x10000) % 0x400;
            lemma_div_is_ordered(v - 0x10000, 0xFFFFF, 0x400);
            lemma_div_is_ordered(0, v - 0x10000, 0x400);
            assert(0xFFFFFint / 0x400 == 1023);
            assert(0int / 0x400 == 0);
            assert(e0 == unit_esc(hi) + unit_esc(lo));
            assert(j.subrange(pos, pos + 6) == pat.subrange(0, 6)) by {
                lemma_window(j, pos, pat, 0, 6);
            }
            assert(pat.subrange(0, 6) =~= unit_esc(hi));
            lemma_scan_unit_esc(j, pos, hi);
            assert(j.subrange(pos + 6, pos + 12) == pat.subrange(6, 12)) by {
                lemma_window(j, pos, pat, 6, 12);
            }
            assert(pat.subrange(6, 12) =~= unit_esc(lo));
            lemma_scan_unit_esc(j, pos + 6, lo);
            lemma_fundamental_div_mod(v - 0x10000, 0x400);
            assert(0x10000 + (hi - 0xD800) * 0x400 + (lo - 0xDC00) == v);
            assert(((0x10000 + (hi - 0xD800) * 0x400 + (lo - 0xDC00)) as u32) as char == c);
            assert(j[pos] == 92 && j[pos + 1] == 117) by {
                assert(j.subrange(pos, pos + 6)[0] == j[pos]);
                assert(j.subrange(pos, pos + 6)[1] == j[pos + 1]);
            }
            assert(scan_escape(j, pos) == Some((c, pos + 12)));
        }
    }
}

/// The digits of a decimal literal are digits, at least one, and start with a
/// zero only for the value zero.
proof fn lemma_dec_digits_are_digits(n: int)
    requires
        n >= 0,
    ensures
        dec_digits(n).len() >= 1,
        forall|k: int| 0 <= k < dec_digits(n).len() ==> is_digit(#[trigger] dec_digits(n)[k]),
        dec_digits(n)[0] == 48 ==> n == 0,
    decreases n,
{
    if n >= 10 {
        lemma_dec_digits_are_digits(n / 10);
        lemma_div_is_ordered(10, n, 10);
        assert(10int / 10 == 1);
        assert(dec_digits(n)[0] == dec_digits(n / 10)[0]);
    }
}

/// A decimal literal's digits weigh back to its value.
proof fn lemma_digits_val_of_dec(j: Seq<u8>, pos: int, n: int)
    requires
        n >= 0,
        0 <= pos,
        pos + dec_digits(n).len() <= j.len(),
        j.subrange(pos, pos + dec_digits(n).len()) == dec_digits(n),
    ensures
        digits_val(j, pos, pos + dec_digits(n).len()) == n,
    decreases n,
{
    let dd = dec_digits(n);
    let end = pos + dd.len();
    assert(j[end - 1] == dd[dd.len() - 1]) by {
        assert(j.subrange(pos, end)[dd.len() - 1] == j[end - 1]);
    }
    if n < 10 {
        assert(digits_val(j, pos, pos) == 0);
    } else {
        let ddp = dec_digits(n / 10);
        assert(dd == ddp + seq![(48 + n % 10) as u8]);
        assert(dd.subrange(0, ddp.len() as int) =~= ddp);
        lemma_window(j, pos, dd, 0, ddp.len() as int);
        lemma_digits_val_of_dec(j, pos, n / 10);
        lemma_fundamental_div_mod(n, 10);
    }
}

/// A decimal integer literal followed by a non-digit scans back as its value.
proof fn lemma_scan_int_lit(j: Seq<u8>, pos: int, v: int)
    requires
        -0x8000000000000000 <= v <= 0x7fffffffffffffff,
        0 <= pos,
        pos + int_lit(v).len() <= j.len(),
        j.subrange(pos, pos + int_lit(v).len()) == int_lit(v),
        pos + int_lit(v).len() == j.len() || !is_digit(j[pos + int_lit(v).len()]),
    ensures
        scan_int(j, pos) == Some((v, pos + int_lit(v).len())),
{
    let il = int_lit(v);
    let end = pos + il.len();
    if v >= 0 {
        let dd = dec_digits(v);
        assert(il == dd);
        lemma_dec_digits_are_digits(v);
        assert forall|k: int| pos <= k < end implies is_digit(j[k]) by {
            assert(j.subrange(pos, end)[k - pos] == j[k]);
        }
        lemma_digits_end_range(j, pos, end);
        assert(j[pos] == dd[0]) by {
            assert(j.subrange(pos, end)[0] == j[pos]);
        }
        lemma_digits_val_of_dec(j, pos, v);
        if j[pos] == 48 {
            assert(v == 0);
            assert(dd.len() == 1);
        }
    } else {
        let m = -v;
        let dd = dec_digits(m);
        assert(il == seq![45u8] + dd);
        assert(j[pos] == 45) by {
            assert(j.subrange(pos, end)[0] == j[pos]);
        }
        lemma_dec_digits_are_digits(m);
        assert(il.subrange(1, il.len() as int) =~= dd);
        lemma_window(j, pos, il, 1, il.len() as int);
        assert forall|k: int| pos + 1 <= k < end implies is_digit(j[k]) by {
            assert(j.subrange(pos + 1, end)[k - pos - 1] == j[k]);
        }
        lemma_digits_end_range(j, pos + 1, end);
        assert(j[pos + 1] == dd[0]) by {
            assert(j.subrange(pos + 1, end)[0] == j[pos + 1]);
        }
        lemma_digits_val_of_dec(j, pos + 1, m);
    }
}

/// Skipping whitespace at a position that holds none stays put.
proof fn lemma_skip_ws_at(j: Seq<u8>, pos: int)
    requires
        0 <= pos <= j.len(),
        pos == j.len() || !is_ws(j[pos]),
    ensures
        skip_ws(j, pos) == pos,
{
}

/// An integer literal starts with a minus sign or a digit, never whitespace.
proof fn lemma_int_lit_head(v: int)
    ensures
        int_lit(v).len() >= 1,
        !is_ws(int_lit(v)[0]),
{
    if v < 0 {
        lemma_dec_digits_are_digits(-v);
    } else {
        lemma_dec_digits_are_digits(v);
        assert(int_lit(v)[0] == dec_digits(v)[0]);
    }
}

/// The tail of a canonical record text, from the comma before the `nonce`
/// key, parses back to the fields it was written from.
proof fn lemma_parse_token_tail_plain(w: Seq<char>, t: int, n: int)
    requires
        -0x8000000000000000 <= n <= 0x7fffffffffffffff,
    ensures
        ({
            let j = token_plain(w, t, n);
            let p2 = 8 + escape_chars(w).len() as int + 1 + 13 + int_lit(t).len() as int;
            parse_token_tail(j, p2, w, t) == Some((w, t, n))
        }),
{
    let j = token_plain(w, t, n);
    let ec = escape_chars(w);
    let lt = int_lit(t);
    let ln = int_lit(n);
    let p1: int = 8 + ec.len() as int + 1;
    let p2: int = p1 + 13 + lt.len() as int;
    let p3: int = p2 + 9 + ln.len() as int;
    assert(j.len() == p3 + 1);
    assert(j.subrange(p2, p2 + 9) =~= lit_nonce());
    assert(j[p2] == 44 && j[p2 + 1] == 34 && j[p2 + 8] == 58) by {
        assert forall|k: int| 0 <= k < 9 implies j[p2 + k] == lit_nonce()[k] by {
            assert(j.subrange(p2, p2 + 9)[k] == j[p2 + k]);
        }
    }
    lemma_skip_ws_at(j, p2 + 1);
    assert(j.subrange(p2 + 1, p2 + 8) =~= lit_key_nonce());
    assert(expect_bytes(j, p2 + 1, lit_key_nonce()) == Some::<int>(p2 + 8));
    lemma_skip_ws_at(j, p2 + 8);
    assert(j.subrange(p2 + 9, p2 + 9 + ln.len() as int) =~= ln);
    lemma_int_lit_head(n);
    assert(j[p2 + 9] == ln[0]) by {
        assert(j.subrange(p2 + 9, p2 + 9 + ln.len() as int)[0] == j[p2 + 9]);
    }
    lemma_skip_ws_at(j, p2 + 9);
    assert(j[p3] == 125);
    assert(!is_digit(125u8));
    lemma_scan_int_lit(j, p2 + 9, n);
    lemma_skip_ws_at(j, p3);
    lemma_skip_ws_at(j, p3 + 1);
}

/// Every canonical record text parses back to exactly the fields it was
/// written from.
#[verifier::rlimit(100)]
pub proof fn lemma_parse_token_plain(w: Seq<char>, t: int, n: int)
    requires
        -0x8000000000000000 <= t <= 0x7fffffffffffffff,
        -0x8000000000000000 <= n <= 0x7fffffffffffffff,
    ensures
        parse_token_plain(token_plain(w, t, n)) == Some((w, t, n)),
{
    let j = token_plain(w, t, n);
    let ec = escape_chars(w);
    let lt = int_lit(t);
    let ln = int_lit(n);
    let p1: int = 8 + ec.len() as int + 1;
    let p2: int = p1 + 13 + lt.len() as int;
    let p3: int = p2 + 9 + ln.len() as int;
    assert(j.len() == p3 + 1);
    assert(j.subrange(0, 8) =~= lit_head());
    assert(j[0] == 123 && j[1] == 34 && j[2] == 119 && j[3] == 104 && j[4] == 111 && j[5] == 34
        && j[6] == 58 && j[7] == 34) by {
        assert forall|k: int| 0 <= k < 8 implies j[k] == lit_head()[k] by {
            assert(j.subrange(0, 8)[k] == j[k]);
        }
    }
    lemma_skip_ws_at(j, 0);
    lemma_skip_ws_at(j, 1);
    assert(j.subrange(1, 6) =~= lit_key_who());
    assert(expect_bytes(j, 1, lit_key_who()) == Some(6int));
    lemma_skip_ws_at(j, 6);
    lemma_skip_ws_at(j, 7);
    assert(j.subrange(8, p1) =~= ec + seq![34u8]);
    lemma_scan_str_esc(j, 8, w);
    assert(j.subrange(p1, p1 + 13) =~= lit_timestamp());
    assert(j[p1] == 44 && j[p1 + 1] == 34 && j[p1 + 12] == 58) by {
        assert forall|k: int| 0 <= k < 13 implies j[p1 + k] == lit_timestamp()[k] by {
            assert(j.subrange(p1, p1 + 13)[k] == j[p1 + k]);
        }
    }
    lemma_skip_ws_at(j, p1);
    lemma_skip_ws_at(j, p1 + 1);
    assert(j.subrange(p1 + 1, p1 + 12) =~= lit_key_timestamp());
    assert(expect_bytes(j, p1 + 1, lit_key_timestamp()) == Some::<int>(p1 + 12));
    lemma_skip_ws_at(j, p1 + 12);
    assert(j.subrange(p1 + 13, p1 + 13 + lt.len() as int) =~= lt);
    lemma_int_lit_head(t);
    assert(j[p1 + 13] == lt[0]) by {
        assert(j.subrange(p1 + 13, p1 + 13 + lt.len() as int)[0] == j[p1 + 13]);
    }
    lemma_skip_ws_at(j, p1 + 13);
    assert(j[p2] == 44) by {
        assert(j.subrange(p2, p2 + 9) =~= lit_nonce());
        assert(j.subrange(p2, p2 + 9)[0] == j[p2]);
    }
    assert(!is_digit(44u8));
    lemma_scan_int_lit(j, p1 + 13, t);
    lemma_skip_ws_at(j, p2);
    lemma_parse_token_tail_plain(w, t, n);
}

/// Read a record text: the three fields, or `None` where the text is not the
/// canonical record text of any fields.
/// Skip JSON whitespace: exactly [`skip_ws`].
fn skip_ws_exec(j: &Vec<u8>, pos: usize) -> (r: usize)
    requires
        pos <= j@.len(),
    ensures
        r as int == skip_ws(j@, pos as int),
        pos <= r <= j@.len(),
{
    let mut p: usize = pos;
    while p < j.len() && (j[p] == 32 || j[p] == 9 || j[p] == 10 || j[p] == 13)
        invariant
            pos <= p <= j@.len(),
            skip_ws(j@, pos as int) == skip_ws(j@, p as int),
        decreases j@.len() - p,
    {
        p = p + 1;
    }
    p
}

/// Match the quoted key `"who"`: exactly [`expect_bytes`] on [`lit_key_who`].
fn expect_key_who(j: &Vec<u8>, pos: usize) -> (r: Option<usize>)
    requires
        pos <= j@.len(),
    ensures
        match r {
            Some(e) => expect_bytes(j@, pos as int, lit_key_who()) == Some(e as int) && pos < e
                <= j@.len(),
            None => expect_bytes(j@, pos as int, lit_key_who()) is None,
        },
{
    if j.len() - pos < 5 {
        return None;
    }
    if j[pos] == 34 && j[pos + 1] == 119 && j[pos + 2] == 104 && j[pos + 3] == 111 && j[pos + 4]
        == 34 {
        proof {
            assert(j@.subrange(pos as int, pos + 5) =~= lit_key_who());
        }
        Some(pos + 5)
    } else {
        proof {
            if j@.subrange(pos as int, pos + 5) == lit_key_who() {
                assert forall|k: int| 0 <= k < 5 implies j@[pos + k] == lit_key_who()[k] by {
                    assert(j@.subrange(pos as int, pos + 5)[k] == j@[pos + k]);
                }
                assert(false);
            }
        }
        None
    }
}

/// Match the quoted key `"timestamp"`: exactly [`expect_bytes`] on
/// [`lit_key_timestamp`].
fn expect_key_timestamp(j: &Vec<u8>, pos: usize) -> (r: Option<usize>)
    requires
        pos <= j@.len(),
    ensures
        match r {
            Some(e) => expect_bytes(j@, pos as int, lit_key_timestamp()) == Some(e as int) && pos
                < e <= j@.len(),
            None => expect_bytes(j@, pos as int, lit_key_timestamp()) is None,
        },
{
    if j.len() - pos < 11 {
        return None;
    }
    if j[pos] == 34 && j[pos + 1] == 116 && j[pos + 2] == 105 && j[pos + 3] == 109 && j[pos + 4]
        == 101 && j[pos + 5] == 115 && j[pos + 6] == 116 && j[pos + 7] == 97 && j[pos + 8] == 109
        && j[pos + 9] == 112 && j[pos + 10] == 34 {
        proof {
            assert(j@.subrange(pos as int, pos + 11) =~= lit_key_timestamp());
        }
        Some(pos + 11)
    } else {
        proof {
            if j@.subrange(pos as int, pos + 11) == lit_key_timestamp() {
                assert forall|k: int| 0 <= k < 11 implies j@[pos + k] == lit_key_timestamp()[k] by {
                    assert(j@.subrange(pos as int, pos + 11)[k] == j@[pos + k]);
                }
                assert(false);
            }
        }
        None
    }
}

/// Match the quoted key `"nonce"`: exactly [`expect_bytes`] on
/// [`lit_key_nonce`].
fn expect_key_nonce(j: &Vec<u8>, pos: usize) -> (r: Option<usize>)
    requires
        pos <= j@.len(),
    ensures
        match r {
            Some(e) => expect_bytes(j@, pos as int, lit_key_nonce()) == Some(e as int) && pos < e
                <= j@.len(),
            None => expect_bytes(j@, pos as int, lit_key_nonce()) is None,
        },
{
    if j.len() - pos < 7 {
        return None;
    }
    if j[pos] == 34 && j[pos + 1] == 110 && j[pos + 2] == 111 && j[pos + 3] == 110 && j[pos + 4]
        == 99 && j[pos + 5] == 101 && j[pos + 6] == 34 {
        proof {
            assert(j@.subrange(pos as int, pos + 7) =~= lit_key_nonce());
        }
        Some(pos + 7)
    } else {
        proof {
            if j@.subrange(pos as int, pos + 7) == lit_key_nonce() {
                assert forall|k: int| 0 <= k < 7 implies j@[pos + k] == lit_key_nonce()[k] by {
                    assert(j@.subrange(pos as int, pos + 7)[k] == j@[pos + k]);
                }
                assert(false);
            }
        }
        None
    }
}

/// Read a record text: the three fields, or `None` where the text is not a
/// JSON spelling the reader accepts — exactly [`parse_token_plain`].
pub fn parse_token_record(j: &Vec<u8>) -> (r: Option<(String, i64, i64)>)
    ensures
        match r {
            Some(p) => parse_token_plain(j@) == Some((p.0@, p.1 as int, p.2 as int)),
            None => parse_token_plain(j@) is None,
        },
{
    let p0 = skip_ws_exec(j, 0);
    if p0 >= j.len() || j[p0] != 123 {
        return None;
    }
    let k1 = match expect_key_who(j, skip_ws_exec(j, p0 + 1)) {
        Some(x) => x,
        None => {
            return None;
        },
    };
    let c1 = skip_ws_exec(j, k1);
    if c1 >= j.len() || j[c1] != 58 {
        return None;
    }
    let q1 = skip_ws_exec(j, c1 + 1);
    if q1 >= j.len() || j[q1] != 34 {
        return None;
    }
    let wp = match scan_str_exec(j, q1 + 1) {
        Some(x) => x,
        None => {
            return None;
        },
    };
    let who = wp.0;
    let s1 = skip_ws_exec(j, wp.1);
    if s1 >= j.len() || j[s1] != 44 {
        return None;
    }
    let k2 = match expect_key_timestamp(j, skip_ws_exec(j, s1 + 1)) {
        Some(x) => x,
        None => {
            return None;
        },
    };
    let c2 = skip_ws_exec(j, k2);
    if c2 >= j.len() || j[c2] != 58 {
        return None;
    }
    let tp = match scan_int_exec(j, skip_ws_exec(j, c2 + 1)) {
        Some(x) => x,
        None => {
            return None;
        },
    };
    let t = tp.0;
    let s2 = skip_ws_exec(j, tp.1);
    if s2 >= j.len() || j[s2] != 44 {
        return None;
    }
    let k3 = match expect_key_nonce(j, skip_ws_exec(j, s2 + 1)) {
        Some(x) => x,
        None => {
            return None;
        },
    };
    let c3 = skip_ws_exec(j, k3);
    if c3 >= j.len() || j[c3] != 58 {
        return None;
    }
    let np = match scan_int_exec(j, skip_ws_exec(j, c3 + 1)) {
        Some(x) => x,
        None => {
            return None;
        },
    };
    let nn = np.0;
    let s3 = skip_ws_exec(j, np.1);
    if s3 >= j.len() || j[s3] != 125 {
        return None;
    }
    if skip_ws_exec(j, s3 + 1) == j.len() {
        Some((who, t, nn))
    } else {
        None
    }
}

} // verus!
