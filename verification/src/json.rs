//! A verified parser for the JSON subset the wire protocol carries.
//!
//! Every client command with a payload carries one flat JSON object whose
//! known members are small unsigned integers, booleans, or a string that may
//! be `null`; unknown members may hold any JSON value and are skipped. The
//! grammar is defined by the `spec_` functions over byte sequences; each
//! executable function is proved to return exactly what its specification
//! names.
//!
//! Indices: every function takes the whole frame and a position in it, and a
//! successful result names the position just past what was consumed.

use vstd::prelude::*;
use vstd::utf8::encode_scalar;
use vstd::utf8::valid_utf8;

verus! {

/// JSON insignificant whitespace: space, tab, line feed, carriage return.
pub open spec fn is_ws_byte(b: u8) -> bool {
    b == 0x20 || b == 0x09 || b == 0x0a || b == 0x0d
}

/// An ASCII decimal digit.
pub open spec fn is_digit_byte(b: u8) -> bool {
    0x30 <= b <= 0x39
}

/// The first position at or after `i` holding no whitespace.
pub open spec fn spec_skip_ws(s: Seq<u8>, i: int) -> int
    decreases s.len() - i,
{
    if 0 <= i < s.len() && is_ws_byte(s[i]) {
        spec_skip_ws(s, i + 1)
    } else {
        i
    }
}

pub proof fn lemma_skip_ws_bounds(s: Seq<u8>, i: int)
    requires
        0 <= i <= s.len(),
    ensures
        i <= spec_skip_ws(s, i) <= s.len(),
    decreases s.len() - i,
{
    if i < s.len() && is_ws_byte(s[i]) {
        lemma_skip_ws_bounds(s, i + 1);
    }
}

/// Step past whitespace.
pub fn skip_ws(s: &[u8], i: usize) -> (r: usize)
    requires
        i <= s@.len(),
    ensures
        r == spec_skip_ws(s@, i as int),
        i <= r <= s@.len(),
{
    let mut j = i;
    while j < s.len() && (s[j] == 0x20 || s[j] == 0x09 || s[j] == 0x0a || s[j] == 0x0d)
        invariant
            i <= j <= s@.len(),
            spec_skip_ws(s@, i as int) == spec_skip_ws(s@, j as int),
        decreases s@.len() - j,
    {
        j = j + 1;
    }
    j
}

/// The first position at or after `i` holding no decimal digit.
pub open spec fn spec_scan_digits(s: Seq<u8>, i: int) -> int
    decreases s.len() - i,
{
    if 0 <= i < s.len() && is_digit_byte(s[i]) {
        spec_scan_digits(s, i + 1)
    } else {
        i
    }
}

pub proof fn lemma_scan_digits_bounds(s: Seq<u8>, i: int)
    requires
        0 <= i <= s.len(),
    ensures
        i <= spec_scan_digits(s, i) <= s.len(),
        spec_scan_digits(s, i) < s.len() ==> !is_digit_byte(s[spec_scan_digits(s, i)]),
    decreases s.len() - i,
{
    if i < s.len() && is_digit_byte(s[i]) {
        lemma_scan_digits_bounds(s, i + 1);
    }
}

/// The value of the decimal digits `s[i .. j]`, read left to right.
pub open spec fn spec_digits_value(s: Seq<u8>, i: int, j: int) -> int
    decreases j - i,
{
    if i < j {
        spec_digits_value(s, i, j - 1) * 10 + (s[j - 1] as int - 0x30)
    } else {
        0
    }
}

/// A JSON number acceptable where the protocol expects an unsigned 16-bit
/// integer: plain decimal digits without sign, fraction, exponent or leading
/// zero, of value at most 65535. Anything else at `i` is refused.
pub open spec fn spec_parse_u16(s: Seq<u8>, i: int) -> Option<(u16, int)> {
    if 0 <= i < s.len() && is_digit_byte(s[i]) {
        let j = if s[i] == 0x30 {
            i + 1
        } else {
            spec_scan_digits(s, i)
        };
        if j < s.len() && (s[j] == 0x2e || s[j] == 0x65 || s[j] == 0x45) {
            None
        } else if spec_digits_value(s, i, j) > 0xffff {
            None
        } else {
            Some((spec_digits_value(s, i, j) as u16, j))
        }
    } else {
        None
    }
}

proof fn lemma_digits_value_nonneg(s: Seq<u8>, i: int, j: int)
    requires
        forall|k: int| i <= k < j ==> is_digit_byte(s[k]),
    ensures
        spec_digits_value(s, i, j) >= 0,
    decreases j - i,
{
    if i < j {
        lemma_digits_value_nonneg(s, i, j - 1);
        assert(spec_digits_value(s, i, j - 1) * 10 >= 0) by (nonlinear_arith)
            requires
                spec_digits_value(s, i, j - 1) >= 0;
    }
}

/// Read the number at `i` as an unsigned 16-bit integer.
pub fn parse_u16_at(s: &[u8], i: usize) -> (r: Option<(u16, usize)>)
    requires
        i <= s@.len(),
    ensures
        r is None ==> spec_parse_u16(s@, i as int) is None,
        r matches Some((v, j)) ==> spec_parse_u16(s@, i as int) == Some((v, j as int)) && i < j
            <= s@.len(),
{
    if !(i < s.len() && s[i] >= 0x30 && s[i] <= 0x39) {
        return None;
    }
    let mut j: usize;
    let mut val: u32;
    if s[i] == 0x30 {
        j = i + 1;
        val = 0;
        assert(spec_digits_value(s@, i as int, i as int) == 0);
        assert(spec_digits_value(s@, i as int, j as int) == 0);
    } else {
        j = i;
        val = 0;
        while j < s.len() && s[j] >= 0x30 && s[j] <= 0x39
            invariant
                i <= j <= s@.len(),
                spec_scan_digits(s@, i as int) == spec_scan_digits(s@, j as int),
                forall|k: int| i <= k < j ==> is_digit_byte(s@[k]),
                val <= 0x10000,
                (val <= 0xffff && val == spec_digits_value(s@, i as int, j as int)) || (val
                    == 0x10000 && spec_digits_value(s@, i as int, j as int) > 0xffff),
            decreases s@.len() - j,
        {
            let d = (s[j] - 0x30) as u32;
            proof {
                lemma_digits_value_nonneg(s@, i as int, j as int);
                if val == 0x10000 {
                    assert(spec_digits_value(s@, i as int, j as int) * 10 >= 0x10000 * 10)
                        by (nonlinear_arith)
                        requires
                            spec_digits_value(s@, i as int, j as int) > 0xffff;
                }
            }
            if val <= 0xffff {
                val = val * 10 + d;
            }
            if val > 0xffff {
                val = 0x10000;
            }
            j = j + 1;
        }
        proof {
            lemma_scan_digits_bounds(s@, i as int + 1);
        }
    }
    if j < s.len() && (s[j] == 0x2e || s[j] == 0x65 || s[j] == 0x45) {
        return None;
    }
    if val > 0xffff {
        return None;
    }
    Some((val as u16, j))
}

/// The literal `true` or `false` at `i`.
pub open spec fn spec_parse_bool(s: Seq<u8>, i: int) -> Option<(bool, int)> {
    if 0 <= i && i + 4 <= s.len() && s[i] == 0x74 && s[i + 1] == 0x72 && s[i + 2] == 0x75 && s[i
        + 3] == 0x65 {
        Some((true, i + 4))
    } else if 0 <= i && i + 5 <= s.len() && s[i] == 0x66 && s[i + 1] == 0x61 && s[i + 2] == 0x6c
        && s[i + 3] == 0x73 && s[i + 4] == 0x65 {
        Some((false, i + 5))
    } else {
        None
    }
}

/// Read `true` or `false` at `i`.
pub fn parse_bool_at(s: &[u8], i: usize) -> (r: Option<(bool, usize)>)
    requires
        i <= s@.len(),
    ensures
        r is None ==> spec_parse_bool(s@, i as int) is None,
        r matches Some((v, j)) ==> spec_parse_bool(s@, i as int) == Some((v, j as int)) && i < j
            <= s@.len(),
{
    if s.len() >= 4 && i <= s.len() - 4 && s[i] == 0x74 && s[i + 1] == 0x72 && s[i + 2] == 0x75
        && s[i + 3] == 0x65 {
        Some((true, i + 4))
    } else if s.len() >= 5 && i <= s.len() - 5 && s[i] == 0x66 && s[i + 1] == 0x61 && s[i + 2]
        == 0x6c && s[i + 3] == 0x73 && s[i + 4] == 0x65 {
        Some((false, i + 5))
    } else {
        None
    }
}

/// The literal `null` at `i`.
pub open spec fn spec_parse_null(s: Seq<u8>, i: int) -> Option<int> {
    if 0 <= i && i + 4 <= s.len() && s[i] == 0x6e && s[i + 1] == 0x75 && s[i + 2] == 0x6c && s[i
        + 3] == 0x6c {
        Some(i + 4)
    } else {
        None
    }
}

/// Read `null` at `i`.
pub fn parse_null_at(s: &[u8], i: usize) -> (r: Option<usize>)
    requires
        i <= s@.len(),
    ensures
        r is None ==> spec_parse_null(s@, i as int) is None,
        r matches Some(j) ==> spec_parse_null(s@, i as int) == Some(j as int) && i < j <= s@.len(),
{
    if s.len() >= 4 && i <= s.len() - 4 && s[i] == 0x6e && s[i + 1] == 0x75 && s[i + 2] == 0x6c
        && s[i + 3] == 0x6c {
        Some(i + 4)
    } else {
        None
    }
}

/// The value of one hexadecimal digit, or -1 where the byte is none.
pub open spec fn spec_hex_val(b: u8) -> int {
    if 0x30 <= b <= 0x39 {
        b as int - 0x30
    } else if 0x61 <= b <= 0x66 {
        b as int - 0x61 + 10
    } else if 0x41 <= b <= 0x46 {
        b as int - 0x41 + 10
    } else {
        -1
    }
}

/// The four hexadecimal digits at `i`, as one value.
pub open spec fn spec_hex4(s: Seq<u8>, i: int) -> Option<u32> {
    if 0 <= i && i + 4 <= s.len() && spec_hex_val(s[i]) >= 0 && spec_hex_val(s[i + 1]) >= 0
        && spec_hex_val(s[i + 2]) >= 0 && spec_hex_val(s[i + 3]) >= 0 {
        Some(
            (spec_hex_val(s[i]) * 0x1000 + spec_hex_val(s[i + 1]) * 0x100 + spec_hex_val(s[i + 2])
                * 0x10 + spec_hex_val(s[i + 3])) as u32,
        )
    } else {
        None
    }
}

/// The value of one hexadecimal digit byte.
fn hex_val(b: u8) -> (r: Option<u8>)
    ensures
        r is None ==> spec_hex_val(b) < 0,
        r matches Some(v) ==> spec_hex_val(b) == v as int && v < 16,
{
    if b >= 0x30 && b <= 0x39 {
        Some(b - 0x30)
    } else if b >= 0x61 && b <= 0x66 {
        Some(b - 0x61 + 10)
    } else if b >= 0x41 && b <= 0x46 {
        Some(b - 0x41 + 10)
    } else {
        None
    }
}

/// Read the four hexadecimal digits at `i`.
fn hex4_at(s: &[u8], i: usize) -> (r: Option<u32>)
    requires
        i <= s@.len(),
    ensures
        r is None ==> spec_hex4(s@, i as int) is None,
        r matches Some(v) ==> spec_hex4(s@, i as int) == Some(v) && v <= 0xffff && i + 4
            <= s@.len(),
{
    if s.len() < 4 || i > s.len() - 4 {
        return None;
    }
    let h0 = hex_val(s[i]);
    let h1 = hex_val(s[i + 1]);
    let h2 = hex_val(s[i + 2]);
    let h3 = hex_val(s[i + 3]);
    match (h0, h1, h2, h3) {
        (Some(a), Some(b), Some(c), Some(d)) => Some(
            (a as u32) * 0x1000 + (b as u32) * 0x100 + (c as u32) * 0x10 + (d as u32),
        ),
        _ => None,
    }
}

/// The body of a JSON string, from just after the opening quote: the bytes it
/// denotes (escapes resolved, `\uXXXX` pairs combined and encoded as UTF-8)
/// and the position just past the closing quote. Unescaped control bytes,
/// bad escapes and lone surrogates are refused.
pub open spec fn spec_parse_string_body(s: Seq<u8>, i: int) -> Option<(Seq<u8>, int)>
    decreases s.len() - i,
{
    if !(0 <= i < s.len()) {
        None
    } else if s[i] == 0x22 {
        Some((Seq::empty(), i + 1))
    } else if s[i] == 0x5c {
        if i + 1 < s.len() {
            let e = s[i + 1];
            if e == 0x75 {
                match spec_hex4(s, i + 2) {
                    None => None,
                    Some(h) => if 0xd800 <= h <= 0xdbff {
                        if i + 8 <= s.len() && s[i + 6] == 0x5c && s[i + 7] == 0x75 {
                            match spec_hex4(s, i + 8) {
                                None => None,
                                Some(h2) => if 0xdc00 <= h2 <= 0xdfff {
                                    let scalar = (0x10000 + (h - 0xd800) * 0x400 + (h2
                                        - 0xdc00)) as u32;
                                    match spec_parse_string_body(s, i + 12) {
                                        None => None,
                                        Some((b, j)) => Some((encode_scalar(scalar) + b, j)),
                                    }
                                } else {
                                    None
                                },
                            }
                        } else {
                            None
                        }
                    } else if 0xdc00 <= h <= 0xdfff {
                        None
                    } else {
                        match spec_parse_string_body(s, i + 6) {
                            None => None,
                            Some((b, j)) => Some((encode_scalar(h) + b, j)),
                        }
                    },
                }
            } else {
                let b = spec_escape_byte(e);
                if b >= 0 {
                    match spec_parse_string_body(s, i + 2) {
                        None => None,
                        Some((rest, j)) => Some((seq![b as u8] + rest, j)),
                    }
                } else {
                    None
                }
            }
        } else {
            None
        }
    } else if s[i] < 0x20 {
        None
    } else {
        match spec_parse_string_body(s, i + 1) {
            None => None,
            Some((rest, j)) => Some((seq![s[i]] + rest, j)),
        }
    }
}

/// The byte a single-character escape denotes, or -1 where the character
/// escapes nothing.
pub open spec fn spec_escape_byte(e: u8) -> int {
    if e == 0x22 {
        0x22
    } else if e == 0x5c {
        0x5c
    } else if e == 0x2f {
        0x2f
    } else if e == 0x62 {
        0x08
    } else if e == 0x66 {
        0x0c
    } else if e == 0x6e {
        0x0a
    } else if e == 0x72 {
        0x0d
    } else if e == 0x74 {
        0x09
    } else {
        -1
    }
}

/// The byte a single-character escape denotes.
fn escape_byte(e: u8) -> (r: Option<u8>)
    ensures
        r is None ==> spec_escape_byte(e) < 0,
        r matches Some(b) ==> spec_escape_byte(e) == b as int,
{
    if e == 0x22 {
        Some(0x22)
    } else if e == 0x5c {
        Some(0x5c)
    } else if e == 0x2f {
        Some(0x2f)
    } else if e == 0x62 {
        Some(0x08)
    } else if e == 0x66 {
        Some(0x0c)
    } else if e == 0x6e {
        Some(0x0a)
    } else if e == 0x72 {
        Some(0x0d)
    } else if e == 0x74 {
        Some(0x09)
    } else {
        None
    }
}

pub proof fn lemma_string_body_bounds(s: Seq<u8>, i: int)
    requires
        0 <= i,
    ensures
        spec_parse_string_body(s, i) matches Some((b, j)) ==> i < j <= s.len(),
    decreases s.len() - i,
{
    if 0 <= i < s.len() {
        if s[i] == 0x22 {
        } else if s[i] == 0x5c {
            if i + 1 < s.len() {
                if i + 12 <= s.len() {
                    lemma_string_body_bounds(s, i + 12);
                }
                if i + 6 <= s.len() {
                    lemma_string_body_bounds(s, i + 6);
                }
                if i + 2 <= s.len() {
                    lemma_string_body_bounds(s, i + 2);
                }
            }
        } else if s[i] < 0x20 {
        } else {
            lemma_string_body_bounds(s, i + 1);
        }
    }
}

/// Append the UTF-8 encoding of one Unicode scalar value.
fn push_scalar_utf8(out: &mut Vec<u8>, scalar: u32)
    requires
        vstd::utf8::is_scalar(scalar),
    ensures
        final(out)@ == old(out)@ + encode_scalar(scalar),
{
    if scalar <= 0x7f {
        out.push((scalar & 0x7f) as u8);
        assert(out@ =~= old(out)@ + encode_scalar(scalar));
    } else if scalar <= 0x7ff {
        out.push(0xc0u8 | (((scalar >> 6) & 0x1f) as u8));
        out.push(0x80u8 | ((scalar & 0x3f) as u8));
        assert(out@ =~= old(out)@ + encode_scalar(scalar));
    } else if scalar <= 0xffff {
        out.push(0xe0u8 | (((scalar >> 12) & 0x0f) as u8));
        out.push(0x80u8 | (((scalar >> 6) & 0x3f) as u8));
        out.push(0x80u8 | ((scalar & 0x3f) as u8));
        assert(out@ =~= old(out)@ + encode_scalar(scalar));
    } else {
        out.push(0xf0u8 | (((scalar >> 18) & 0x07) as u8));
        out.push(0x80u8 | (((scalar >> 12) & 0x3f) as u8));
        out.push(0x80u8 | (((scalar >> 6) & 0x3f) as u8));
        out.push(0x80u8 | ((scalar & 0x3f) as u8));
        assert(out@ =~= old(out)@ + encode_scalar(scalar));
    }
}

/// Read a string body from just after the opening quote, returning the bytes
/// it denotes and the position just past the closing quote.
#[verifier::rlimit(50)]
pub fn parse_string_body(s: &[u8], i: usize) -> (r: Option<(Vec<u8>, usize)>)
    requires
        i <= s@.len(),
    ensures
        r is None ==> spec_parse_string_body(s@, i as int) is None,
        r matches Some((b, j)) ==> spec_parse_string_body(s@, i as int) == Some((b@, j as int))
            && i < j <= s@.len(),
{
    let mut out: Vec<u8> = Vec::new();
    let mut cur = i;
    loop
        invariant
            i <= cur <= s@.len(),
            spec_parse_string_body(s@, i as int) == (match spec_parse_string_body(
                s@,
                cur as int,
            ) {
                Some((b, j)) => Some((out@ + b, j)),
                None => None::<(Seq<u8>, int)>,
            }),
        decreases s@.len() - cur,
    {
        if cur >= s.len() {
            return None;
        }
        let c = s[cur];
        if c == 0x22 {
            proof {
                assert(spec_parse_string_body(s@, cur as int) == Some(
                    (Seq::<u8>::empty(), cur as int + 1),
                ));
                assert(out@ + Seq::<u8>::empty() =~= out@);
                lemma_string_body_bounds(s@, i as int);
            }
            return Some((out, cur + 1));
        } else if c == 0x5c {
            if cur + 1 >= s.len() {
                return None;
            }
            let e = s[cur + 1];
            if e == 0x75 {
                let h = match hex4_at(s, cur + 2) {
                    Some(h) => h,
                    None => {
                        return None;
                    },
                };
                if 0xd800 <= h && h <= 0xdbff {
                    if !(s.len() >= 8 && cur <= s.len() - 8 && s[cur + 6] == 0x5c && s[cur + 7]
                        == 0x75) {
                        return None;
                    }
                    let h2 = match hex4_at(s, cur + 8) {
                        Some(h2) => h2,
                        None => {
                            return None;
                        },
                    };
                    if !(0xdc00 <= h2 && h2 <= 0xdfff) {
                        return None;
                    }
                    let scalar = 0x10000 + (h - 0xd800) * 0x400 + (h2 - 0xdc00);
                    let ghost prev = out@;
                    push_scalar_utf8(&mut out, scalar);
                    proof {
                        match spec_parse_string_body(s@, cur as int + 12) {
                            Some((b, j)) => {
                                assert(prev + (encode_scalar(scalar) + b) =~= out@ + b);
                            },
                            None => {},
                        }
                    }
                    cur = cur + 12;
                } else if 0xdc00 <= h && h <= 0xdfff {
                    return None;
                } else {
                    let ghost prev = out@;
                    push_scalar_utf8(&mut out, h);
                    proof {
                        match spec_parse_string_body(s@, cur as int + 6) {
                            Some((b, j)) => {
                                assert(prev + (encode_scalar(h) + b) =~= out@ + b);
                            },
                            None => {},
                        }
                    }
                    cur = cur + 6;
                }
            } else {
                let b = match escape_byte(e) {
                    Some(b) => b,
                    None => {
                        return None;
                    },
                };
                let ghost prev = out@;
                out.push(b);
                proof {
                    match spec_parse_string_body(s@, cur as int + 2) {
                        Some((rest, j)) => {
                            assert(prev + (seq![b] + rest) =~= out@ + rest);
                        },
                        None => {},
                    }
                }
                cur = cur + 2;
            }
        } else if c < 0x20 {
            return None;
        } else {
            let ghost prev = out@;
            out.push(c);
            proof {
                match spec_parse_string_body(s@, cur as int + 1) {
                    Some((rest, j)) => {
                        assert(prev + (seq![c] + rest) =~= out@ + rest);
                    },
                    None => {},
                }
            }
            cur = cur + 1;
        }
    }
}

/// A whole JSON string at `i` (opening quote included) whose denoted bytes
/// are valid UTF-8, as serde requires of a string it keeps.
pub open spec fn spec_parse_string(s: Seq<u8>, i: int) -> Option<(Seq<u8>, int)> {
    if 0 <= i < s.len() && s[i] == 0x22 {
        match spec_parse_string_body(s, i + 1) {
            None => None,
            Some((b, j)) => if valid_utf8(b) {
                Some((b, j))
            } else {
                None
            },
        }
    } else {
        None
    }
}

/// Read a whole JSON string at `i`, keeping its text.
pub fn parse_string_at(s: &[u8], i: usize) -> (r: Option<(String, usize)>)
    requires
        i <= s@.len(),
    ensures
        r is None ==> spec_parse_string(s@, i as int) is None,
        r matches Some((t, j)) ==> spec_parse_string(s@, i as int) == Some(
            (vstd::utf8::encode_utf8(t@), j as int),
        ) && i < j <= s@.len(),
{
    if !(i < s.len() && s[i] == 0x22) {
        return None;
    }
    match parse_string_body(s, i + 1) {
        None => None,
        Some((b, j)) => {
            match string_from_utf8(&b) {
                None => None,
                Some(t) => Some((t, j)),
            }
        },
    }
}

/// Relies on `String::from_utf8`: it succeeds exactly on valid UTF-8 and the
/// returned string holds precisely the given bytes.
#[verifier::external_body]
fn string_from_utf8(v: &Vec<u8>) -> (r: Option<String>)
    ensures
        r is Some <==> valid_utf8(v@),
        r matches Some(t) ==> vstd::utf8::encode_utf8(t@) == v@,
{
    String::from_utf8(v.clone()).ok()
}

/// Step past one JSON string without keeping it: escape syntax is checked,
/// the text is not, as serde does for a string it only skips.
pub open spec fn spec_skip_string(s: Seq<u8>, i: int) -> Option<int> {
    if 0 <= i < s.len() && s[i] == 0x22 {
        match spec_parse_string_body(s, i + 1) {
            None => None,
            Some((b, j)) => Some(j),
        }
    } else {
        None
    }
}

/// Step past one JSON string.
pub fn skip_string_at(s: &[u8], i: usize) -> (r: Option<usize>)
    requires
        i <= s@.len(),
    ensures
        r is None ==> spec_skip_string(s@, i as int) is None,
        r matches Some(j) ==> spec_skip_string(s@, i as int) == Some(j as int) && i < j
            <= s@.len(),
{
    if !(i < s.len() && s[i] == 0x22) {
        return None;
    }
    match parse_string_body(s, i + 1) {
        None => None,
        Some((_, j)) => Some(j),
    }
}

/// The position past the fraction part at `i`, if any: either no dot stands
/// there, or the dot is followed by at least one digit.
pub open spec fn spec_skip_frac(s: Seq<u8>, i: int) -> Option<int> {
    if 0 <= i < s.len() && s[i] == 0x2e {
        if i + 1 < s.len() && is_digit_byte(s[i + 1]) {
            Some(spec_scan_digits(s, i + 1))
        } else {
            None
        }
    } else {
        Some(i)
    }
}

/// The position past the exponent part at `i`, if any: either no `e` or `E`
/// stands there, or it is followed by an optional sign and at least one digit.
pub open spec fn spec_skip_exp(s: Seq<u8>, i: int) -> Option<int> {
    if 0 <= i < s.len() && (s[i] == 0x65 || s[i] == 0x45) {
        let j = if i + 1 < s.len() && (s[i + 1] == 0x2b || s[i + 1] == 0x2d) {
            i + 2
        } else {
            i + 1
        };
        if j < s.len() && is_digit_byte(s[j]) {
            Some(spec_scan_digits(s, j))
        } else {
            None
        }
    } else {
        Some(i)
    }
}

/// The position past one JSON number of any shape: an optional minus, an
/// integer part without leading zero, an optional fraction and exponent.
pub open spec fn spec_skip_number(s: Seq<u8>, i: int) -> Option<int> {
    if !(0 <= i < s.len()) {
        None
    } else {
        let j0 = if s[i] == 0x2d {
            i + 1
        } else {
            i
        };
        if j0 < s.len() && is_digit_byte(s[j0]) {
            let j1 = if s[j0] == 0x30 {
                j0 + 1
            } else {
                spec_scan_digits(s, j0)
            };
            match spec_skip_frac(s, j1) {
                None => None,
                Some(j2) => spec_skip_exp(s, j2),
            }
        } else {
            None
        }
    }
}

/// The first position at or after `i` holding no decimal digit.
fn scan_digits_at(s: &[u8], i: usize) -> (r: usize)
    requires
        i <= s@.len(),
    ensures
        r == spec_scan_digits(s@, i as int),
        i <= r <= s@.len(),
{
    let mut j = i;
    while j < s.len() && s[j] >= 0x30 && s[j] <= 0x39
        invariant
            i <= j <= s@.len(),
            spec_scan_digits(s@, i as int) == spec_scan_digits(s@, j as int),
        decreases s@.len() - j,
    {
        j = j + 1;
    }
    j
}

/// Step past one JSON number.
fn skip_number_at(s: &[u8], i: usize) -> (r: Option<usize>)
    requires
        i <= s@.len(),
    ensures
        r is None ==> spec_skip_number(s@, i as int) is None,
        r matches Some(j) ==> spec_skip_number(s@, i as int) == Some(j as int) && i < j
            <= s@.len(),
{
    if !(i < s.len()) {
        return None;
    }
    let j0 = if s[i] == 0x2d {
        i + 1
    } else {
        i
    };
    if !(j0 < s.len() && s[j0] >= 0x30 && s[j0] <= 0x39) {
        return None;
    }
    let j1 = if s[j0] == 0x30 {
        j0 + 1
    } else {
        scan_digits_at(s, j0)
    };
    proof {
        lemma_scan_digits_bounds(s@, j0 as int + 1);
    }
    let j2: usize;
    if j1 < s.len() && s[j1] == 0x2e {
        if j1 + 1 < s.len() && s[j1 + 1] >= 0x30 && s[j1 + 1] <= 0x39 {
            j2 = scan_digits_at(s, j1 + 1);
        } else {
            return None;
        }
    } else {
        j2 = j1;
    }
    let j3: usize;
    if j2 < s.len() && (s[j2] == 0x65 || s[j2] == 0x45) {
        let k: usize;
        if j2 + 1 < s.len() && (s[j2 + 1] == 0x2b || s[j2 + 1] == 0x2d) {
            k = j2 + 2;
        } else {
            k = j2 + 1;
        }
        if k < s.len() && s[k] >= 0x30 && s[k] <= 0x39 {
            j3 = scan_digits_at(s, k);
        } else {
            return None;
        }
    } else {
        j3 = j2;
    }
    Some(j3)
}

/// The position past one whole JSON value at `i`: a string, an object, an
/// array, a literal or a number. Nothing about the value is kept.
pub open spec fn spec_skip_value(s: Seq<u8>, i: int) -> Option<int>
    decreases s.len() - i, 0int,
{
    if !(0 <= i < s.len()) {
        None
    } else if s[i] == 0x22 {
        spec_skip_string(s, i)
    } else if s[i] == 0x7b {
        let j1 = spec_skip_ws(s, i + 1);
        if j1 < s.len() && s[j1] == 0x7d {
            Some(j1 + 1)
        } else {
            proof {
                lemma_skip_ws_bounds(s, i + 1);
            }
            spec_skip_members(s, j1)
        }
    } else if s[i] == 0x5b {
        let j1 = spec_skip_ws(s, i + 1);
        if j1 < s.len() && s[j1] == 0x5d {
            Some(j1 + 1)
        } else {
            proof {
                lemma_skip_ws_bounds(s, i + 1);
            }
            spec_skip_elements(s, j1)
        }
    } else {
        match spec_parse_bool(s, i) {
            Some((b, j)) => Some(j),
            None => match spec_parse_null(s, i) {
                Some(j) => Some(j),
                None => spec_skip_number(s, i),
            },
        }
    }
}

/// The position past the members of a JSON object, from the first key
/// (whitespace already skipped) to just past the closing brace. A result
/// before the position it started at would be nonsense and is refused, which
/// also bounds the recursion.
pub open spec fn spec_skip_members(s: Seq<u8>, i: int) -> Option<int>
    decreases s.len() - i, 1int,
{
    match spec_skip_string(s, i) {
        None => None,
        Some(j) => {
            proof {
                lemma_string_body_bounds(s, i + 1);
            }
            let j1 = spec_skip_ws(s, j);
            proof {
                lemma_skip_ws_bounds(s, j);
            }
            if j1 < s.len() && s[j1] == 0x3a {
                let j2 = spec_skip_ws(s, j1 + 1);
                proof {
                    lemma_skip_ws_bounds(s, j1 + 1);
                }
                match spec_skip_value(s, j2) {
                    None => None,
                    Some(j3) => if j3 <= j2 || j3 > s.len() {
                        None
                    } else {
                        let j4 = spec_skip_ws(s, j3);
                        proof {
                            lemma_skip_ws_bounds(s, j3);
                        }
                        if j4 < s.len() && s[j4] == 0x2c {
                            let j5 = spec_skip_ws(s, j4 + 1);
                            proof {
                                lemma_skip_ws_bounds(s, j4 + 1);
                            }
                            spec_skip_members(s, j5)
                        } else if j4 < s.len() && s[j4] == 0x7d {
                            Some(j4 + 1)
                        } else {
                            None
                        }
                    },
                }
            } else {
                None
            }
        },
    }
}

/// The position past the elements of a JSON array, from the first element
/// (whitespace already skipped) to just past the closing bracket. As in
/// [`spec_skip_members`], a value that would end before its start is refused.
pub open spec fn spec_skip_elements(s: Seq<u8>, i: int) -> Option<int>
    decreases s.len() - i, 1int,
{
    if !(0 <= i <= s.len()) {
        None
    } else {
        match spec_skip_value(s, i) {
            None => None,
            Some(j) => if j <= i || j > s.len() {
                None
            } else {
                let j1 = spec_skip_ws(s, j);
                proof {
                    lemma_skip_ws_bounds(s, j);
                }
                if j1 < s.len() && s[j1] == 0x2c {
                    let j2 = spec_skip_ws(s, j1 + 1);
                    proof {
                        lemma_skip_ws_bounds(s, j1 + 1);
                    }
                    spec_skip_elements(s, j2)
                } else if j1 < s.len() && s[j1] == 0x5d {
                    Some(j1 + 1)
                } else {
                    None
                }
            },
        }
    }
}

/// Step past one whole JSON value.
pub fn skip_value_at(s: &[u8], i: usize) -> (r: Option<usize>)
    requires
        i <= s@.len(),
    ensures
        r is None ==> spec_skip_value(s@, i as int) is None,
        r matches Some(j) ==> spec_skip_value(s@, i as int) == Some(j as int) && i < j
            <= s@.len(),
    decreases s@.len() - i, 0int,
{
    if !(i < s.len()) {
        return None;
    }
    let c = s[i];
    if c == 0x22 {
        skip_string_at(s, i)
    } else if c == 0x7b {
        let j1 = skip_ws(s, i + 1);
        if j1 < s.len() && s[j1] == 0x7d {
            Some(j1 + 1)
        } else {
            skip_members_at(s, j1)
        }
    } else if c == 0x5b {
        let j1 = skip_ws(s, i + 1);
        if j1 < s.len() && s[j1] == 0x5d {
            Some(j1 + 1)
        } else {
            skip_elements_at(s, j1)
        }
    } else {
        match parse_bool_at(s, i) {
            Some((_, j)) => Some(j),
            None => match parse_null_at(s, i) {
                Some(j) => Some(j),
                None => skip_number_at(s, i),
            },
        }
    }
}

/// Step past the members of a JSON object, from the first key to just past
/// the closing brace.
fn skip_members_at(s: &[u8], i: usize) -> (r: Option<usize>)
    requires
        i <= s@.len(),
    ensures
        r is None ==> spec_skip_members(s@, i as int) is None,
        r matches Some(j) ==> spec_skip_members(s@, i as int) == Some(j as int) && i < j
            <= s@.len(),
    decreases s@.len() - i, 1int,
{
    match skip_string_at(s, i) {
        None => None,
        Some(j) => {
            let j1 = skip_ws(s, j);
            if j1 < s.len() && s[j1] == 0x3a {
                let j2 = skip_ws(s, j1 + 1);
                match skip_value_at(s, j2) {
                    None => None,
                    Some(j3) => {
                        let j4 = skip_ws(s, j3);
                        if j4 < s.len() && s[j4] == 0x2c {
                            let j5 = skip_ws(s, j4 + 1);
                            skip_members_at(s, j5)
                        } else if j4 < s.len() && s[j4] == 0x7d {
                            Some(j4 + 1)
                        } else {
                            None
                        }
                    },
                }
            } else {
                None
            }
        },
    }
}

/// Step past the elements of a JSON array, from the first element to just
/// past the closing bracket.
fn skip_elements_at(s: &[u8], i: usize) -> (r: Option<usize>)
    requires
        i <= s@.len(),
    ensures
        r is None ==> spec_skip_elements(s@, i as int) is None,
        r matches Some(j) ==> spec_skip_elements(s@, i as int) == Some(j as int) && i < j
            <= s@.len(),
    decreases s@.len() - i, 1int,
{
    match skip_value_at(s, i) {
        None => None,
        Some(j) => {
            let j1 = skip_ws(s, j);
            if j1 < s.len() && s[j1] == 0x2c {
                let j2 = skip_ws(s, j1 + 1);
                skip_elements_at(s, j2)
            } else if j1 < s.len() && s[j1] == 0x5d {
                Some(j1 + 1)
            } else {
                None
            }
        },
    }
}


pub proof fn lemma_parse_u16_bounds(s: Seq<u8>, i: int)
    ensures
        spec_parse_u16(s, i) matches Some((v, j)) ==> i < j <= s.len(),
{
    if 0 <= i < s.len() && is_digit_byte(s[i]) {
        lemma_scan_digits_bounds(s, i + 1);
    }
}

pub proof fn lemma_parse_string_bounds(s: Seq<u8>, i: int)
    ensures
        spec_parse_string(s, i) matches Some((b, j)) ==> i < j <= s.len(),
{
    if 0 <= i < s.len() && s[i] == 0x22 {
        lemma_string_body_bounds(s, i + 1);
    }
}

/// A JSON number acceptable where the protocol expects an unsigned 8-bit
/// integer: as [`spec_parse_u16`], of value at most 255.
pub open spec fn spec_parse_u8(s: Seq<u8>, i: int) -> Option<(u8, int)> {
    match spec_parse_u16(s, i) {
        None => None,
        Some((v, j)) => if v <= 0xff {
            Some((v as u8, j))
        } else {
            None
        },
    }
}

pub proof fn lemma_parse_u8_bounds(s: Seq<u8>, i: int)
    ensures
        spec_parse_u8(s, i) matches Some((v, j)) ==> i < j <= s.len(),
{
    lemma_parse_u16_bounds(s, i);
}

/// Read the number at `i` as an unsigned 8-bit integer.
pub fn parse_u8_at(s: &[u8], i: usize) -> (r: Option<(u8, usize)>)
    requires
        i <= s@.len(),
    ensures
        r is None ==> spec_parse_u8(s@, i as int) is None,
        r matches Some((v, j)) ==> spec_parse_u8(s@, i as int) == Some((v, j as int)) && i < j
            <= s@.len(),
{
    match parse_u16_at(s, i) {
        None => None,
        Some((v, j)) => if v <= 0xff {
            Some((v as u8, j))
        } else {
            None
        },
    }
}


/// The decimal spelling of `n`: most significant digit first, no sign, no
/// leading zero but for zero itself.
pub open spec fn spec_u16_dec(n: u16) -> Seq<u8>
    decreases n,
{
    if n < 10 {
        seq![(0x30 + n) as u8]
    } else {
        spec_u16_dec((n / 10) as u16) + seq![(0x30 + n % 10) as u8]
    }
}

/// Append the decimal spelling of `n`.
pub fn push_u16_dec(out: &mut Vec<u8>, n: u16)
    ensures
        final(out)@ == old(out)@ + spec_u16_dec(n),
    decreases n,
{
    if n < 10 {
        out.push(0x30 + (n as u8));
        assert(out@ =~= old(out)@ + spec_u16_dec(n));
    } else {
        push_u16_dec(out, n / 10);
        out.push(0x30 + ((n % 10) as u8));
        assert(out@ =~= old(out)@ + spec_u16_dec(n));
    }
}

// The lemmas below evaluate the grammar on bytes that are known exactly, as
// the round-trip laws of the codec need: a canonical encoding of a message
// must parse back to it.
/// Whitespace skipping does not move off a byte that is no whitespace.
pub proof fn lemma_skip_ws_at_non_ws(s: Seq<u8>, i: int)
    requires
        0 <= i,
        i == s.len() || !is_ws_byte(s[i]),
    ensures
        spec_skip_ws(s, i) == i,
{
}

/// Digit scanning from a run of digits stops exactly at its boundary.
pub proof fn lemma_scan_digits_run(s: Seq<u8>, i: int, j: int)
    requires
        0 <= i <= j <= s.len(),
        forall|k: int| i <= k < j ==> is_digit_byte(s[k]),
        j == s.len() || !is_digit_byte(s[j]),
    ensures
        spec_scan_digits(s, i) == j,
    decreases j - i,
{
    if i < j {
        lemma_scan_digits_run(s, i + 1, j);
    }
}

/// All bytes of the decimal spelling of `n` are digits; it is never empty,
/// never longer than five digits, and starts with `0` only for zero itself.
pub proof fn lemma_u16_dec_shape(n: u16)
    ensures
        1 <= spec_u16_dec(n).len(),
        forall|k: int|
            0 <= k < spec_u16_dec(n).len() ==> is_digit_byte(#[trigger] spec_u16_dec(n)[k]),
        (spec_u16_dec(n)[0] == 0x30) <==> (n == 0),
    decreases n,
{
    if n >= 10 {
        lemma_u16_dec_shape(n / 10);
        assert(spec_u16_dec(n) == spec_u16_dec(n / 10) + seq![(0x30 + n % 10) as u8]);
        assert(spec_u16_dec(n)[0] == spec_u16_dec(n / 10)[0]);
    }
}

/// The digits of the decimal spelling of `n`, read back, are `n`.
pub proof fn lemma_digits_value_of_dec(s: Seq<u8>, i: int, n: u16)
    requires
        0 <= i,
        i + spec_u16_dec(n).len() <= s.len(),
        s.subrange(i, i + spec_u16_dec(n).len()) == spec_u16_dec(n),
    ensures
        spec_digits_value(s, i, i + spec_u16_dec(n).len()) == n,
    decreases n,
{
    let d = spec_u16_dec(n);
    if n < 10 {
        assert(s[i] == d[0]);
        assert(spec_digits_value(s, i, i) == 0);
    } else {
        let dp = spec_u16_dec(n / 10);
        assert(d == dp + seq![(0x30 + n % 10) as u8]);
        assert(s.subrange(i, i + dp.len()) =~= dp) by {
            assert(forall|k: int|
                0 <= k < dp.len() ==> s.subrange(i, i + d.len())[k] == #[trigger] dp[k]);
        }
        lemma_digits_value_of_dec(s, i, (n / 10) as u16);
        assert(s[i + d.len() - 1] == d[d.len() - 1]);
        assert(spec_digits_value(s, i, i + d.len()) == spec_digits_value(s, i, i + dp.len()) * 10
            + (s[i + d.len() - 1] as int - 0x30));
        assert((n / 10) * 10 + n % 10 == n) by (nonlinear_arith);
    }
}

/// The decimal spelling of `n`, with no digit, dot or exponent mark after
/// it, parses as exactly `n`.
pub proof fn lemma_parse_u16_of_dec(s: Seq<u8>, i: int, n: u16)
    requires
        0 <= i,
        i + spec_u16_dec(n).len() <= s.len(),
        s.subrange(i, i + spec_u16_dec(n).len()) == spec_u16_dec(n),
        i + spec_u16_dec(n).len() == s.len() || (!is_digit_byte(s[i + spec_u16_dec(n).len()])
            && s[i + spec_u16_dec(n).len()] != 0x2e && s[i + spec_u16_dec(n).len()] != 0x65 && s[i
            + spec_u16_dec(n).len()] != 0x45),
    ensures
        spec_parse_u16(s, i) == Some((n, i + spec_u16_dec(n).len())),
{
    let d = spec_u16_dec(n);
    lemma_u16_dec_shape(n);
    assert(forall|k: int| 0 <= k < d.len() ==> s[i + k] == #[trigger] d[k]) by {
        assert(forall|k: int|
            0 <= k < d.len() ==> s.subrange(i, i + d.len())[k] == #[trigger] d[k]);
    }
    assert(is_digit_byte(s[i]));
    lemma_digits_value_of_dec(s, i, n);
    if n == 0 {
        assert(s[i] == 0x30);
        assert(d.len() == 1);
        assert(spec_digits_value(s, i, i + 1) == 0);
    } else {
        assert(s[i] != 0x30);
        assert forall|k: int| i <= k < i + d.len() implies is_digit_byte(s[k]) by {
            assert(s.subrange(i, i + d.len())[k - i] == s[k]);
            assert(d[k - i] == s[k]);
        }
        lemma_scan_digits_run(s, i, i + d.len());
    }
}

/// A run of bytes with nothing to escape, up to a closing quote, is its own
/// string body.
pub proof fn lemma_plain_string_body(s: Seq<u8>, i: int, j: int)
    requires
        0 <= i <= j < s.len(),
        s[j] == 0x22,
        forall|k: int| i <= k < j ==> s[k] != 0x22 && s[k] != 0x5c && #[trigger] s[k] >= 0x20,
    ensures
        spec_parse_string_body(s, i) == Some((s.subrange(i, j), j + 1)),
    decreases j - i,
{
    if i == j {
        assert(s.subrange(i, j) =~= Seq::<u8>::empty());
    } else {
        lemma_plain_string_body(s, i + 1, j);
        assert(seq![s[i]] + s.subrange(i + 1, j) =~= s.subrange(i, j));
    }
}

/// Bytes that are all ASCII are valid UTF-8.
pub proof fn lemma_ascii_valid_utf8(b: Seq<u8>)
    requires
        forall|k: int| 0 <= k < b.len() ==> #[trigger] b[k] < 0x80,
    ensures
        valid_utf8(b),
    decreases b.len(),
{
    if b.len() != 0 {
        assert(vstd::utf8::is_leading_byte_width_1(b[0]));
        assert(vstd::utf8::valid_first_scalar(b));
        assert(vstd::utf8::pop_first_scalar(b) =~= b.skip(1));
        lemma_ascii_valid_utf8(b.skip(1));
    }
}

/// A quoted ASCII name with nothing to escape in it parses as a string
/// holding exactly its bytes.
pub proof fn lemma_parse_string_of_plain_ascii(s: Seq<u8>, i: int, key: Seq<u8>)
    requires
        0 <= i,
        i + key.len() + 2 <= s.len(),
        s[i] == 0x22,
        s[i + key.len() + 1] == 0x22,
        s.subrange(i + 1, i + 1 + key.len()) == key,
        forall|k: int|
            0 <= k < key.len() ==> 0x20 <= #[trigger] key[k] < 0x80 && key[k] != 0x22 && key[k]
                != 0x5c,
    ensures
        spec_parse_string(s, i) == Some((key, i + key.len() + 2)),
{
    assert forall|k: int|
        i + 1 <= k < i + 1 + key.len() implies s[k] != 0x22 && s[k] != 0x5c && s[k] >= 0x20 by {
        assert(s.subrange(i + 1, i + 1 + key.len())[k - (i + 1)] == s[k]);
        assert(key[k - (i + 1)] == s[k]);
    }
    lemma_plain_string_body(s, i + 1, i + 1 + key.len());
    assert(s.subrange(i + 1, i + 1 + key.len()) == key);
    lemma_ascii_valid_utf8(key);
}


} // verus!
