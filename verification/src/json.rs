//! The wire codec: rendering a snapshot as a JSON object, and decoding a
//! `POST` body: a JSON object carrying a string member `name` and a 32-bit
//! integer member `quantity`, in any order, with any other members
//! tolerated and skipped.
//!
//! The accepted grammar is stated exactly by the spec functions below.
//! Strings take the JSON escapes (including `\uXXXX` with surrogate
//! pairs, decoded to UTF-8) and raw bytes must be well-formed UTF-8;
//! `name` and `quantity` must each appear exactly once; the `quantity`
//! value must be an integer that fits in 32 bits; members under other
//! keys may hold any JSON value.

use crate::store::Entry;
use vstd::prelude::*;

verus! {

// ---------------------------------------------------------------------------
// Rendering
// ---------------------------------------------------------------------------
/// The decimal digits of `n`, most significant first.
pub open spec fn dec_rep(n: nat) -> Seq<u8>
    decreases n,
{
    if n < 10 {
        seq![(0x30 + n) as u8]
    } else {
        dec_rep(n / 10).push((0x30 + n % 10) as u8)
    }
}

/// The decimal rendering of `i`, with a leading `-` when negative.
pub open spec fn int_rep(i: int) -> Seq<u8> {
    if i < 0 {
        seq![0x2du8] + dec_rep((-i) as nat)
    } else {
        dec_rep(i as nat)
    }
}

/// A lowercase hexadecimal digit.
pub open spec fn hex_digit(d: int) -> u8 {
    if d < 10 {
        (0x30 + d) as u8
    } else {
        (0x57 + d) as u8
    }
}

/// The rendering of one string byte: quote, backslash and the control
/// bytes are escaped, everything else passes through.
pub open spec fn esc_byte(b: u8) -> Seq<u8> {
    if b == 0x22 {
        seq![0x5cu8, 0x22u8]
    } else if b == 0x5c {
        seq![0x5cu8, 0x5cu8]
    } else if b == 0x08 {
        seq![0x5cu8, 0x62u8]
    } else if b == 0x09 {
        seq![0x5cu8, 0x74u8]
    } else if b == 0x0a {
        seq![0x5cu8, 0x6eu8]
    } else if b == 0x0c {
        seq![0x5cu8, 0x66u8]
    } else if b == 0x0d {
        seq![0x5cu8, 0x72u8]
    } else if b < 0x20 {
        seq![0x5cu8, 0x75u8, 0x30u8, 0x30u8, hex_digit((b / 16) as int), hex_digit((b % 16) as int)]
    } else {
        seq![b]
    }
}

/// A string's bytes rendered with the escapes applied.
pub open spec fn esc_all(s: Seq<u8>) -> Seq<u8>
    decreases s.len(),
{
    if s.len() == 0 {
        Seq::empty()
    } else {
        esc_all(s.drop_last()) + esc_byte(s.last())
    }
}

/// One rendered JSON member: `"name":quantity`.
pub open spec fn member_rep(p: (Seq<u8>, int)) -> Seq<u8> {
    seq![0x22u8] + esc_all(p.0) + seq![0x22u8, 0x3au8] + int_rep(p.1)
}

/// The rendered members, joined by commas.
pub open spec fn members_rep(s: Seq<(Seq<u8>, int)>) -> Seq<u8>
    decreases s.len(),
{
    if s.len() == 0 {
        Seq::empty()
    } else if s.len() == 1 {
        member_rep(s[0])
    } else {
        members_rep(s.drop_last()) + seq![0x2cu8] + member_rep(s.last())
    }
}

/// The rendered JSON object: `{` members `}`.
pub open spec fn render(s: Seq<(Seq<u8>, int)>) -> Seq<u8> {
    seq![0x7bu8] + members_rep(s) + seq![0x7du8]
}

/// Appends the decimal digits of `n` to `out`.
fn push_dec(out: &mut Vec<u8>, n: u32)
    ensures
        final(out)@ == old(out)@ + dec_rep(n as nat),
    decreases n,
{
    if n < 10 {
        out.push(0x30 + n as u8);
        proof {
            assert(out@ =~= old(out)@ + dec_rep(n as nat));
        }
    } else {
        push_dec(out, n / 10);
        out.push(0x30 + (n % 10) as u8);
        proof {
            assert(out@ =~= old(out)@ + dec_rep(n as nat));
        }
    }
}

/// Appends the decimal rendering of `q` to `out`.
fn push_i32(out: &mut Vec<u8>, q: i32)
    ensures
        final(out)@ == old(out)@ + int_rep(q as int),
{
    if q < 0 {
        out.push(0x2d);
        let m = -(q as i64);
        assert(0 < m <= 0x8000_0000);
        push_dec(out, m as u32);
        proof {
            assert(out@ =~= old(out)@ + int_rep(q as int));
        }
    } else {
        push_dec(out, q as u32);
    }
}

/// Appends one string byte to `out`, escaped as the rendering demands.
fn push_escaped(out: &mut Vec<u8>, b: u8)
    ensures
        final(out)@ == old(out)@ + esc_byte(b),
{
    if b == 0x22 {
        out.push(0x5c);
        out.push(0x22);
    } else if b == 0x5c {
        out.push(0x5c);
        out.push(0x5c);
    } else if b == 0x08 {
        out.push(0x5c);
        out.push(0x62);
    } else if b == 0x09 {
        out.push(0x5c);
        out.push(0x74);
    } else if b == 0x0a {
        out.push(0x5c);
        out.push(0x6e);
    } else if b == 0x0c {
        out.push(0x5c);
        out.push(0x66);
    } else if b == 0x0d {
        out.push(0x5c);
        out.push(0x72);
    } else if b < 0x20 {
        out.push(0x5c);
        out.push(0x75);
        out.push(0x30);
        out.push(0x30);
        let hi = b / 16;
        let lo = b % 16;
        out.push(if hi < 10 { 0x30 + hi } else { 0x57 + hi });
        out.push(if lo < 10 { 0x30 + lo } else { 0x57 + lo });
    } else {
        out.push(b);
    }
    proof {
        assert(out@ =~= old(out)@ + esc_byte(b));
    }
}

/// Renders the pairs as a JSON object, in their given order.
pub fn render_pairs(entries: &Vec<crate::store::Entry>) -> (r: Vec<u8>)
    ensures
        r@ == render(entries@.map_values(|e: crate::store::Entry| crate::store::pair_of(e))),
{
    let ghost view = entries@.map_values(|e: crate::store::Entry| crate::store::pair_of(e));
    let mut out: Vec<u8> = Vec::new();
    out.push(0x7b);
    proof {
        assert(out@ =~= seq![0x7bu8] + members_rep(view.take(0)));
    }
    let n = entries.len();
    let mut i: usize = 0;
    while i < n
        invariant
            n == entries.len(),
            i <= n,
            view == entries@.map_values(|e: crate::store::Entry| crate::store::pair_of(e)),
            view.len() == n,
            out@ == seq![0x7bu8] + members_rep(view.take(i as int)),
        decreases n - i,
    {
        if i > 0 {
            out.push(0x2c);
        }
        out.push(0x22);
        let name = &entries[i].name;
        let ghost before = out@;
        let m = name.len();
        let mut j: usize = 0;
        while j < m
            invariant
                m == name.len(),
                j <= m,
                out@ == before + esc_all(name@.take(j as int)),
            decreases m - j,
        {
            push_escaped(&mut out, name[j]);
            proof {
                assert(name@.take(j + 1 as int).drop_last() =~= name@.take(j as int));
                assert(name@.take(j + 1 as int).last() == name@[j as int]);
                assert(out@ =~= before + esc_all(name@.take(j + 1 as int)));
            }
            j += 1;
        }
        proof {
            assert(name@.take(m as int) =~= name@);
        }
        out.push(0x22);
        out.push(0x3a);
        push_i32(&mut out, entries[i].quantity);
        proof {
            assert(view.take(i + 1 as int).drop_last() =~= view.take(i as int));
            assert(view.take(i + 1 as int).last() == view[i as int]);
            assert(out@ =~= seq![0x7bu8] + members_rep(view.take(i + 1 as int)));
        }
        i += 1;
    }
    out.push(0x7d);
    proof {
        assert(view.take(n as int) =~= view);
        assert(out@ =~= render(view));
    }
    out
}

// ---------------------------------------------------------------------------
// Lexical helpers
// ---------------------------------------------------------------------------
/// JSON whitespace.
pub open spec fn is_ws(b: u8) -> bool {
    b == 0x20 || b == 0x09 || b == 0x0a || b == 0x0d
}

/// An ASCII decimal digit.
pub open spec fn is_digit(b: u8) -> bool {
    0x30 <= b <= 0x39
}

/// The first index at or after `i` that holds no whitespace.
pub open spec fn skip_ws(s: Seq<u8>, i: int) -> int
    decreases s.len() - i,
{
    if 0 <= i < s.len() && is_ws(s[i]) {
        skip_ws(s, i + 1)
    } else {
        i
    }
}

/// The first index at or after `i` that holds no digit.
pub open spec fn scan_digits(s: Seq<u8>, i: int) -> int
    decreases s.len() - i,
{
    if 0 <= i < s.len() && is_digit(s[i]) {
        scan_digits(s, i + 1)
    } else {
        i
    }
}

/// The value of the decimal digits `s[i..j]`, most significant first.
pub open spec fn digits_val(s: Seq<u8>, i: int, j: int) -> int
    decreases j - i,
{
    if j <= i {
        0
    } else {
        digits_val(s, i, j - 1) * 10 + (s[j - 1] - 0x30)
    }
}

/// A JSON integer starting at `i` that fits in 32 bits: its value and the
/// index just past its digits.  A missing digit, a leading zero, or a value
/// outside the 32-bit range is refused.
pub open spec fn parse_int(s: Seq<u8>, i: int) -> Option<(int, int)> {
    let neg = 0 <= i < s.len() && s[i] == 0x2d;
    let d = if neg {
        i + 1
    } else {
        i
    };
    let j = scan_digits(s, d);
    if j == d {
        None
    } else if s[d] == 0x30 && j > d + 1 {
        None
    } else {
        let v = if neg {
            -digits_val(s, d, j)
        } else {
            digits_val(s, d, j)
        };
        if -0x8000_0000 <= v <= 0x7fff_ffff {
            Some((v, j))
        } else {
            None
        }
    }
}

// ---------------------------------------------------------------------------
// Strings: escapes and raw UTF-8
// ---------------------------------------------------------------------------
/// The value of one hexadecimal digit, or `-1`.
pub open spec fn hex_val(b: u8) -> int {
    if 0x30 <= b <= 0x39 {
        b - 0x30
    } else if 0x41 <= b <= 0x46 {
        b - 0x37
    } else if 0x61 <= b <= 0x66 {
        b - 0x57
    } else {
        -1
    }
}

/// The value of the four hexadecimal digits `s[i..i+4]`, or `-1`.
pub open spec fn hex4(s: Seq<u8>, i: int) -> int {
    if 0 <= i && i + 4 <= s.len() && hex_val(s[i]) >= 0 && hex_val(s[i + 1]) >= 0 && hex_val(
        s[i + 2],
    ) >= 0 && hex_val(s[i + 3]) >= 0 {
        hex_val(s[i]) * 0x1000 + hex_val(s[i + 1]) * 0x100 + hex_val(s[i + 2]) * 0x10 + hex_val(
            s[i + 3],
        )
    } else {
        -1
    }
}

/// The UTF-8 encoding of the code point `cp`.
pub open spec fn utf8_enc(cp: int) -> Seq<u8> {
    if cp < 0x80 {
        seq![cp as u8]
    } else if cp < 0x800 {
        seq![(0xc0 + cp / 0x40) as u8, (0x80 + cp % 0x40) as u8]
    } else if cp < 0x10000 {
        seq![
            (0xe0 + cp / 0x1000) as u8,
            (0x80 + (cp / 0x40) % 0x40) as u8,
            (0x80 + cp % 0x40) as u8,
        ]
    } else {
        seq![
            (0xf0 + cp / 0x40000) as u8,
            (0x80 + (cp / 0x1000) % 0x40) as u8,
            (0x80 + (cp / 0x40) % 0x40) as u8,
            (0x80 + cp % 0x40) as u8,
        ]
    }
}

/// One escape sequence, `i` just after the backslash: the decoded bytes
/// and the index past the escape.  `\uXXXX` decodes to UTF-8; a leading
/// surrogate must be followed by a trailing one, and a lone trailing
/// surrogate is refused.
pub open spec fn parse_escape(s: Seq<u8>, i: int) -> Option<(Seq<u8>, int)> {
    if !(0 <= i < s.len()) {
        None
    } else if s[i] == 0x22 {
        Some((seq![0x22u8], i + 1))
    } else if s[i] == 0x5c {
        Some((seq![0x5cu8], i + 1))
    } else if s[i] == 0x2f {
        Some((seq![0x2fu8], i + 1))
    } else if s[i] == 0x62 {
        Some((seq![0x08u8], i + 1))
    } else if s[i] == 0x66 {
        Some((seq![0x0cu8], i + 1))
    } else if s[i] == 0x6e {
        Some((seq![0x0au8], i + 1))
    } else if s[i] == 0x72 {
        Some((seq![0x0du8], i + 1))
    } else if s[i] == 0x74 {
        Some((seq![0x09u8], i + 1))
    } else if s[i] == 0x75 {
        let c1 = hex4(s, i + 1);
        if c1 < 0 {
            None
        } else if 0xd800 <= c1 <= 0xdbff {
            if i + 7 <= s.len() && s[i + 5] == 0x5c && s[i + 6] == 0x75 {
                let c2 = hex4(s, i + 7);
                if 0xdc00 <= c2 <= 0xdfff {
                    Some((utf8_enc(0x10000 + (c1 - 0xd800) * 0x400 + (c2 - 0xdc00)), i + 11))
                } else {
                    None
                }
            } else {
                None
            }
        } else if 0xdc00 <= c1 <= 0xdfff {
            None
        } else {
            Some((utf8_enc(c1), i + 5))
        }
    } else {
        None
    }
}

/// A UTF-8 continuation byte.
pub open spec fn is_cont(b: u8) -> bool {
    0x80 <= b <= 0xbf
}

/// The index past one well-formed raw UTF-8 sequence whose lead byte
/// stands at `i` (lead bytes at or above `0x80`; overlong forms and
/// surrogates are refused).
pub open spec fn utf8_raw_end(s: Seq<u8>, i: int) -> Option<int> {
    if !(0 <= i < s.len()) {
        None
    } else {
        let b = s[i];
        if 0xc2 <= b <= 0xdf {
            if i + 2 <= s.len() && is_cont(s[i + 1]) {
                Some(i + 2)
            } else {
                None
            }
        } else if b == 0xe0 {
            if i + 3 <= s.len() && 0xa0 <= s[i + 1] <= 0xbf && is_cont(s[i + 2]) {
                Some(i + 3)
            } else {
                None
            }
        } else if b == 0xed {
            if i + 3 <= s.len() && 0x80 <= s[i + 1] <= 0x9f && is_cont(s[i + 2]) {
                Some(i + 3)
            } else {
                None
            }
        } else if 0xe1 <= b <= 0xef {
            if i + 3 <= s.len() && is_cont(s[i + 1]) && is_cont(s[i + 2]) {
                Some(i + 3)
            } else {
                None
            }
        } else if b == 0xf0 {
            if i + 4 <= s.len() && 0x90 <= s[i + 1] <= 0xbf && is_cont(s[i + 2]) && is_cont(
                s[i + 3],
            ) {
                Some(i + 4)
            } else {
                None
            }
        } else if 0xf1 <= b <= 0xf3 {
            if i + 4 <= s.len() && is_cont(s[i + 1]) && is_cont(s[i + 2]) && is_cont(s[i + 3]) {
                Some(i + 4)
            } else {
                None
            }
        } else if b == 0xf4 {
            if i + 4 <= s.len() && 0x80 <= s[i + 1] <= 0x8f && is_cont(s[i + 2]) && is_cont(
                s[i + 3],
            ) {
                Some(i + 4)
            } else {
                None
            }
        } else {
            None
        }
    }
}

/// The decoded content of a string from `i` (just past the opening quote)
/// up to its closing quote, and the index past that quote.  Raw control
/// bytes and ill-formed UTF-8 are refused.
pub open spec fn str_content(s: Seq<u8>, i: int) -> Option<(Seq<u8>, int)>
    decreases s.len() - i,
{
    if !(0 <= i < s.len()) {
        None
    } else if s[i] == 0x22 {
        Some((Seq::empty(), i + 1))
    } else if s[i] == 0x5c {
        match parse_escape(s, i + 1) {
            None => None,
            Some((e, j)) => if i < j <= s.len() {
                match str_content(s, j) {
                    None => None,
                    Some((r, k)) => Some((e + r, k)),
                }
            } else {
                None
            },
        }
    } else if 0x20 <= s[i] < 0x80 {
        match str_content(s, i + 1) {
            None => None,
            Some((r, k)) => Some((seq![s[i]] + r, k)),
        }
    } else if s[i] >= 0x80 {
        match utf8_raw_end(s, i) {
            None => None,
            Some(j) => if i < j <= s.len() {
                match str_content(s, j) {
                    None => None,
                    Some((r, k)) => Some((s.subrange(i, j) + r, k)),
                }
            } else {
                None
            },
        }
    } else {
        None
    }
}

/// A quoted string starting at `i`: its decoded content and the index just
/// past the closing quote.
pub open spec fn parse_string(s: Seq<u8>, i: int) -> Option<(Seq<u8>, int)> {
    if 0 <= i < s.len() && s[i] == 0x22 {
        str_content(s, i + 1)
    } else {
        None
    }
}

// ---------------------------------------------------------------------------
// Skipping the value of a tolerated member
// ---------------------------------------------------------------------------
/// The index past a JSON number starting at `i` (integer part with the
/// leading-zero rule, optional fraction, optional exponent).
pub open spec fn skip_number(s: Seq<u8>, i: int) -> Option<int> {
    let d = if 0 <= i < s.len() && s[i] == 0x2d {
        i + 1
    } else {
        i
    };
    let j = scan_digits(s, d);
    if j == d {
        None
    } else if s[d] == 0x30 && j > d + 1 {
        None
    } else {
        let j2 = if j < s.len() && s[j] == 0x2e {
            scan_digits(s, j + 1)
        } else {
            j
        };
        if j2 != j && j2 == j + 1 {
            None
        } else {
            let f = if j2 == j {
                j
            } else {
                j2
            };
            if f < s.len() && (s[f] == 0x65 || s[f] == 0x45) {
                let e0 = if f + 1 < s.len() && (s[f + 1] == 0x2b || s[f + 1] == 0x2d) {
                    f + 2
                } else {
                    f + 1
                };
                let g = scan_digits(s, e0);
                if g == e0 {
                    None
                } else {
                    Some(g)
                }
            } else {
                Some(f)
            }
        }
    }
}

/// The index past one JSON value starting at `i` (no leading whitespace).
pub open spec fn skip_value(s: Seq<u8>, i: int) -> Option<int>
    decreases s.len() - i, 0int,
{
    if !(0 <= i < s.len()) {
        None
    } else if s[i] == 0x22 {
        match str_content(s, i + 1) {
            None => None,
            Some((c, j)) => Some(j),
        }
    } else if s[i] == 0x7b {
        skip_members(s, i + 1, true)
    } else if s[i] == 0x5b {
        skip_items(s, i + 1, true)
    } else if s[i] == 0x74 {
        if i + 4 <= s.len() && s[i + 1] == 0x72 && s[i + 2] == 0x75 && s[i + 3] == 0x65 {
            Some(i + 4)
        } else {
            None
        }
    } else if s[i] == 0x66 {
        if i + 5 <= s.len() && s[i + 1] == 0x61 && s[i + 2] == 0x6c && s[i + 3] == 0x73 && s[i + 4]
            == 0x65 {
            Some(i + 5)
        } else {
            None
        }
    } else if s[i] == 0x6e {
        if i + 4 <= s.len() && s[i + 1] == 0x75 && s[i + 2] == 0x6c && s[i + 3] == 0x6c {
            Some(i + 4)
        } else {
            None
        }
    } else if s[i] == 0x2d || is_digit(s[i]) {
        skip_number(s, i)
    } else {
        None
    }
}

/// The index past the members of a skipped object, `i` just after `{` or
/// after a comma; a closing brace right away is allowed only after `{`.
pub open spec fn skip_members(s: Seq<u8>, i: int, allow_close: bool) -> Option<int>
    decreases s.len() - i, 1int,
{
    let k = skip_ws(s, i);
    if !(i <= k <= s.len()) {
        None
    } else if k < s.len() && s[k] == 0x7d && allow_close {
        Some(k + 1)
    } else {
        match parse_string(s, k) {
            None => None,
            Some((key, a)) => {
                let c = skip_ws(s, a);
                if !(c < s.len() && s[c] == 0x3a) {
                    None
                } else {
                    let v = skip_ws(s, c + 1);
                    if !(i <= v <= s.len()) {
                        None
                    } else {
                        match skip_value(s, v) {
                            None => None,
                            Some(j) => {
                                let t = skip_ws(s, j);
                                if !(i < t + 1 && t <= s.len()) {
                                    None
                                } else if t < s.len() && s[t] == 0x2c {
                                    skip_members(s, t + 1, false)
                                } else if t < s.len() && s[t] == 0x7d {
                                    Some(t + 1)
                                } else {
                                    None
                                }
                            },
                        }
                    }
                }
            },
        }
    }
}

/// The index past the items of a skipped array, `i` just after `[` or
/// after a comma; a closing bracket right away is allowed only after `[`.
pub open spec fn skip_items(s: Seq<u8>, i: int, allow_close: bool) -> Option<int>
    decreases s.len() - i, 1int,
{
    let k = skip_ws(s, i);
    if !(i <= k <= s.len()) {
        None
    } else if k < s.len() && s[k] == 0x5d && allow_close {
        Some(k + 1)
    } else {
        match skip_value(s, k) {
            None => None,
            Some(j) => {
                let t = skip_ws(s, j);
                if !(i < t + 1 && t <= s.len()) {
                    None
                } else if t < s.len() && s[t] == 0x2c {
                    skip_items(s, t + 1, false)
                } else if t < s.len() && s[t] == 0x5d {
                    Some(t + 1)
                } else {
                    None
                }
            },
        }
    }
}

// ---------------------------------------------------------------------------
// The body's object
// ---------------------------------------------------------------------------
/// The key `name`.
pub open spec fn name_key() -> Seq<u8> {
    seq![0x6eu8, 0x61u8, 0x6du8, 0x65u8]
}

/// The key `quantity`.
pub open spec fn quantity_key() -> Seq<u8> {
    seq![0x71u8, 0x75u8, 0x61u8, 0x6eu8, 0x74u8, 0x69u8, 0x74u8, 0x79u8]
}

/// Walks the members of the body's object, `i` just after `{` or after a
/// comma; `nm` and `q` carry the members found so far.  A second `name` or
/// `quantity` member, or a missing one at the closing brace, refuses the
/// body; members under any other key are skipped.
pub open spec fn obj_members(
    s: Seq<u8>,
    i: int,
    nm: Option<Seq<u8>>,
    q: Option<int>,
    allow_close: bool,
) -> Option<(Seq<u8>, int)>
    decreases s.len() - i, 1int,
{
    let k = skip_ws(s, i);
    if !(i <= k <= s.len()) {
        None
    } else if k < s.len() && s[k] == 0x7d && allow_close {
        if skip_ws(s, k + 1) == s.len() {
            match (nm, q) {
                (Some(n), Some(v)) => Some((n, v)),
                _ => None,
            }
        } else {
            None
        }
    } else {
        match parse_string(s, k) {
            None => None,
            Some((key, a)) => {
                let c = skip_ws(s, a);
                if !(c < s.len() && s[c] == 0x3a) {
                    None
                } else {
                    let v = skip_ws(s, c + 1);
                    if !(i <= v <= s.len()) {
                        None
                    } else if key == name_key() {
                        if nm is Some {
                            None
                        } else {
                            match parse_string(s, v) {
                                None => None,
                                Some((n, j)) => if i <= j <= s.len() {
                                    obj_after_member(s, j, Some(n), q)
                                } else {
                                    None
                                },
                            }
                        }
                    } else if key == quantity_key() {
                        if q is Some {
                            None
                        } else {
                            match parse_int(s, v) {
                                None => None,
                                Some((x, j)) => if i <= j <= s.len() {
                                    obj_after_member(s, j, nm, Some(x))
                                } else {
                                    None
                                },
                            }
                        }
                    } else {
                        match skip_value(s, v) {
                            None => None,
                            Some(j) => if i <= j <= s.len() {
                                obj_after_member(s, j, nm, q)
                            } else {
                                None
                            },
                        }
                    }
                }
            },
        }
    }
}

/// After one member of the body's object, at `j`: a comma continues the
/// walk, and a closing brace must end the input (up to whitespace).
pub open spec fn obj_after_member(
    s: Seq<u8>,
    j: int,
    nm: Option<Seq<u8>>,
    q: Option<int>,
) -> Option<(Seq<u8>, int)>
    decreases s.len() - j, 0int,
{
    let t = skip_ws(s, j);
    if !(j <= t <= s.len()) {
        None
    } else if t < s.len() && s[t] == 0x2c {
        obj_members(s, t + 1, nm, q, false)
    } else if t < s.len() && s[t] == 0x7d {
        if skip_ws(s, t + 1) == s.len() {
            match (nm, q) {
                (Some(n), Some(v)) => Some((n, v)),
                _ => None,
            }
        } else {
            None
        }
    } else {
        None
    }
}

/// The accepted `POST` bodies: a JSON object whose members include `name`
/// (a string) and `quantity` (a 32-bit integer) exactly once each, plus
/// any other members, which are ignored.  The result is the decoded
/// (name, quantity) pair.
pub open spec fn parse_item_spec(s: Seq<u8>) -> Option<(Seq<u8>, int)> {
    let i = skip_ws(s, 0);
    if i < s.len() && s[i] == 0x7b {
        obj_members(s, i + 1, Option::None, Option::None, true)
    } else {
        None
    }
}

/// The name view of an optional decoded string.
pub open spec fn opt_bytes(nm: Option<Vec<u8>>) -> Option<Seq<u8>> {
    match nm {
        Some(v) => Some(v@),
        None => None,
    }
}

/// The value view of an optional decoded quantity.
pub open spec fn opt_int(q: Option<i32>) -> Option<int> {
    match q {
        Some(x) => Some(x as int),
        None => None,
    }
}

// ---------------------------------------------------------------------------
// The decoder
// ---------------------------------------------------------------------------
/// The first non-whitespace index at or after `i`.
fn ws_end(s: &Vec<u8>, i: usize) -> (r: usize)
    requires
        i <= s.len(),
    ensures
        r == skip_ws(s@, i as int),
        i <= r <= s@.len(),
{
    let mut k = i;
    while k < s.len() && (s[k] == 0x20 || s[k] == 0x09 || s[k] == 0x0a || s[k] == 0x0d)
        invariant
            i <= k <= s.len(),
            skip_ws(s@, i as int) == skip_ws(s@, k as int),
        decreases s.len() - k,
    {
        k += 1;
    }
    k
}

/// The first non-digit index at or after `i`.
fn digits_end(s: &Vec<u8>, i: usize) -> (r: usize)
    requires
        i <= s.len(),
    ensures
        r == scan_digits(s@, i as int),
        i <= r <= s@.len(),
        forall|k: int| i <= k < r ==> is_digit(#[trigger] s@[k]),
{
    let mut k = i;
    while k < s.len() && s[k] >= 0x30 && s[k] <= 0x39
        invariant
            i <= k <= s.len(),
            scan_digits(s@, i as int) == scan_digits(s@, k as int),
            forall|t: int| i <= t < k ==> is_digit(#[trigger] s@[t]),
        decreases s.len() - k,
    {
        k += 1;
    }
    k
}

proof fn lemma_digits_val_nonneg(s: Seq<u8>, i: int, j: int)
    requires
        i <= j <= s.len(),
        forall|k: int| i <= k < j ==> is_digit(#[trigger] s[k]),
    ensures
        digits_val(s, i, j) >= 0,
    decreases j - i,
{
    if j > i {
        lemma_digits_val_nonneg(s, i, j - 1);
    }
}

/// Reads a 32-bit JSON integer starting at `i`.
fn read_int(s: &Vec<u8>, i: usize) -> (r: Option<(i32, usize)>)
    requires
        i <= s.len(),
    ensures
        match r {
            Some(p) => parse_int(s@, i as int) == Some((p.0 as int, p.1 as int)) && i < p.1
                <= s@.len(),
            None => parse_int(s@, i as int) is None,
        },
{
    let mut d = i;
    let mut neg = false;
    if d < s.len() && s[d] == 0x2d {
        neg = true;
        d += 1;
    }
    let j = digits_end(s, d);
    if j == d {
        return None;
    }
    if s[d] == 0x30 && j > d + 1 {
        return None;
    }
    let mut acc: u64 = 0;
    let mut ovf = false;
    let mut k = d;
    while k < j
        invariant
            d <= k <= j <= s.len(),
            forall|t: int| d <= t < j ==> is_digit(#[trigger] s@[t]),
            !ovf ==> acc == digits_val(s@, d as int, k as int) && acc < 30_000_000_000,
            ovf ==> digits_val(s@, d as int, k as int) >= 3_000_000_000,
        decreases j - k,
    {
        let dig = (s[k] - 0x30) as u64;
        if !ovf {
            if acc >= 3_000_000_000 {
                ovf = true;
                proof {
                    assert(digits_val(s@, d as int, k + 1 as int) == digits_val(
                        s@,
                        d as int,
                        k as int,
                    ) * 10 + (s@[k as int] - 0x30));
                }
            } else {
                acc = acc * 10 + dig;
            }
        } else {
            proof {
                lemma_digits_val_nonneg(s@, d as int, k as int);
                assert(digits_val(s@, d as int, k + 1 as int) == digits_val(s@, d as int, k as int)
                    * 10 + (s@[k as int] - 0x30));
            }
        }
        k += 1;
    }
    if ovf {
        proof {
            lemma_digits_val_nonneg(s@, d as int, j as int);
        }
        return None;
    }
    let sv: i64 = if neg {
        -(acc as i64)
    } else {
        acc as i64
    };
    if sv < -0x8000_0000 || sv > 0x7fff_ffff {
        return None;
    }
    Some((sv as i32, j))
}

/// The value of one hexadecimal digit.
fn hexv(b: u8) -> (r: Option<u8>)
    ensures
        match r {
            Some(v) => hex_val(b) == v as int && v < 16,
            None => hex_val(b) < 0,
        },
{
    if 0x30 <= b && b <= 0x39 {
        Some(b - 0x30)
    } else if 0x41 <= b && b <= 0x46 {
        Some(b - 0x37)
    } else if 0x61 <= b && b <= 0x66 {
        Some(b - 0x57)
    } else {
        None
    }
}

/// The value of the four hexadecimal digits at `i`.
fn read_hex4(s: &Vec<u8>, i: usize) -> (r: Option<u32>)
    requires
        i <= s.len(),
    ensures
        match r {
            Some(v) => hex4(s@, i as int) == v as int && v <= 0xffff,
            None => hex4(s@, i as int) < 0,
        },
{
    if s.len() < 4 || i > s.len() - 4 {
        return None;
    }
    let a = hexv(s[i]);
    let b = hexv(s[i + 1]);
    let c = hexv(s[i + 2]);
    let d = hexv(s[i + 3]);
    match (a, b, c, d) {
        (Some(a), Some(b), Some(c), Some(d)) => Some(
            (a as u32) * 0x1000 + (b as u32) * 0x100 + (c as u32) * 0x10 + (d as u32),
        ),
        _ => None,
    }
}

/// Appends the UTF-8 encoding of the code point `cp` to `out`.
fn push_utf8(out: &mut Vec<u8>, cp: u32)
    requires
        cp < 0x110000,
    ensures
        final(out)@ == old(out)@ + utf8_enc(cp as int),
{
    if cp < 0x80 {
        out.push(cp as u8);
    } else if cp < 0x800 {
        assert(cp / 0x40 < 0x20);
        out.push(0xc0 + (cp / 0x40) as u8);
        out.push(0x80 + (cp % 0x40) as u8);
    } else if cp < 0x10000 {
        assert(cp / 0x1000 < 0x10);
        out.push(0xe0 + (cp / 0x1000) as u8);
        out.push(0x80 + ((cp / 0x40) % 0x40) as u8);
        out.push(0x80 + (cp % 0x40) as u8);
    } else {
        assert(cp / 0x40000 < 5);
        out.push(0xf0 + (cp / 0x40000) as u8);
        out.push(0x80 + ((cp / 0x1000) % 0x40) as u8);
        out.push(0x80 + ((cp / 0x40) % 0x40) as u8);
        out.push(0x80 + (cp % 0x40) as u8);
    }
    proof {
        assert(out@ =~= old(out)@ + utf8_enc(cp as int));
    }
}

/// Reads one escape sequence, `i` just after the backslash.
fn read_escape(s: &Vec<u8>, i: usize) -> (r: Option<(Vec<u8>, usize)>)
    requires
        i <= s.len(),
    ensures
        match r {
            Some(p) => parse_escape(s@, i as int) == Some((p.0@, p.1 as int)) && i < p.1
                <= s@.len(),
            None => parse_escape(s@, i as int) is None,
        },
{
    if i >= s.len() {
        return None;
    }
    let b = s[i];
    if b == 0x22 || b == 0x5c || b == 0x2f {
        let mut e: Vec<u8> = Vec::new();
        e.push(b);
        proof {
            assert(e@ =~= seq![b]);
        }
        return Some((e, i + 1));
    }
    if b == 0x62 || b == 0x66 || b == 0x6e || b == 0x72 || b == 0x74 {
        let decoded: u8 = if b == 0x62 {
            0x08
        } else if b == 0x66 {
            0x0c
        } else if b == 0x6e {
            0x0a
        } else if b == 0x72 {
            0x0d
        } else {
            0x09
        };
        let mut e: Vec<u8> = Vec::new();
        e.push(decoded);
        proof {
            assert(e@ =~= seq![decoded]);
        }
        return Some((e, i + 1));
    }
    if b == 0x75 {
        match read_hex4(s, i + 1) {
            None => return None,
            Some(c1) => {
                if 0xd800 <= c1 && c1 <= 0xdbff {
                    if s.len() - i >= 7 && s[i + 5] == 0x5c && s[i + 6] == 0x75 {
                        match read_hex4(s, i + 7) {
                            None => return None,
                            Some(c2) => {
                                if 0xdc00 <= c2 && c2 <= 0xdfff {
                                    let cp = 0x10000 + (c1 - 0xd800) * 0x400 + (c2 - 0xdc00);
                                    let mut e: Vec<u8> = Vec::new();
                                    push_utf8(&mut e, cp);
                                    proof {
                                        assert(e@ =~= utf8_enc(cp as int));
                                    }
                                    return Some((e, i + 11));
                                } else {
                                    return None;
                                }
                            },
                        }
                    } else {
                        return None;
                    }
                } else if 0xdc00 <= c1 && c1 <= 0xdfff {
                    return None;
                } else {
                    let mut e: Vec<u8> = Vec::new();
                    push_utf8(&mut e, c1);
                    proof {
                        assert(e@ =~= utf8_enc(c1 as int));
                    }
                    return Some((e, i + 5));
                }
            },
        }
    }
    None
}

/// The index past one raw UTF-8 sequence whose lead byte stands at `i`.
fn read_utf8_raw(s: &Vec<u8>, i: usize) -> (r: Option<usize>)
    requires
        i <= s.len(),
    ensures
        match r {
            Some(j) => utf8_raw_end(s@, i as int) == Some(j as int) && i < j <= s@.len(),
            None => utf8_raw_end(s@, i as int) is None,
        },
{
    if i >= s.len() {
        return None;
    }
    let b = s[i];
    let rem = s.len() - i;
    if 0xc2 <= b && b <= 0xdf {
        if rem >= 2 && 0x80 <= s[i + 1] && s[i + 1] <= 0xbf {
            Some(i + 2)
        } else {
            None
        }
    } else if b == 0xe0 {
        if rem >= 3 && 0xa0 <= s[i + 1] && s[i + 1] <= 0xbf && 0x80 <= s[i + 2] && s[i + 2] <= 0xbf {
            Some(i + 3)
        } else {
            None
        }
    } else if b == 0xed {
        if rem >= 3 && 0x80 <= s[i + 1] && s[i + 1] <= 0x9f && 0x80 <= s[i + 2] && s[i + 2] <= 0xbf {
            Some(i + 3)
        } else {
            None
        }
    } else if 0xe1 <= b && b <= 0xef {
        if rem >= 3 && 0x80 <= s[i + 1] && s[i + 1] <= 0xbf && 0x80 <= s[i + 2] && s[i + 2] <= 0xbf {
            Some(i + 3)
        } else {
            None
        }
    } else if b == 0xf0 {
        if rem >= 4 && 0x90 <= s[i + 1] && s[i + 1] <= 0xbf && 0x80 <= s[i + 2] && s[i + 2] <= 0xbf
            && 0x80 <= s[i + 3] && s[i + 3] <= 0xbf {
            Some(i + 4)
        } else {
            None
        }
    } else if 0xf1 <= b && b <= 0xf3 {
        if rem >= 4 && 0x80 <= s[i + 1] && s[i + 1] <= 0xbf && 0x80 <= s[i + 2] && s[i + 2] <= 0xbf
            && 0x80 <= s[i + 3] && s[i + 3] <= 0xbf {
            Some(i + 4)
        } else {
            None
        }
    } else if b == 0xf4 {
        if rem >= 4 && 0x80 <= s[i + 1] && s[i + 1] <= 0x8f && 0x80 <= s[i + 2] && s[i + 2] <= 0xbf
            && 0x80 <= s[i + 3] && s[i + 3] <= 0xbf {
            Some(i + 4)
        } else {
            None
        }
    } else {
        None
    }
}

/// Reads and decodes string content from `i` (just past the opening
/// quote) up to the closing quote.
fn read_str_content(s: &Vec<u8>, i: usize) -> (r: Option<(Vec<u8>, usize)>)
    requires
        i <= s.len(),
    ensures
        match r {
            Some(p) => str_content(s@, i as int) == Some((p.0@, p.1 as int)) && i < p.1
                <= s@.len(),
            None => str_content(s@, i as int) is None,
        },
{
    let mut acc: Vec<u8> = Vec::new();
    let mut cur = i;
    loop
        invariant
            i <= cur <= s.len(),
            (match str_content(s@, cur as int) {
                Some(p) => str_content(s@, i as int) == Some((acc@ + p.0, p.1)),
                None => str_content(s@, i as int) is None,
            }),
        decreases s.len() - cur,
    {
        if cur >= s.len() {
            return None;
        }
        let b = s[cur];
        if b == 0x22 {
            proof {
                assert(acc@ + Seq::<u8>::empty() =~= acc@);
            }
            return Some((acc, cur + 1));
        } else if b == 0x5c {
            match read_escape(s, cur + 1) {
                None => {
                    return None;
                },
                Some((e, j)) => {
                    proof {
                        if str_content(s@, j as int) is Some {
                            let p = str_content(s@, j as int)->0;
                            assert((acc@ + (e@ + p.0)) =~= (acc@ + e@) + p.0);
                        }
                    }
                    let ghost acc0 = acc@;
                    let m = e.len();
                    let mut t: usize = 0;
                    while t < m
                        invariant
                            m == e.len(),
                            t <= m,
                            acc@ =~= acc0 + e@.take(t as int),
                        decreases m - t,
                    {
                        acc.push(e[t]);
                        t += 1;
                    }
                    proof {
                        assert(acc@ =~= acc0 + e@);
                    }
                    cur = j;
                },
            }
        } else if 0x20 <= b && b < 0x80 {
            proof {
                if str_content(s@, cur + 1 as int) is Some {
                    let p = str_content(s@, cur + 1 as int)->0;
                    assert((acc@ + (seq![b] + p.0)) =~= (acc@.push(b)) + p.0);
                }
            }
            acc.push(b);
            cur += 1;
        } else if b >= 0x80 {
            match read_utf8_raw(s, cur) {
                None => {
                    return None;
                },
                Some(j) => {
                    proof {
                        if str_content(s@, j as int) is Some {
                            let p = str_content(s@, j as int)->0;
                            assert((acc@ + (s@.subrange(cur as int, j as int) + p.0)) =~= (acc@
                                + s@.subrange(cur as int, j as int)) + p.0);
                        }
                    }
                    let ghost before = acc@;
                    let mut t = cur;
                    while t < j
                        invariant
                            cur <= t <= j <= s.len(),
                            acc@ =~= before + s@.subrange(cur as int, t as int),
                        decreases j - t,
                    {
                        acc.push(s[t]);
                        proof {
                            assert(acc@ =~= before + s@.subrange(cur as int, t + 1 as int));
                        }
                        t += 1;
                    }
                    cur = j;
                },
            }
        } else {
            return None;
        }
    }
}

/// Reads a quoted string starting at `i`, decoding its content.
fn read_string(s: &Vec<u8>, i: usize) -> (r: Option<(Vec<u8>, usize)>)
    requires
        i <= s.len(),
    ensures
        match r {
            Some(p) => parse_string(s@, i as int) == Some((p.0@, p.1 as int)) && i < p.1
                <= s@.len(),
            None => parse_string(s@, i as int) is None,
        },
{
    if i < s.len() && s[i] == 0x22 {
        read_str_content(s, i + 1)
    } else {
        None
    }
}

/// The index past a JSON number starting at `i`.
fn skip_number_exec(s: &Vec<u8>, i: usize) -> (r: Option<usize>)
    requires
        i <= s.len(),
    ensures
        match r {
            Some(j) => skip_number(s@, i as int) == Some(j as int) && i < j <= s@.len(),
            None => skip_number(s@, i as int) is None,
        },
{
    let d = if i < s.len() && s[i] == 0x2d {
        i + 1
    } else {
        i
    };
    let j = digits_end(s, d);
    if j == d {
        return None;
    }
    if s[d] == 0x30 && j > d + 1 {
        return None;
    }
    let j2 = if j < s.len() && s[j] == 0x2e {
        digits_end(s, j + 1)
    } else {
        j
    };
    if j2 != j && j2 == j + 1 {
        return None;
    }
    let f = j2;
    if f < s.len() && (s[f] == 0x65 || s[f] == 0x45) {
        let e0 = if f + 1 < s.len() && (s[f + 1] == 0x2b || s[f + 1] == 0x2d) {
            f + 2
        } else {
            f + 1
        };
        let g = digits_end(s, e0);
        if g == e0 {
            None
        } else {
            Some(g)
        }
    } else {
        Some(f)
    }
}

/// The index past one JSON value starting at `i`.
fn skip_value_exec(s: &Vec<u8>, i: usize) -> (r: Option<usize>)
    requires
        i <= s.len(),
    ensures
        match r {
            Some(j) => skip_value(s@, i as int) == Some(j as int) && i < j <= s@.len(),
            None => skip_value(s@, i as int) is None,
        },
    decreases s.len() - i, 0int,
{
    if i >= s.len() {
        return None;
    }
    let b = s[i];
    if b == 0x22 {
        match read_str_content(s, i + 1) {
            None => None,
            Some((c, j)) => Some(j),
        }
    } else if b == 0x7b {
        skip_members_exec(s, i + 1, true)
    } else if b == 0x5b {
        skip_items_exec(s, i + 1, true)
    } else if b == 0x74 {
        if s.len() - i >= 4 && s[i + 1] == 0x72 && s[i + 2] == 0x75 && s[i + 3] == 0x65 {
            Some(i + 4)
        } else {
            None
        }
    } else if b == 0x66 {
        if s.len() - i >= 5 && s[i + 1] == 0x61 && s[i + 2] == 0x6c && s[i + 3] == 0x73 && s[i + 4]
            == 0x65 {
            Some(i + 5)
        } else {
            None
        }
    } else if b == 0x6e {
        if s.len() - i >= 4 && s[i + 1] == 0x75 && s[i + 2] == 0x6c && s[i + 3] == 0x6c {
            Some(i + 4)
        } else {
            None
        }
    } else if b == 0x2d || (0x30 <= b && b <= 0x39) {
        skip_number_exec(s, i)
    } else {
        None
    }
}

/// The index past the members of a skipped object.
fn skip_members_exec(s: &Vec<u8>, i: usize, allow_close: bool) -> (r: Option<usize>)
    requires
        i <= s.len(),
    ensures
        match r {
            Some(j) => skip_members(s@, i as int, allow_close) == Some(j as int) && i < j
                <= s@.len(),
            None => skip_members(s@, i as int, allow_close) is None,
        },
    decreases s.len() - i, 1int,
{
    let k = ws_end(s, i);
    if k < s.len() && s[k] == 0x7d && allow_close {
        return Some(k + 1);
    }
    match read_string(s, k) {
        None => None,
        Some((key, a)) => {
            let c = ws_end(s, a);
            if !(c < s.len() && s[c] == 0x3a) {
                return None;
            }
            let v = ws_end(s, c + 1);
            match skip_value_exec(s, v) {
                None => None,
                Some(j) => {
                    let t = ws_end(s, j);
                    if t < s.len() && s[t] == 0x2c {
                        skip_members_exec(s, t + 1, false)
                    } else if t < s.len() && s[t] == 0x7d {
                        Some(t + 1)
                    } else {
                        None
                    }
                },
            }
        },
    }
}

/// The index past the items of a skipped array.
fn skip_items_exec(s: &Vec<u8>, i: usize, allow_close: bool) -> (r: Option<usize>)
    requires
        i <= s.len(),
    ensures
        match r {
            Some(j) => skip_items(s@, i as int, allow_close) == Some(j as int) && i < j
                <= s@.len(),
            None => skip_items(s@, i as int, allow_close) is None,
        },
    decreases s.len() - i, 1int,
{
    let k = ws_end(s, i);
    if k < s.len() && s[k] == 0x5d && allow_close {
        return Some(k + 1);
    }
    match skip_value_exec(s, k) {
        None => None,
        Some(j) => {
            let t = ws_end(s, j);
            if t < s.len() && s[t] == 0x2c {
                skip_items_exec(s, t + 1, false)
            } else if t < s.len() && s[t] == 0x5d {
                Some(t + 1)
            } else {
                None
            }
        },
    }
}

/// Whether `k` is exactly the key `name`.
fn is_name_key(k: &Vec<u8>) -> (r: bool)
    ensures
        r == (k@ == name_key()),
{
    let r = k.len() == 4 && k[0] == 0x6e && k[1] == 0x61 && k[2] == 0x6d && k[3] == 0x65;
    proof {
        if r {
            assert(k@ =~= name_key());
        }
        if k@ == name_key() {
            assert(k@.len() == 4);
            assert(k@[0] == 0x6e && k@[1] == 0x61 && k@[2] == 0x6d && k@[3] == 0x65);
        }
    }
    r
}

/// Whether `k` is exactly the key `quantity`.
fn is_quantity_key(k: &Vec<u8>) -> (r: bool)
    ensures
        r == (k@ == quantity_key()),
{
    let r = k.len() == 8 && k[0] == 0x71 && k[1] == 0x75 && k[2] == 0x61 && k[3] == 0x6e && k[4]
        == 0x74 && k[5] == 0x69 && k[6] == 0x74 && k[7] == 0x79;
    proof {
        if r {
            assert(k@ =~= quantity_key());
        }
        if k@ == quantity_key() {
            assert(k@.len() == 8);
            assert(k@[0] == 0x71 && k@[1] == 0x75 && k@[2] == 0x61 && k@[3] == 0x6e && k@[4] == 0x74
                && k@[5] == 0x69 && k@[6] == 0x74 && k@[7] == 0x79);
        }
    }
    r
}

/// Walks the members of the body's object.
fn obj_members_exec(
    s: &Vec<u8>,
    i: usize,
    nm: Option<Vec<u8>>,
    q: Option<i32>,
    allow_close: bool,
) -> (r: Option<Entry>)
    requires
        i <= s.len(),
    ensures
        match r {
            Some(e) => obj_members(s@, i as int, opt_bytes(nm), opt_int(q), allow_close) == Some(
                (e.name@, e.quantity as int),
            ),
            None => obj_members(s@, i as int, opt_bytes(nm), opt_int(q), allow_close) is None,
        },
    decreases s.len() - i, 1int,
{
    let k = ws_end(s, i);
    if k < s.len() && s[k] == 0x7d && allow_close {
        if ws_end(s, k + 1) == s.len() {
            return match (nm, q) {
                (Some(n), Some(v)) => Some(Entry { name: n, quantity: v }),
                _ => None,
            };
        } else {
            return None;
        }
    }
    match read_string(s, k) {
        None => None,
        Some((key, a)) => {
            let c = ws_end(s, a);
            if !(c < s.len() && s[c] == 0x3a) {
                return None;
            }
            let v = ws_end(s, c + 1);
            if is_name_key(&key) {
                if nm.is_some() {
                    return None;
                }
                match read_string(s, v) {
                    None => None,
                    Some((n, j)) => obj_after_member_exec(s, j, Some(n), q),
                }
            } else if is_quantity_key(&key) {
                if q.is_some() {
                    return None;
                }
                match read_int(s, v) {
                    None => None,
                    Some((x, j)) => obj_after_member_exec(s, j, nm, Some(x)),
                }
            } else {
                match skip_value_exec(s, v) {
                    None => None,
                    Some(j) => obj_after_member_exec(s, j, nm, q),
                }
            }
        },
    }
}

/// After one member of the body's object.
fn obj_after_member_exec(s: &Vec<u8>, j: usize, nm: Option<Vec<u8>>, q: Option<i32>) -> (r: Option<
    Entry,
>)
    requires
        j <= s.len(),
    ensures
        match r {
            Some(e) => obj_after_member(s@, j as int, opt_bytes(nm), opt_int(q)) == Some(
                (e.name@, e.quantity as int),
            ),
            None => obj_after_member(s@, j as int, opt_bytes(nm), opt_int(q)) is None,
        },
    decreases s.len() - j, 0int,
{
    let t = ws_end(s, j);
    if t < s.len() && s[t] == 0x2c {
        obj_members_exec(s, t + 1, nm, q, false)
    } else if t < s.len() && s[t] == 0x7d {
        if ws_end(s, t + 1) == s.len() {
            match (nm, q) {
                (Some(n), Some(v)) => Some(Entry { name: n, quantity: v }),
                _ => None,
            }
        } else {
            None
        }
    } else {
        None
    }
}

/// Decodes a `POST` body.  Returns the decoded entry exactly when the body
/// matches the accepted grammar, and `None` otherwise.
pub fn parse_item(body: &Vec<u8>) -> (r: Option<Entry>)
    ensures
        match r {
            Some(e) => parse_item_spec(body@) == Some((e.name@, e.quantity as int)),
            None => parse_item_spec(body@) is None,
        },
{
    let i = ws_end(body, 0);
    if !(i < body.len() && body[i] == 0x7b) {
        return None;
    }
    obj_members_exec(body, i + 1, None, None, true)
}

} // verus!
