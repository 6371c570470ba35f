//! The JSON wire format of the ledger's records, on bytes.
//!
//! Records travel as compact JSON: numbers in decimal, byte strings as
//! arrays of numbers, text as quoted strings with `"`, `\` and control
//! bytes escaped.  Printing and parsing are both specified exactly, and
//! parsing a printed value gives the value back.

use vstd::prelude::*;

use crate::textenc::dec_ascii;
use crate::textenc::digits_val;
use crate::textenc::is_digit;
use crate::textenc::lemma_dec_ascii;
use crate::textenc::lemma_digits_val_monotone;
use crate::textenc::u64_to_dec_bytes;

verus! {

/// The bytes of an ASCII character sequence.
pub open spec fn ascii_bytes(cs: Seq<char>) -> Seq<u8> {
    Seq::new(cs.len(), |i: int| cs[i] as u8)
}

// ---------------------------------------------------------------------
// printers
// ---------------------------------------------------------------------
/// The items of a JSON array of numbers, separated by commas.
pub open spec fn bytes_items(b: Seq<u8>) -> Seq<u8>
    decreases b.len(),
{
    if b.len() == 0 {
        Seq::empty()
    } else if b.len() == 1 {
        dec_ascii(b[0] as nat)
    } else {
        dec_ascii(b[0] as nat) + seq![44u8] + bytes_items(b.skip(1))
    }
}

/// A byte string as a JSON array of numbers.
pub open spec fn json_bytes(b: Seq<u8>) -> Seq<u8> {
    seq![91u8] + bytes_items(b) + seq![93u8]
}

/// The ASCII byte of a hex nibble, lower case.
pub open spec fn hex_nibble(d: u8) -> u8 {
    if d < 10 {
        (48 + d) as u8
    } else {
        (87 + d) as u8
    }
}

/// How one byte of a string appears inside a JSON string: quotes and
/// backslashes escaped, control and non-ASCII bytes as a `\u00XX` escape,
/// the printable ASCII rest raw.  Escaping every high byte keeps the whole
/// encoding ASCII.
pub open spec fn esc_byte(b: u8) -> Seq<u8> {
    if b == 34 {
        seq![92u8, 34u8]
    } else if b == 92 {
        seq![92u8, 92u8]
    } else if b < 32 || b >= 128 {
        seq![92u8, 117u8, 48u8, 48u8, hex_nibble(b / 16), hex_nibble(b % 16)]
    } else {
        seq![b]
    }
}

/// A string's bytes with every byte escaped as needed.
pub open spec fn escape_bytes(s: Seq<u8>) -> Seq<u8>
    decreases s.len(),
{
    if s.len() == 0 {
        Seq::empty()
    } else {
        esc_byte(s[0]) + escape_bytes(s.skip(1))
    }
}

/// A byte string as a quoted JSON string.
pub open spec fn json_string(s: Seq<u8>) -> Seq<u8> {
    seq![34u8] + escape_bytes(s) + seq![34u8]
}

/// Whether `lit` stands at position `i` of `s`.
pub open spec fn match_at(s: Seq<u8>, i: int, lit: Seq<u8>) -> bool {
    0 <= i && i + lit.len() <= s.len() && s.subrange(i, i + lit.len()) == lit
}

// ---------------------------------------------------------------------
// parsers
// ---------------------------------------------------------------------
/// The first position at or after `i` that does not hold a digit.
pub open spec fn digit_span(s: Seq<u8>, i: int) -> int
    decreases s.len() - i,
{
    if i < 0 || i >= s.len() {
        i
    } else if !is_digit(s[i]) {
        i
    } else {
        digit_span(s, i + 1)
    }
}

/// Reads a decimal number at position `i`: its digits must denote a value
/// that fits in 64 bits.
pub open spec fn parse_u64_at(s: Seq<u8>, i: int) -> Option<(u64, int)> {
    let j = digit_span(s, i);
    if j == i {
        None
    } else if digits_val(s.subrange(i, j)) > u64::MAX {
        None
    } else {
        Some((digits_val(s.subrange(i, j)) as u64, j))
    }
}

/// Reads a decimal number that fits in one byte.
pub open spec fn parse_u8_at(s: Seq<u8>, i: int) -> Option<(u8, int)> {
    match parse_u64_at(s, i) {
        None => None,
        Some((v, j)) => if v <= 255 {
            Some((v as u8, j))
        } else {
            None
        },
    }
}

/// Reads the items of a non-empty JSON array of bytes, up to and including
/// the closing bracket.
pub open spec fn parse_bytes_items(s: Seq<u8>, i: int) -> Option<(Seq<u8>, int)>
    decreases s.len() - i,
{
    match parse_u8_at(s, i) {
        None => None,
        Some((v, j)) => if i < j && j < s.len() && s[j] == 44 {
            match parse_bytes_items(s, j + 1) {
                None => None,
                Some((rest, k)) => Some((seq![v] + rest, k)),
            }
        } else if j < s.len() && s[j] == 93 {
            Some((seq![v], j + 1))
        } else {
            None
        },
    }
}

/// Reads a JSON array of bytes at position `i`.
pub open spec fn parse_bytes_at(s: Seq<u8>, i: int) -> Option<(Seq<u8>, int)> {
    if 0 <= i && i < s.len() && s[i] == 91 {
        if i + 1 < s.len() && s[i + 1] == 93 {
            Some((Seq::empty(), i + 2))
        } else {
            parse_bytes_items(s, i + 1)
        }
    } else {
        None
    }
}

/// The value of a hex digit byte, or -1 when the byte is none.
pub open spec fn hex_val(b: u8) -> int {
    if 48 <= b <= 57 {
        b - 48
    } else if 97 <= b <= 102 {
        b - 87
    } else {
        -1
    }
}

/// Reads the body of a JSON string up to and including the closing quote,
/// undoing the escapes the printer writes.
pub open spec fn parse_string_body(s: Seq<u8>, i: int) -> Option<(Seq<u8>, int)>
    decreases s.len() - i,
{
    if i < 0 || i >= s.len() {
        None
    } else if s[i] == 34 {
        Some((Seq::empty(), i + 1))
    } else if s[i] == 92 {
        if i + 1 < s.len() && (s[i + 1] == 34 || s[i + 1] == 92) {
            match parse_string_body(s, i + 2) {
                None => None,
                Some((rest, k)) => Some((seq![s[i + 1]] + rest, k)),
            }
        } else if i + 5 < s.len() && s[i + 1] == 117 && s[i + 2] == 48 && s[i + 3] == 48
            && hex_val(s[i + 4]) >= 0 && hex_val(s[i + 5]) >= 0 {
            match parse_string_body(s, i + 6) {
                None => None,
                Some((rest, k)) => Some(
                    (seq![(hex_val(s[i + 4]) * 16 + hex_val(s[i + 5])) as u8] + rest, k),
                ),
            }
        } else {
            None
        }
    } else {
        match parse_string_body(s, i + 1) {
            None => None,
            Some((rest, k)) => Some((seq![s[i]] + rest, k)),
        }
    }
}

/// Reads a quoted JSON string at position `i`.
pub open spec fn parse_string_at(s: Seq<u8>, i: int) -> Option<(Seq<u8>, int)> {
    if 0 <= i && i < s.len() && s[i] == 34 {
        parse_string_body(s, i + 1)
    } else {
        None
    }
}

// ---------------------------------------------------------------------
// properties of the parsers
// ---------------------------------------------------------------------
/// The digit span runs from `i` over digits to the first non-digit.
pub proof fn lemma_digit_span_range(s: Seq<u8>, i: int)
    requires
        0 <= i <= s.len(),
    ensures
        i <= digit_span(s, i) <= s.len(),
        forall|t: int| i <= t < digit_span(s, i) ==> is_digit(#[trigger] s[t]),
        digit_span(s, i) < s.len() ==> !is_digit(s[digit_span(s, i)]),
    decreases s.len() - i,
{
    if i < s.len() && is_digit(s[i]) {
        lemma_digit_span_range(s, i + 1);
    }
}

/// A stretch of digits followed by a non-digit pins the digit span down.
pub proof fn lemma_digit_span_exact(s: Seq<u8>, i: int, m: int)
    requires
        0 <= i <= m <= s.len(),
        forall|t: int| i <= t < m ==> is_digit(#[trigger] s[t]),
        m == s.len() || !is_digit(s[m]),
    ensures
        digit_span(s, i) == m,
    decreases m - i,
{
    if i < m {
        lemma_digit_span_exact(s, i + 1, m);
    }
}

/// Parsing right after printing a number gives the number back.
pub proof fn lemma_parse_u64_after_print(s: Seq<u8>, i: int, n: u64)
    requires
        0 <= i,
        i + dec_ascii(n as nat).len() <= s.len(),
        s.subrange(i, i + dec_ascii(n as nat).len()) == dec_ascii(n as nat),
        i + dec_ascii(n as nat).len() == s.len() || !is_digit(
            s[i + dec_ascii(n as nat).len()],
        ),
    ensures
        parse_u64_at(s, i) == Some((n, i + dec_ascii(n as nat).len())),
{
    let d = dec_ascii(n as nat);
    lemma_dec_ascii(n as nat);
    let m = i + d.len();
    assert forall|t: int| i <= t < m implies is_digit(#[trigger] s[t]) by {
        assert(s[t] == d[t - i]);
    }
    lemma_digit_span_exact(s, i, m);
    assert(s.subrange(i, m) == d);
    assert(digits_val(s.subrange(i, m)) == n);
}

/// Parsing right after printing a byte-sized number gives it back.
proof fn lemma_parse_u8_after_print(s: Seq<u8>, i: int, n: u8)
    requires
        0 <= i,
        i + dec_ascii(n as nat).len() <= s.len(),
        s.subrange(i, i + dec_ascii(n as nat).len()) == dec_ascii(n as nat),
        i + dec_ascii(n as nat).len() == s.len() || !is_digit(
            s[i + dec_ascii(n as nat).len()],
        ),
    ensures
        parse_u8_at(s, i) == Some((n, i + dec_ascii(n as nat).len())),
{
    lemma_parse_u64_after_print(s, i, n as u64);
}

/// Parsing the printed items of a non-empty array gives the bytes back.
proof fn lemma_parse_items_after_print(s: Seq<u8>, i: int, b: Seq<u8>)
    requires
        b.len() >= 1,
        0 <= i,
        i + bytes_items(b).len() + 1 <= s.len(),
        s.subrange(i, i + bytes_items(b).len() + 1) == bytes_items(b) + seq![93u8],
    ensures
        parse_bytes_items(s, i) == Some((b, i + bytes_items(b).len() + 1)),
    decreases b.len(),
{
    let items = bytes_items(b);
    let d = dec_ascii(b[0] as nat);
    lemma_dec_ascii(b[0] as nat);
    if b.len() == 1 {
        assert(items == d);
        assert(s.subrange(i, i + d.len()) =~= d) by {
            assert forall|t: int| 0 <= t < d.len() implies s.subrange(i, i + d.len())[t] == d[t] by {
                assert(s[i + t] == (bytes_items(b) + seq![93u8])[t]);
            }
        }
        assert(s[i + d.len()] == (bytes_items(b) + seq![93u8])[d.len() as int]);
        assert(s[i + d.len()] == 93);
        lemma_parse_u8_after_print(s, i, b[0]);
        assert(seq![b[0]] =~= b);
    } else {
        let tail = b.skip(1);
        let titems = bytes_items(tail);
        assert(items == d + seq![44u8] + titems);
        assert(s.subrange(i, i + d.len()) =~= d) by {
            assert forall|t: int| 0 <= t < d.len() implies s.subrange(i, i + d.len())[t] == d[t] by {
                assert(s[i + t] == (bytes_items(b) + seq![93u8])[t]);
            }
        }
        assert(s[i + d.len()] == (bytes_items(b) + seq![93u8])[d.len() as int]);
        assert(s[i + d.len()] == 44);
        lemma_parse_u8_after_print(s, i, b[0]);
        let j = i + d.len();
        assert(s.subrange(j + 1, j + 1 + titems.len() + 1) =~= titems + seq![93u8]) by {
            assert forall|t: int| 0 <= t < titems.len() + 1 implies s.subrange(
                j + 1,
                j + 1 + titems.len() + 1,
            )[t] == (titems + seq![93u8])[t] by {
                assert(s[j + 1 + t] == (bytes_items(b) + seq![93u8])[d.len() + 1 + t]);
            }
        }
        lemma_parse_items_after_print(s, j + 1, tail);
        assert(seq![b[0]] + tail =~= b);
    }
}

/// Parsing a printed byte array gives the bytes back.
pub proof fn lemma_parse_bytes_after_print(s: Seq<u8>, i: int, b: Seq<u8>)
    requires
        0 <= i,
        i + json_bytes(b).len() <= s.len(),
        s.subrange(i, i + json_bytes(b).len()) == json_bytes(b),
    ensures
        parse_bytes_at(s, i) == Some((b, i + json_bytes(b).len())),
{
    let p = json_bytes(b);
    assert(s[i] == p[0]);
    assert(p[0] == 91);
    if b.len() == 0 {
        assert(bytes_items(b) == Seq::<u8>::empty());
        assert(p =~= seq![91u8, 93u8]);
        assert(s[i + 1] == p[1]);
        assert(b =~= Seq::<u8>::empty());
    } else {
        lemma_dec_ascii(b[0] as nat);
        assert(s[i + 1] == p[1]);
        assert(p[1] == bytes_items(b)[0]);
        assert(bytes_items(b)[0] == dec_ascii(b[0] as nat)[0]);
        assert(is_digit(bytes_items(b)[0]));
        assert(s[i + 1] != 93);
        assert(s.subrange(i + 1, i + 1 + bytes_items(b).len() + 1) =~= bytes_items(b) + seq![
            93u8,
        ]) by {
            assert forall|t: int| 0 <= t < bytes_items(b).len() + 1 implies s.subrange(
                i + 1,
                i + 1 + bytes_items(b).len() + 1,
            )[t] == (bytes_items(b) + seq![93u8])[t] by {
                assert(s[i + 1 + t] == p[1 + t]);
            }
        }
        lemma_parse_items_after_print(s, i + 1, b);
    }
}

/// Printed escapes parse back to the byte they escape.
proof fn lemma_parse_string_body_after_print(s: Seq<u8>, i: int, bs: Seq<u8>)
    requires
        0 <= i,
        i + escape_bytes(bs).len() + 1 <= s.len(),
        s.subrange(i, i + escape_bytes(bs).len() + 1) == escape_bytes(bs) + seq![34u8],
    ensures
        parse_string_body(s, i) == Some((bs, i + escape_bytes(bs).len() + 1)),
    decreases bs.len(),
{
    let e = escape_bytes(bs);
    if bs.len() == 0 {
        assert(s[i] == (e + seq![34u8])[0]);
        assert(bs =~= Seq::<u8>::empty());
    } else {
        let b = bs[0];
        let eb = esc_byte(b);
        let tail = bs.skip(1);
        let et = escape_bytes(tail);
        assert(e == eb + et);
        assert forall|t: int| 0 <= t < eb.len() implies s[i + t] == eb[t] by {
            assert(s[i + t] == (e + seq![34u8])[t]);
        }
        let j = i + eb.len();
        assert(s.subrange(j, j + et.len() + 1) =~= et + seq![34u8]) by {
            assert forall|t: int| 0 <= t < et.len() + 1 implies s.subrange(j, j + et.len() + 1)[t]
                == (et + seq![34u8])[t] by {
                assert(s[j + t] == (e + seq![34u8])[eb.len() + t]);
            }
        }
        lemma_parse_string_body_after_print(s, j, tail);
        if b == 34 {
            assert(s[i] == 92 && s[i + 1] == 34);
        } else if b == 92 {
            assert(s[i] == 92 && s[i + 1] == 92);
        } else if b < 32 || b >= 128 {
            assert(s[i] == 92 && s[i + 1] == 117 && s[i + 2] == 48 && s[i + 3] == 48);
            assert(s[i + 4] == hex_nibble(b / 16) && s[i + 5] == hex_nibble((b % 16) as u8));
            assert(hex_val(hex_nibble(b / 16)) == b / 16 && hex_val(hex_nibble(b % 16)) == b % 16);
            assert((hex_val(s[i + 4]) * 16 + hex_val(s[i + 5])) as u8 == b);
        } else {
            assert(s[i + 0] == eb[0]);
            assert(s[i] == b);
            assert(b != 34 && b != 92);
        }
        assert(seq![b] + tail =~= bs);
    }
}

/// Parsing a printed string gives its bytes back.
pub proof fn lemma_parse_string_after_print(s: Seq<u8>, i: int, bs: Seq<u8>)
    requires
        0 <= i,
        i + json_string(bs).len() <= s.len(),
        s.subrange(i, i + json_string(bs).len()) == json_string(bs),
    ensures
        parse_string_at(s, i) == Some((bs, i + json_string(bs).len())),
{
    let p = json_string(bs);
    assert(s[i] == p[0]);
    assert(s.subrange(i + 1, i + 1 + escape_bytes(bs).len() + 1) =~= escape_bytes(bs) + seq![
        34u8,
    ]) by {
        assert forall|t: int| 0 <= t < escape_bytes(bs).len() + 1 implies s.subrange(
            i + 1,
            i + 1 + escape_bytes(bs).len() + 1,
        )[t] == (escape_bytes(bs) + seq![34u8])[t] by {
            assert(s[i + 1 + t] == p[1 + t]);
        }
    }
    lemma_parse_string_body_after_print(s, i + 1, bs);
}


/// A successful number parse moves the position forward, within bounds.
pub proof fn lemma_parse_u64_bounds(s: Seq<u8>, i: int)
    requires
        0 <= i <= s.len(),
    ensures
        parse_u64_at(s, i) matches Some(p) ==> i < p.1 <= s.len(),
{
    lemma_digit_span_range(s, i);
}

/// A successful items parse moves the position forward, within bounds.
proof fn lemma_parse_items_bounds(s: Seq<u8>, i: int)
    requires
        0 <= i <= s.len(),
    ensures
        parse_bytes_items(s, i) matches Some(p) ==> i < p.1 <= s.len(),
    decreases s.len() - i,
{
    lemma_digit_span_range(s, i);
    match parse_u8_at(s, i) {
        None => {},
        Some((v, j)) => {
            if i < j && j < s.len() && s[j] == 44 {
                lemma_parse_items_bounds(s, j + 1);
            }
        },
    }
}

/// A successful array parse moves the position forward, within bounds.
pub proof fn lemma_parse_bytes_bounds(s: Seq<u8>, i: int)
    requires
        0 <= i <= s.len(),
    ensures
        parse_bytes_at(s, i) matches Some(p) ==> i < p.1 <= s.len(),
{
    if 0 <= i && i < s.len() && s[i] == 91 {
        if !(i + 1 < s.len() && s[i + 1] == 93) {
            lemma_parse_items_bounds(s, i + 1);
        }
    }
}

/// A successful string-body parse moves the position forward, within
/// bounds.
proof fn lemma_parse_string_body_bounds(s: Seq<u8>, i: int)
    requires
        0 <= i <= s.len(),
    ensures
        parse_string_body(s, i) matches Some(p) ==> i < p.1 <= s.len(),
    decreases s.len() - i,
{
    if 0 <= i && i < s.len() {
        if s[i] == 34 {
        } else if s[i] == 92 {
            if i + 1 < s.len() && (s[i + 1] == 34 || s[i + 1] == 92) {
                lemma_parse_string_body_bounds(s, i + 2);
            } else if i + 5 < s.len() && s[i + 1] == 117 && s[i + 2] == 48 && s[i + 3] == 48
                && hex_val(s[i + 4]) >= 0 && hex_val(s[i + 5]) >= 0 {
                lemma_parse_string_body_bounds(s, i + 6);
            }
        } else {
            lemma_parse_string_body_bounds(s, i + 1);
        }
    }
}

/// A successful string parse moves the position forward, within bounds.
pub proof fn lemma_parse_string_bounds(s: Seq<u8>, i: int)
    requires
        0 <= i <= s.len(),
    ensures
        parse_string_at(s, i) matches Some(p) ==> i < p.1 <= s.len(),
{
    if 0 <= i && i < s.len() && s[i] == 34 {
        lemma_parse_string_body_bounds(s, i + 1);
    }
}

// ---------------------------------------------------------------------
// executable printers
// ---------------------------------------------------------------------
/// Appends the bytes of an ASCII literal.
pub fn append_lit(out: &mut Vec<u8>, lit: &str)
    requires
        lit.is_ascii(),
    ensures
        final(out)@ == old(out)@ + ascii_bytes(lit@),
{
    let n = lit.unicode_len();
    for idx in 0..n
        invariant
            lit.is_ascii(),
            n == lit@.len(),
            out@ =~= old(out)@ + ascii_bytes(lit@).take(idx as int),
    {
        out.push(lit.get_ascii(idx));
        proof {
            assert(out@ =~= old(out)@ + ascii_bytes(lit@).take(idx + 1));
        }
    }
    proof {
        assert(ascii_bytes(lit@).take(n as int) =~= ascii_bytes(lit@));
    }
}

/// Appends the decimal text of a number.
pub fn append_u64(out: &mut Vec<u8>, n: u64)
    ensures
        final(out)@ == old(out)@ + dec_ascii(n as nat),
{
    let d = u64_to_dec_bytes(n);
    let m = d.len();
    for idx in 0..m
        invariant
            m == d@.len(),
            d@ == dec_ascii(n as nat),
            out@ =~= old(out)@ + d@.take(idx as int),
    {
        out.push(d[idx]);
        proof {
            assert(out@ =~= old(out)@ + d@.take(idx + 1));
        }
    }
    proof {
        assert(d@.take(m as int) =~= d@);
    }
}

/// A non-empty sequence grown one item at a time.
proof fn lemma_bytes_items_push(b: Seq<u8>, x: u8)
    requires
        b.len() >= 1,
    ensures
        bytes_items(b.push(x)) == bytes_items(b) + seq![44u8] + dec_ascii(x as nat),
    decreases b.len(),
{
    if b.len() == 1 {
        assert(b.push(x).skip(1) =~= seq![x]);
        assert(bytes_items(seq![x]) == dec_ascii(x as nat));
        assert(b.push(x)[0] == b[0]);
    } else {
        lemma_bytes_items_push(b.skip(1), x);
        assert(b.push(x).skip(1) =~= b.skip(1).push(x));
        assert(b.push(x)[0] == b[0]);
        assert(bytes_items(b.push(x)) == dec_ascii(b[0] as nat) + seq![44u8] + bytes_items(
            b.skip(1).push(x),
        ));
        assert(bytes_items(b.push(x)) =~= bytes_items(b) + seq![44u8] + dec_ascii(x as nat));
    }
}

/// Appends a byte string as a JSON array of numbers.
pub fn append_bytes(out: &mut Vec<u8>, b: &Vec<u8>)
    ensures
        final(out)@ == old(out)@ + json_bytes(b@),
{
    out.push(91);
    let n = b.len();
    for idx in 0..n
        invariant
            n == b@.len(),
            out@ =~= old(out)@ + seq![91u8] + bytes_items(b@.take(idx as int)),
    {
        if idx > 0 {
            out.push(44);
        }
        append_u64(out, b[idx] as u64);
        proof {
            if idx == 0 {
                assert(b@.take(1) =~= seq![b@[0]]);
                assert(bytes_items(b@.take(1)) == dec_ascii(b@[0] as nat));
            } else {
                lemma_bytes_items_push(b@.take(idx as int), b@[idx as int]);
                assert(b@.take(idx as int).push(b@[idx as int]) =~= b@.take(idx + 1));
            }
            assert(out@ =~= old(out)@ + seq![91u8] + bytes_items(b@.take(idx + 1)));
        }
    }
    out.push(93);
    proof {
        assert(b@.take(n as int) =~= b@);
        assert(out@ =~= old(out)@ + json_bytes(b@));
    }
}

/// Escapes grown one byte at a time.
proof fn lemma_escape_bytes_push(s: Seq<u8>, x: u8)
    ensures
        escape_bytes(s.push(x)) == escape_bytes(s) + esc_byte(x),
    decreases s.len(),
{
    if s.len() == 0 {
        assert(s.push(x).skip(1) =~= Seq::<u8>::empty());
        assert(s.push(x)[0] == x);
        assert(esc_byte(x) + Seq::<u8>::empty() =~= esc_byte(x));
        assert(escape_bytes(s.push(x)) == esc_byte(s.push(x)[0]) + escape_bytes(
            s.push(x).skip(1),
        ));
        assert(escape_bytes(s.push(x)) =~= esc_byte(x));
        assert(escape_bytes(s) + esc_byte(x) =~= esc_byte(x));
    } else {
        lemma_escape_bytes_push(s.skip(1), x);
        assert(s.push(x).skip(1) =~= s.skip(1).push(x));
        assert(s.push(x)[0] == s[0]);
        assert(escape_bytes(s.push(x)) =~= escape_bytes(s) + esc_byte(x));
    }
}

/// Appends a byte string as a quoted, escaped JSON string.
pub fn append_string(out: &mut Vec<u8>, s: &Vec<u8>)
    ensures
        final(out)@ == old(out)@ + json_string(s@),
{
    out.push(34);
    let n = s.len();
    for idx in 0..n
        invariant
            n == s@.len(),
            out@ =~= old(out)@ + seq![34u8] + escape_bytes(s@.take(idx as int)),
    {
        let b = s[idx];
        if b == 34 {
            out.push(92);
            out.push(34);
        } else if b == 92 {
            out.push(92);
            out.push(92);
        } else if b < 32 || b >= 128 {
            out.push(92);
            out.push(117);
            out.push(48);
            out.push(48);
            let hi = b / 16;
            let lo = b % 16;
            out.push(if hi < 10 {
                48 + hi
            } else {
                87 + hi
            });
            out.push(if lo < 10 {
                48 + lo
            } else {
                87 + lo
            });
        } else {
            out.push(b);
        }
        proof {
            lemma_escape_bytes_push(s@.take(idx as int), s@[idx as int]);
            assert(s@.take(idx as int).push(s@[idx as int]) =~= s@.take(idx + 1));
            assert(out@ =~= old(out)@ + seq![34u8] + escape_bytes(s@.take(idx + 1)));
        }
    }
    out.push(34);
    proof {
        assert(s@.take(n as int) =~= s@);
        assert(out@ =~= old(out)@ + json_string(s@));
    }
}

// ---------------------------------------------------------------------
// executable parsers
// ---------------------------------------------------------------------
/// Checks that an ASCII literal stands at position `i`, returning the
/// position just after it.
pub fn expect_lit(s: &Vec<u8>, i: usize, lit: &str) -> (r: Option<usize>)
    requires
        lit.is_ascii(),
    ensures
        match r {
            Some(j) => match_at(s@, i as int, ascii_bytes(lit@)) && j == i + lit@.len(),
            None => !match_at(s@, i as int, ascii_bytes(lit@)),
        },
{
    let n = lit.unicode_len();
    let slen = s.len();
    if i > slen || n > slen - i {
        return None;
    }
    for idx in 0..n
        invariant
            lit.is_ascii(),
            n == lit@.len(),
            slen == s@.len(),
            i + n <= slen,
            forall|t: int| 0 <= t < idx ==> s@[i + t] == ascii_bytes(lit@)[t],
    {
        if s[i + idx] != lit.get_ascii(idx) {
            proof {
                assert(s@[i + idx] != ascii_bytes(lit@)[idx as int]);
                if match_at(s@, i as int, ascii_bytes(lit@)) {
                    assert(s@.subrange(i as int, i + n)[idx as int] == ascii_bytes(lit@)[
                        idx as int
                    ]);
                    assert(false);
                }
            }
            return None;
        }
    }
    proof {
        assert(s@.subrange(i as int, i + n) =~= ascii_bytes(lit@));
    }
    Some(i + n)
}

/// Reads a decimal number at position `i`.
pub fn parse_u64(s: &Vec<u8>, i: usize) -> (r: Option<(u64, usize)>)
    requires
        i <= s@.len(),
    ensures
        match r {
            Some((v, j)) => parse_u64_at(s@, i as int) == Some((v, j as int)),
            None => parse_u64_at(s@, i as int) is None,
        },
{
    proof {
        lemma_digit_span_range(s@, i as int);
    }
    let ghost span = digit_span(s@, i as int);
    let n = s.len();
    let mut p = i;
    let mut acc: u64 = 0;
    while p < n && s[p] >= 48 && s[p] <= 57
        invariant
            n == s@.len(),
            i <= p <= n,
            span == digit_span(s@, i as int),
            i <= span <= n,
            forall|t: int| i <= t < span ==> is_digit(#[trigger] s@[t]),
            span < n ==> !is_digit(s@[span]),
            p <= span,
            forall|t: int| i <= t < p ==> is_digit(#[trigger] s@[t]),
            acc == digits_val(s@.subrange(i as int, p as int)),
        decreases n - p,
    {
        proof {
            if p == span {
                assert(is_digit(s@[p as int]));
                assert(false);
            }
        }
        let d = s[p] - 48;
        if acc > (u64::MAX - d as u64) / 10 {
            proof {
                let pref = s@.subrange(i as int, p + 1);
                assert(pref.drop_last() =~= s@.subrange(i as int, p as int));
                assert(digits_val(pref) == acc * 10 + d);
                assert(acc * 10 + d > u64::MAX);
                let full = s@.subrange(i as int, span);
                assert(forall|t: int| 0 <= t < full.len() ==> is_digit(#[trigger] full[t]));
                lemma_digits_val_monotone(full, p + 1 - i);
                assert(full.take(p + 1 - i) =~= pref);
                assert(digits_val(full) > u64::MAX);
            }
            return None;
        }
        acc = acc * 10 + d as u64;
        p = p + 1;
        proof {
            assert(s@.subrange(i as int, p as int).drop_last() =~= s@.subrange(
                i as int,
                p as int - 1,
            ));
        }
    }
    proof {
        lemma_digit_span_exact(s@, i as int, p as int);
    }
    if p == i {
        return None;
    }
    Some((acc, p))
}

/// Reads a JSON array of bytes at position `i`.
pub fn parse_bytes(s: &Vec<u8>, i: usize) -> (r: Option<(Vec<u8>, usize)>)
    requires
        i <= s@.len(),
    ensures
        match r {
            Some((v, j)) => parse_bytes_at(s@, i as int) == Some((v@, j as int)),
            None => parse_bytes_at(s@, i as int) is None,
        },
{
    let n = s.len();
    if i >= n || s[i] != 91 {
        return None;
    }
    if i + 1 < n && s[i + 1] == 93 {
        let empty: Vec<u8> = Vec::new();
        proof {
            assert(empty@ =~= Seq::<u8>::empty());
        }
        return Some((empty, i + 2));
    }
    let mut out: Vec<u8> = Vec::new();
    let mut p = i + 1;
    while p < n
        invariant
            n == s@.len(),
            i + 1 <= p <= n,
            parse_bytes_at(s@, i as int) == (match parse_bytes_items(s@, p as int) {
                None => None::<(Seq<u8>, int)>,
                Some((rest, k)) => Some((out@ + rest, k)),
            }),
        decreases n - p,
    {
        let item = parse_u64(s, p);
        match item {
            None => {
                return None;
            },
            Some((v, j)) => {
                if v > 255 {
                    return None;
                }
                proof {
                    lemma_digit_span_range(s@, p as int);
                }
                out.push(v as u8);
                if j < n && s[j] == 44 {
                    proof {
                        assert(out@.drop_last() + (seq![v as u8] + parse_tail(s@, j + 1)) =~= out@
                            + parse_tail(s@, j + 1));
                    }
                    p = j + 1;
                } else if j < n && s[j] == 93 {
                    proof {
                        assert(out@.drop_last() + seq![v as u8] =~= out@);
                    }
                    return Some((out, j + 1));
                } else {
                    return None;
                }
            },
        }
    }
    None
}

/// The remaining items a successful items-parse would give, used only to
/// state the loop invariant of `parse_bytes`.
spec fn parse_tail(s: Seq<u8>, i: int) -> Seq<u8> {
    match parse_bytes_items(s, i) {
        None => Seq::empty(),
        Some((rest, k)) => rest,
    }
}

/// Reads a quoted JSON string at position `i`.
pub fn parse_string(s: &Vec<u8>, i: usize) -> (r: Option<(Vec<u8>, usize)>)
    requires
        i <= s@.len(),
    ensures
        match r {
            Some((v, j)) => parse_string_at(s@, i as int) == Some((v@, j as int)),
            None => parse_string_at(s@, i as int) is None,
        },
{
    let n = s.len();
    if i >= n || s[i] != 34 {
        return None;
    }
    let mut out: Vec<u8> = Vec::new();
    let mut p = i + 1;
    while p < n
        invariant
            n == s@.len(),
            i + 1 <= p <= n,
            parse_string_at(s@, i as int) == (match parse_string_body(s@, p as int) {
                None => None::<(Seq<u8>, int)>,
                Some((rest, k)) => Some((out@ + rest, k)),
            }),
        decreases n - p,
    {
        let b = s[p];
        if b == 34 {
            proof {
                assert(out@ + Seq::<u8>::empty() =~= out@);
            }
            return Some((out, p + 1));
        } else if b == 92 {
            if n - p > 1 && (s[p + 1] == 34 || s[p + 1] == 92) {
                out.push(s[p + 1]);
                proof {
                    lemma_string_step(out@.drop_last(), s@[p + 1], string_tail(s@, p + 2));
                }
                p = p + 2;
            } else if n - p > 5 && s[p + 1] == 117 && s[p + 2] == 48 && s[p + 3] == 48 && hex_val_x(
                s[p + 4],
            ) >= 0 && hex_val_x(s[p + 5]) >= 0 {
                let hi = hex_val_x(s[p + 4]);
                let lo = hex_val_x(s[p + 5]);
                out.push((hi * 16 + lo) as u8);
                proof {
                    lemma_string_step(
                        out@.drop_last(),
                        (hex_val(s@[p + 4]) * 16 + hex_val(s@[p + 5])) as u8,
                        string_tail(s@, p + 6),
                    );
                }
                p = p + 6;
            } else {
                return None;
            }
        } else {
            out.push(b);
            proof {
                lemma_string_step(out@.drop_last(), s@[p as int], string_tail(s@, p + 1));
            }
            p = p + 1;
        }
    }
    None
}

/// The remaining bytes a successful string-body parse would give, used only
/// to state the loop invariant of `parse_string`.
spec fn string_tail(s: Seq<u8>, i: int) -> Seq<u8> {
    match parse_string_body(s, i) {
        None => Seq::empty(),
        Some((rest, k)) => rest,
    }
}

/// Regrouping one parsed byte into the accumulator.
proof fn lemma_string_step(a: Seq<u8>, x: u8, rest: Seq<u8>)
    ensures
        a + (seq![x] + rest) =~= a.push(x) + rest,
{
}

/// The value of a hex digit byte, or -1: the executable twin of `hex_val`.
fn hex_val_x(b: u8) -> (r: i16)
    ensures
        r as int == hex_val(b),
{
    if 48 <= b && b <= 57 {
        (b - 48) as i16
    } else if 97 <= b && b <= 102 {
        (b - 87) as i16
    } else {
        -1
    }
}


// ---------------------------------------------------------------------
// printed output is ASCII
// ---------------------------------------------------------------------
/// Whether every byte of a string is an ASCII byte.
pub open spec fn ascii_only(s: Seq<u8>) -> bool {
    forall|i: int| 0 <= i < s.len() ==> #[trigger] s[i] < 0x80
}

/// A concatenation of ASCII strings is ASCII.
pub proof fn lemma_ascii_concat(a: Seq<u8>, b: Seq<u8>)
    requires
        ascii_only(a),
        ascii_only(b),
    ensures
        ascii_only(a + b),
{
    assert forall|i: int| 0 <= i < (a + b).len() implies #[trigger] (a + b)[i] < 0x80 by {
        if i < a.len() {
            assert((a + b)[i] == a[i]);
        } else {
            assert((a + b)[i] == b[i - a.len()]);
        }
    }
}

/// Decimal text is ASCII.
pub proof fn lemma_dec_ascii_only(n: nat)
    ensures
        ascii_only(dec_ascii(n)),
{
    lemma_dec_ascii(n);
}

/// A printed byte array is ASCII.
pub proof fn lemma_json_bytes_ascii(b: Seq<u8>)
    ensures
        ascii_only(json_bytes(b)),
    decreases b.len(),
{
    if b.len() == 0 {
        assert(ascii_only(bytes_items(b)));
    } else if b.len() == 1 {
        lemma_dec_ascii_only(b[0] as nat);
    } else {
        lemma_dec_ascii_only(b[0] as nat);
        lemma_json_bytes_ascii(b.skip(1));
        assert forall|i: int| 0 <= i < bytes_items(b.skip(1)).len() implies #[trigger] bytes_items(
            b.skip(1),
        )[i] < 0x80 by {
            assert(json_bytes(b.skip(1))[1 + i] == bytes_items(b.skip(1))[i]);
            assert(json_bytes(b.skip(1))[1 + i] < 0x80);
        }
        lemma_ascii_concat(dec_ascii(b[0] as nat), seq![44u8]);
        lemma_ascii_concat(dec_ascii(b[0] as nat) + seq![44u8], bytes_items(b.skip(1)));
    }
    lemma_ascii_concat(seq![91u8], bytes_items(b));
    lemma_ascii_concat(seq![91u8] + bytes_items(b), seq![93u8]);
    assert(json_bytes(b) =~= (seq![91u8] + bytes_items(b)) + seq![93u8]);
}


/// A printed string is ASCII: every byte the escaper leaves raw is
/// printable ASCII, and every escape is ASCII.
pub proof fn lemma_json_string_ascii(s: Seq<u8>)
    ensures
        ascii_only(json_string(s)),
    decreases s.len(),
{
    assert forall|i: int| 0 <= i < escape_bytes(s).len() implies #[trigger] escape_bytes(s)[i]
        < 0x80 by {
        lemma_escape_bytes_ascii(s, i);
    }
    lemma_ascii_concat(seq![34u8], escape_bytes(s));
    lemma_ascii_concat(seq![34u8] + escape_bytes(s), seq![34u8]);
    assert(json_string(s) =~= (seq![34u8] + escape_bytes(s)) + seq![34u8]);
}

/// Each byte of an escaped string is ASCII.
proof fn lemma_escape_bytes_ascii(s: Seq<u8>, i: int)
    requires
        0 <= i < escape_bytes(s).len(),
    ensures
        escape_bytes(s)[i] < 0x80,
    decreases s.len(),
{
    if s.len() > 0 {
        let e0 = esc_byte(s[0]);
        if i < e0.len() {
            assert(escape_bytes(s)[i] == e0[i]);
        } else {
            lemma_escape_bytes_ascii(s.skip(1), i - e0.len());
            assert(escape_bytes(s)[i] == escape_bytes(s.skip(1))[i - e0.len()]);
        }
    }
}

/// The bytes of an ASCII literal are ASCII.
pub proof fn lemma_ascii_bytes_only(cs: Seq<char>)
    requires
        vstd::utf8::is_ascii_chars(cs),
    ensures
        ascii_only(ascii_bytes(cs)),
{
}

} // verus!
