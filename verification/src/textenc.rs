//! Decimal and hexadecimal renderings of numbers and byte strings.
//!
//! The ledger hashes blocks over the decimal text of their numeric fields,
//! and judges a block by the leading zeros of its hash's hex form, so both
//! renderings are pinned down exactly here.

use vstd::prelude::*;

verus! {

/// Whether a byte is an ASCII decimal digit.
pub open spec fn is_digit(b: u8) -> bool {
    48 <= b <= 57
}

/// The ASCII decimal digits of `n`, most significant first.
pub open spec fn dec_ascii(n: nat) -> Seq<u8>
    decreases n,
{
    if n < 10 {
        seq![(48 + n) as u8]
    } else {
        dec_ascii(n / 10) + seq![(48 + n % 10) as u8]
    }
}

/// The number denoted by a string of ASCII digits.
pub open spec fn digits_val(ds: Seq<u8>) -> int
    decreases ds.len(),
{
    if ds.len() == 0 {
        0
    } else {
        digits_val(ds.drop_last()) * 10 + (ds.last() - 48)
    }
}

/// The decimal digits of `n` are digits, at least one, and denote `n`.
pub proof fn lemma_dec_ascii(n: nat)
    ensures
        dec_ascii(n).len() >= 1,
        forall|i: int| 0 <= i < dec_ascii(n).len() ==> is_digit(#[trigger] dec_ascii(n)[i]),
        digits_val(dec_ascii(n)) == n,
    decreases n,
{
    if n >= 10 {
        lemma_dec_ascii(n / 10);
        assert(dec_ascii(n).drop_last() =~= dec_ascii(n / 10));
        assert(dec_ascii(n).last() == (48 + n % 10) as u8);
        assert(digits_val(dec_ascii(n)) == digits_val(dec_ascii(n / 10)) * 10 + ((48 + n % 10)
            - 48));
        assert((n / 10) * 10 + n % 10 == n);
        assert forall|i: int| 0 <= i < dec_ascii(n).len() implies is_digit(
            #[trigger] dec_ascii(n)[i],
        ) by {
            if i < dec_ascii(n).len() - 1 {
                assert(dec_ascii(n)[i] == dec_ascii(n / 10)[i]);
            }
        }
    } else {
        assert(dec_ascii(n).drop_last() =~= Seq::<u8>::empty());
        assert(dec_ascii(n).last() == (48 + n) as u8);
        assert((48 + n) as u8 == 48 + n);
        assert(digits_val(dec_ascii(n)) == digits_val(Seq::<u8>::empty()) * 10 + ((48 + n) - 48));
    }
}

/// A digit string denotes a number that is not negative.
pub proof fn lemma_digits_val_nonneg(ds: Seq<u8>)
    requires
        forall|i: int| 0 <= i < ds.len() ==> is_digit(#[trigger] ds[i]),
    ensures
        digits_val(ds) >= 0,
    decreases ds.len(),
{
    if ds.len() > 0 {
        assert(forall|i: int|
            0 <= i < ds.drop_last().len() ==> is_digit(#[trigger] ds.drop_last()[i]));
        lemma_digits_val_nonneg(ds.drop_last());
    }
}

/// A longer digit string denotes at least as large a number.
pub proof fn lemma_digits_val_monotone(ds: Seq<u8>, m: int)
    requires
        0 <= m <= ds.len(),
        forall|i: int| 0 <= i < ds.len() ==> is_digit(#[trigger] ds[i]),
    ensures
        digits_val(ds) >= digits_val(ds.take(m)),
    decreases ds.len() - m,
{
    if m < ds.len() {
        lemma_digits_val_monotone(ds, m + 1);
        assert(ds.take(m + 1).drop_last() =~= ds.take(m));
        assert(digits_val(ds.take(m + 1)) == digits_val(ds.take(m)) * 10 + (ds[m] - 48));
        assert(forall|i: int| 0 <= i < ds.take(m).len() ==> is_digit(#[trigger] ds.take(m)[i]));
        lemma_digits_val_nonneg(ds.take(m));
    } else {
        assert(ds.take(m) =~= ds);
    }
}

/// The ASCII decimal text of `n`, as bytes.
pub fn u64_to_dec_bytes(n: u64) -> (r: Vec<u8>)
    ensures
        r@ == dec_ascii(n as nat),
    decreases n,
{
    if n < 10 {
        let mut v: Vec<u8> = Vec::new();
        v.push(48 + n as u8);
        proof {
            assert(v@ =~= dec_ascii(n as nat));
        }
        v
    } else {
        let mut v = u64_to_dec_bytes(n / 10);
        v.push(48 + (n % 10) as u8);
        proof {
            assert(v@ =~= dec_ascii(n as nat));
        }
        v
    }
}

/// The decimal digit characters of `n`, most significant first.
pub open spec fn dec_chars(n: nat) -> Seq<char>
    decreases n,
{
    if n < 10 {
        seq![digit_char(n % 10)]
    } else {
        dec_chars(n / 10) + seq![digit_char(n % 10)]
    }
}

/// The character for a single decimal digit.
pub open spec fn digit_char(d: nat) -> char {
    seq!['0', '1', '2', '3', '4', '5', '6', '7', '8', '9'][if d < 10 {
        d as int
    } else {
        0
    }]
}

/// A single decimal digit as a one-character string.
fn digit_str(d: u8) -> (r: &'static str)
    requires
        d < 10,
    ensures
        r@ =~= seq![digit_char(d as nat)],
{
    proof {
        reveal_strlit("0");
        reveal_strlit("1");
        reveal_strlit("2");
        reveal_strlit("3");
        reveal_strlit("4");
        reveal_strlit("5");
        reveal_strlit("6");
        reveal_strlit("7");
        reveal_strlit("8");
        reveal_strlit("9");
    }
    match d {
        0 => "0",
        1 => "1",
        2 => "2",
        3 => "3",
        4 => "4",
        5 => "5",
        6 => "6",
        7 => "7",
        8 => "8",
        _ => "9",
    }
}

/// The decimal text of `n`, as a string.
pub fn u64_to_string(n: u64) -> (r: String)
    ensures
        r@ == dec_chars(n as nat),
    decreases n,
{
    if n < 10 {
        let r = digit_str(n as u8).to_owned();
        proof {
            assert(r@ =~= dec_chars(n as nat));
        }
        r
    } else {
        let mut s = u64_to_string(n / 10);
        s.append(digit_str((n % 10) as u8));
        proof {
            assert(s@ =~= dec_chars(n as nat));
        }
        s
    }
}

/// The character for a hex nibble, lower case.
pub open spec fn hex_digit_char(d: nat) -> char {
    seq![
        '0',
        '1',
        '2',
        '3',
        '4',
        '5',
        '6',
        '7',
        '8',
        '9',
        'a',
        'b',
        'c',
        'd',
        'e',
        'f',
    ][if d < 16 {
        d as int
    } else {
        0
    }]
}

/// The lower-case hex rendering of a byte string: two characters per byte,
/// high nibble first.
pub open spec fn hex_chars(b: Seq<u8>) -> Seq<char>
    decreases b.len(),
{
    if b.len() == 0 {
        Seq::empty()
    } else {
        hex_chars(b.drop_last()) + seq![
            hex_digit_char((b.last() / 16) as nat),
            hex_digit_char((b.last() % 16) as nat),
        ]
    }
}

/// Hex text has two characters per byte; the pair at `2i` renders byte `i`.
pub proof fn lemma_hex_chars_index(b: Seq<u8>, i: int)
    requires
        0 <= i < b.len(),
    ensures
        hex_chars(b).len() == 2 * b.len(),
        hex_chars(b)[2 * i] == hex_digit_char((b[i] / 16) as nat),
        hex_chars(b)[2 * i + 1] == hex_digit_char((b[i] % 16) as nat),
    decreases b.len(),
{
    lemma_hex_chars_len(b);
    if i < b.len() - 1 {
        lemma_hex_chars_index(b.drop_last(), i);
    }
}

/// Hex text has two characters per byte.
pub proof fn lemma_hex_chars_len(b: Seq<u8>)
    ensures
        hex_chars(b).len() == 2 * b.len(),
    decreases b.len(),
{
    if b.len() > 0 {
        lemma_hex_chars_len(b.drop_last());
    }
}

/// A byte string of ASCII bytes is valid UTF-8.
pub proof fn lemma_ascii_valid_utf8(s: Seq<u8>)
    requires
        forall|i: int| 0 <= i < s.len() ==> #[trigger] s[i] < 0x80,
    ensures
        vstd::utf8::valid_utf8(s),
    decreases s.len(),
{
    if s.len() > 0 {
        assert(vstd::utf8::is_leading_byte_width_1(s[0]));
        let c = vstd::utf8::decode_first_codepoint(s);
        assert(c == ((s[0] & 0x7f) as u32));
        let b0 = s[0];
        assert((b0 & 0x7f) < 0x80) by (bit_vector);
        assert(vstd::utf8::valid_first_scalar(s));
        assert(vstd::utf8::length_of_first_scalar(s) == 1);
        let t = vstd::utf8::pop_first_scalar(s);
        assert(t =~= s.subrange(1, s.len() as int));
        assert(forall|i: int| 0 <= i < t.len() ==> #[trigger] t[i] < 0x80);
        lemma_ascii_valid_utf8(t);
    }
}

/// Relies on String::from_utf8: succeeds exactly on valid UTF-8 input and
/// returns the string whose encoding is that input.
#[verifier::external_body]
pub fn string_from_utf8(v: Vec<u8>) -> (r: Option<String>)
    ensures
        r is Some <==> vstd::utf8::valid_utf8(v@),
        r matches Some(s) ==> vstd::utf8::encode_utf8(s@) == v@,
{
    String::from_utf8(v).ok()
}

/// Relies on hex::encode: the lower-case hex text of the bytes, two digits
/// per byte, high nibble first.
#[verifier::external_body]
pub fn hex_encode(b: &[u8]) -> (r: String)
    ensures
        r@ == hex_chars(b@),
{
    hex::encode(b)
}

} // verus!
