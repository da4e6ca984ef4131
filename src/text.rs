//! Byte-level text: UTF-8 decoding, ASCII strings and decimal numerals.

use vstd::prelude::*;
use vstd::utf8::{
    decode_utf8, encode_utf8, encode_utf8_decode_utf8, encode_utf8_valid_utf8,
    is_ascii_chars, is_ascii_chars_encode_utf8, valid_utf8,
};

verus! {

/// Relies on `String::from_utf8`: it accepts exactly the valid UTF-8 byte
/// strings, and the string it returns holds the characters they encode.
#[verifier::external_body]
pub(crate) fn string_from_utf8(bytes: Vec<u8>) -> (r: Option<String>)
    ensures
        r is Some <==> valid_utf8(bytes@),
        r matches Some(s) ==> s@ == decode_utf8(bytes@),
{
    String::from_utf8(bytes).ok()
}

/// Every byte is ASCII.
pub open spec fn all_ascii(b: Seq<u8>) -> bool {
    forall|i: int| 0 <= i < b.len() ==> #[trigger] b[i] < 128
}

/// The characters that ASCII bytes stand for.
pub open spec fn ascii_chars(b: Seq<u8>) -> Seq<char> {
    Seq::new(b.len(), |i: int| b[i] as char)
}

/// A decimal digit.
pub open spec fn is_digit(c: u8) -> bool {
    48 <= c <= 57
}

/// A letter or a digit of ASCII.
pub open spec fn is_alnum(c: u8) -> bool {
    is_digit(c) || (65 <= c <= 90) || (97 <= c <= 122)
}

/// The decimal numeral of `n`, most significant digit first, without
/// leading zeros.
pub open spec fn decimal(n: nat) -> Seq<u8>
    decreases n,
{
    if n < 10 {
        seq![(48 + n) as u8]
    } else {
        decimal(n / 10).push((48 + n % 10) as u8)
    }
}

/// The value of a string of decimal digits (the empty string reads as 0).
pub open spec fn digits_value(s: Seq<u8>) -> nat
    decreases s.len(),
{
    if s.len() == 0 {
        0
    } else {
        digits_value(s.drop_last()) * 10 + (s.last() - 48) as nat
    }
}

/// The number that a non-empty string of digits reads as, where it is no
/// larger than `i32::MAX`.
pub open spec fn decimal_id(d: Seq<u8>) -> Option<int> {
    if d.len() > 0 && (forall|i: int| 0 <= i < d.len() ==> is_digit(#[trigger] d[i]))
        && digits_value(d) <= i32::MAX {
        Some(digits_value(d) as int)
    } else {
        None
    }
}

/// The bytes of characters taken one for one (meaningful for ASCII).
pub open spec fn char_bytes(s: Seq<char>) -> Seq<u8> {
    Seq::new(s.len(), |i: int| s[i] as u8)
}

/// An ASCII letter or digit, as a character.
pub open spec fn is_alnum_char(c: char) -> bool {
    ('0' <= c <= '9') || ('A' <= c <= 'Z') || ('a' <= c <= 'z')
}

/// Characters that are all ASCII letters or digits are encoded one byte
/// each, and those bytes spell them back.
pub proof fn lemma_alnum_chars(s: Seq<char>)
    requires
        forall|i: int| 0 <= i < s.len() ==> is_alnum_char(#[trigger] s[i]),
    ensures
        encode_utf8(s) == char_bytes(s),
        ascii_chars(char_bytes(s)) == s,
        forall|i: int| 0 <= i < s.len() ==> is_alnum(#[trigger] char_bytes(s)[i]),
{
    assert(is_ascii_chars(s));
    is_ascii_chars_encode_utf8(s);
    assert(encode_utf8(s) =~= char_bytes(s));
    assert forall|i: int| 0 <= i < s.len() implies ascii_chars(char_bytes(s))[i] == s[i] by {
        let c = s[i];
        assert((c as u8) as char == c);
    }
    assert(ascii_chars(char_bytes(s)) =~= s);
}

/// ASCII bytes are valid UTF-8 and decode to the characters they stand for.
pub proof fn lemma_ascii_utf8(b: Seq<u8>)
    requires
        all_ascii(b),
    ensures
        valid_utf8(b),
        decode_utf8(b) == ascii_chars(b),
{
    let chars = ascii_chars(b);
    assert(is_ascii_chars(chars));
    is_ascii_chars_encode_utf8(chars);
    assert forall|i: int| 0 <= i < b.len() implies encode_utf8(chars)[i] == b[i] by {
        assert(chars[i] as u8 == b[i]);
    }
    assert(encode_utf8(chars) =~= b);
    encode_utf8_valid_utf8(chars);
    encode_utf8_decode_utf8(chars);
}

/// The string spelled by ASCII bytes.
pub(crate) fn ascii_string(bytes: Vec<u8>) -> (r: String)
    requires
        all_ascii(bytes@),
    ensures
        r@ == ascii_chars(bytes@),
{
    proof {
        lemma_ascii_utf8(bytes@);
    }
    match string_from_utf8(bytes) {
        Some(s) => s,
        None => String::new(),
    }
}

/// A decimal numeral is made of digits and reads back as its number.
pub proof fn lemma_decimal_digits(n: nat)
    ensures
        decimal(n).len() > 0,
        forall|i: int| 0 <= i < decimal(n).len() ==> is_digit(#[trigger] decimal(n)[i]),
        digits_value(decimal(n)) == n,
    decreases n,
{
    if n >= 10 {
        let d = decimal(n);
        let p = decimal(n / 10);
        lemma_decimal_digits(n / 10);
        assert(d == p.push((48 + n % 10) as u8));
        assert(d.drop_last() =~= p);
        assert(d.last() == (48 + n % 10) as u8);
        assert(digits_value(d) == digits_value(p) * 10 + (n % 10));
        assert((n / 10) * 10 + n % 10 == n) by (nonlinear_arith);
        assert forall|i: int| 0 <= i < d.len() implies is_digit(#[trigger] d[i]) by {
            if i < p.len() {
                assert(d[i] == p[i]);
            }
        }
    } else {
        let d = decimal(n);
        assert(d.drop_last() =~= Seq::<u8>::empty());
        assert(d.last() == (48 + n) as u8);
        assert(digits_value(d) == digits_value(d.drop_last()) * 10 + (d.last() - 48) as nat);
    }
}

/// Appends the decimal numeral of `n` to `out`.
pub(crate) fn push_decimal(n: u32, out: &mut Vec<u8>)
    ensures
        final(out)@ == old(out)@ + decimal(n as nat),
    decreases n,
{
    if n >= 10 {
        push_decimal(n / 10, out);
    }
    out.push(48u8 + (n % 10) as u8);
    assert(final(out)@ =~= old(out)@ + decimal(n as nat)) by {
        if n >= 10 {
            assert(decimal(n as nat) == decimal((n / 10) as nat).push((48 + n % 10) as u8));
        }
    }
}

/// Reads `s[start..end]` as a decimal number no larger than `i32::MAX`;
/// `None` where the range is empty, holds a non-digit, or is too large.
pub(crate) fn parse_decimal(s: &[u8], start: usize, end: usize) -> (r: Option<i32>)
    requires
        start <= end <= s@.len(),
    ensures
        match decimal_id(s@.subrange(start as int, end as int)) {
            Some(v) => r == Some(v as i32),
            None => r is None,
        },
{
    let ghost d = s@.subrange(start as int, end as int);
    if start == end {
        return None;
    }
    let mut k: usize = start;
    while k < end
        invariant
            start <= k <= end <= s@.len(),
            d == s@.subrange(start as int, end as int),
            forall|i: int| 0 <= i < k - start ==> is_digit(#[trigger] d[i]),
        decreases end - k,
    {
        if s[k] < 48 || s[k] > 57 {
            assert(!is_digit(d[k - start]));
            return None;
        }
        k = k + 1;
    }
    let mut acc: i32 = 0;
    k = start;
    while k < end
        invariant
            start <= k <= end <= s@.len(),
            d == s@.subrange(start as int, end as int),
            forall|i: int| 0 <= i < d.len() ==> is_digit(#[trigger] d[i]),
            0 <= acc,
            acc as nat == digits_value(d.subrange(0, k - start)),
        decreases end - k,
    {
        let c = s[k];
        assert(is_digit(d[k - start]));
        let ghost pre = d.subrange(0, k + 1 - start);
        assert(pre.drop_last() =~= d.subrange(0, k - start));
        assert(pre.last() == c);
        let dig: i32 = (c - 48) as i32;
        if acc > (i32::MAX - dig) / 10 {
            proof {
                lemma_digits_value_prefix(d, k + 1 - start);
                assert(digits_value(pre) == acc * 10 + dig);
                assert(acc * 10 + dig > i32::MAX) by (nonlinear_arith)
                    requires
                        acc > (i32::MAX - dig) / 10,
                        0 <= dig <= 9,
                ;
            }
            return None;
        }
        assert(acc * 10 + dig <= i32::MAX) by (nonlinear_arith)
            requires
                acc <= (i32::MAX - dig) / 10,
                0 <= dig <= 9,
                0 <= acc,
        ;
        acc = acc * 10 + dig;
        k = k + 1;
    }
    assert(d.subrange(0, k - start) =~= d);
    Some(acc)
}

/// A prefix of digits never reads larger than the whole.
pub proof fn lemma_digits_value_prefix(s: Seq<u8>, k: int)
    requires
        0 <= k <= s.len(),
        forall|i: int| 0 <= i < s.len() ==> is_digit(#[trigger] s[i]),
    ensures
        digits_value(s.subrange(0, k)) <= digits_value(s),
    decreases s.len(),
{
    if k < s.len() {
        assert(s.drop_last() =~= s.subrange(0, s.len() - 1));
        lemma_digits_value_prefix(s.drop_last(), k);
        assert(s.drop_last().subrange(0, k) =~= s.subrange(0, k));
    } else {
        assert(s.subrange(0, k) =~= s);
    }
}

} // verus!
