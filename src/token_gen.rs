//! Random secrets: local tokens and session secrets.

use rand::Rng;
use vstd::prelude::*;
use crate::text::{all_ascii, ascii_chars, ascii_string, char_bytes, is_alnum, is_alnum_char};

verus! {

/// The number of characters in every generated secret.
pub const TOKEN_LENGTH: usize = 32;

/// The number of characters that a secret draws from.
pub const CHARSET_LEN: usize = 62;

/// Relies on `rand::Rng::random_range` over the thread-local generator
/// (`rand::rng`): a value drawn from `0..n`. It panics on an empty range.
#[verifier::external_body]
fn random_below(n: usize) -> (r: usize)
    requires
        n > 0,
    ensures
        r < n,
{
    rand::rng().random_range(0..n)
}

/// The alphabet of secrets, by position: `A`-`Z`, `a`-`z`, `1`-`9`, `0`.
pub open spec fn charset_at(i: int) -> u8 {
    if i < 26 {
        (65 + i) as u8
    } else if i < 52 {
        (97 + i - 26) as u8
    } else if i < 61 {
        (49 + i - 52) as u8
    } else {
        48u8
    }
}

/// A well-formed secret: exactly `TOKEN_LENGTH` ASCII letters and digits.
pub open spec fn is_secret_text(s: Seq<char>) -> bool {
    s.len() == TOKEN_LENGTH && forall|i: int| 0 <= i < s.len() ==> is_alnum_char(#[trigger] s[i])
}

/// The character of the alphabet at position `i`.
pub fn charset_byte(i: usize) -> (r: u8)
    requires
        i < CHARSET_LEN,
    ensures
        r == charset_at(i as int),
        is_alnum(r),
{
    if i < 26 {
        65u8 + i as u8
    } else if i < 52 {
        97u8 + (i - 26) as u8
    } else if i < 61 {
        49u8 + (i - 52) as u8
    } else {
        48u8
    }
}

/// A fresh secret of `TOKEN_LENGTH` letters and digits, each drawn
/// uniformly from the alphabet.
pub fn generate_token() -> (r: String)
    ensures
        is_secret_text(r@),
{
    let mut bytes: Vec<u8> = Vec::new();
    let mut k: usize = 0;
    while k < TOKEN_LENGTH
        invariant
            k <= TOKEN_LENGTH,
            bytes@.len() == k,
            forall|i: int| 0 <= i < k ==> is_alnum(#[trigger] bytes@[i]),
        decreases TOKEN_LENGTH - k,
    {
        let idx = random_below(CHARSET_LEN);
        bytes.push(charset_byte(idx));
        k = k + 1;
    }
    let ghost b = bytes@;
    let r = ascii_string(bytes);
    proof {
        assert forall|i: int| 0 <= i < r@.len() implies is_alnum_char(#[trigger] r@[i]) by {
            assert(r@[i] == b[i] as char);
            assert(is_alnum(b[i]));
        }
    }
    r
}

} // verus!
