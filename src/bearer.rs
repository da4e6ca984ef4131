//! The bearer token: `"{session_id}_{secret}"`, presented as
//! `Authorization: Bearer <token>`.

use vstd::prelude::*;
use vstd::utf8::encode_utf8;
use crate::error::AuthError;
use crate::text::{
    all_ascii, ascii_chars, ascii_string, char_bytes, decimal, decimal_id, is_alnum, is_digit,
    lemma_alnum_chars, lemma_decimal_digits, parse_decimal, push_decimal,
};
use crate::token_gen::{is_secret_text, TOKEN_LENGTH};

verus! {

/// The bytes of `"Bearer "`.
pub open spec fn bearer_prefix() -> Seq<u8> {
    seq![66u8, 101u8, 97u8, 114u8, 101u8, 114u8, 32u8]
}

/// A secret as bytes: `TOKEN_LENGTH` ASCII letters and digits.
pub open spec fn is_secret(s: Seq<u8>) -> bool {
    s.len() == TOKEN_LENGTH && forall|i: int| 0 <= i < s.len() ==> is_alnum(#[trigger] s[i])
}

/// The session id and the secret that an authorization header names:
/// `"Bearer "`, a decimal id no larger than `i32::MAX`, `_`, and a secret.
/// Any other form names nothing.
pub open spec fn parse_bearer(h: Seq<u8>) -> Option<(int, Seq<u8>)> {
    let n = h.len() as int;
    if n >= 41 && h.subrange(0, 7) == bearer_prefix() && h[n - 33] == 95u8 && decimal_id(
        h.subrange(7, n - 33),
    ) is Some && is_secret(h.subrange(n - 32, n)) {
        Some((decimal_id(h.subrange(7, n - 33))->0, h.subrange(n - 32, n)))
    } else {
        None
    }
}

/// The token handed to a client: the session id in decimal, `_`, the secret.
pub open spec fn token_text(id: int, secret: Seq<char>) -> Seq<char> {
    ascii_chars(decimal(id as nat)) + seq!['_'] + secret
}

/// Parses and extracts the session id and the secret from an
/// authorization header.
pub fn split_auth_header(auth_header: &str) -> (r: Result<(i32, String), AuthError>)
    ensures
        match parse_bearer(encode_utf8(auth_header@)) {
            Some((id, secret)) => r matches Ok((i, s)) && i == id && s@ == ascii_chars(secret),
            None => r == Err::<(i32, String), AuthError>(AuthError::InvalidToken),
        },
{
    let b = auth_header.as_bytes();
    let ghost h = b@;
    assert(h == encode_utf8(auth_header@));
    let n = b.len();
    if n < 41 {
        return Err(AuthError::InvalidToken);
    }
    if !(b[0] == 66u8 && b[1] == 101u8 && b[2] == 97u8 && b[3] == 114u8 && b[4] == 101u8 && b[5]
        == 114u8 && b[6] == 32u8) {
        assert(h.subrange(0, 7) != bearer_prefix()) by {
            if h.subrange(0, 7) == bearer_prefix() {
                assert(h.subrange(0, 7)[0] == h[0]);
                assert(h.subrange(0, 7)[1] == h[1]);
                assert(h.subrange(0, 7)[2] == h[2]);
                assert(h.subrange(0, 7)[3] == h[3]);
                assert(h.subrange(0, 7)[4] == h[4]);
                assert(h.subrange(0, 7)[5] == h[5]);
                assert(h.subrange(0, 7)[6] == h[6]);
            }
        }
        return Err(AuthError::InvalidToken);
    }
    assert(h.subrange(0, 7) =~= bearer_prefix());
    if b[n - 33] != 95u8 {
        return Err(AuthError::InvalidToken);
    }
    let id = match parse_decimal(b, 7, n - 33) {
        Some(id) => id,
        None => {
            return Err(AuthError::InvalidToken);
        },
    };
    let mut secret: Vec<u8> = Vec::new();
    let mut k: usize = n - 32;
    while k < n
        invariant
            n == h.len(),
            n >= 41,
            n - 32 <= k <= n,
            h == b@,
            h == encode_utf8(auth_header@),
            secret@ == h.subrange(n - 32, k as int),
            forall|i: int| 0 <= i < secret@.len() ==> is_alnum(#[trigger] secret@[i]),
        decreases n - k,
    {
        let c = b[k];
        if !((48u8 <= c && c <= 57u8) || (65u8 <= c && c <= 90u8) || (97u8 <= c && c <= 122u8)) {
            assert(h.subrange(n - 32, n as int)[k - (n - 32)] == c);
            assert(!is_alnum(c));
            assert(!is_secret(h.subrange(n - 32, n as int)));
            return Err(AuthError::InvalidToken);
        }
        secret.push(c);
        k = k + 1;
        assert(secret@ =~= h.subrange(n - 32, k as int));
    }
    assert(secret@ =~= h.subrange(n - 32, n as int));
    let s = ascii_string(secret);
    Ok((id, s))
}

/// The token for session `id` with the given secret.
pub fn bearer_token(id: i32, secret: &String) -> (r: String)
    requires
        0 <= id,
        is_secret_text(secret@),
    ensures
        r@ == token_text(id as int, secret@),
{
    let mut bytes: Vec<u8> = Vec::new();
    push_decimal(id as u32, &mut bytes);
    bytes.push(95u8);
    let sb = secret.as_str().as_bytes();
    proof {
        lemma_alnum_chars(secret@);
        lemma_decimal_digits(id as nat);
    }
    let ghost pre = bytes@;
    let mut k: usize = 0;
    while k < sb.len()
        invariant
            k <= sb@.len(),
            sb@ == char_bytes(secret@),
            bytes@ == pre + sb@.subrange(0, k as int),
            forall|i: int| 0 <= i < sb@.len() ==> is_alnum(#[trigger] sb@[i]),
        decreases sb@.len() - k,
    {
        bytes.push(sb[k]);
        k = k + 1;
        assert(bytes@ =~= pre + sb@.subrange(0, k as int));
    }
    assert(bytes@ =~= decimal(id as nat) + seq![95u8] + char_bytes(secret@));
    assert(all_ascii(bytes@)) by {
        assert forall|i: int| 0 <= i < bytes@.len() implies #[trigger] bytes@[i] < 128 by {
            let d = decimal(id as nat);
            if i < d.len() {
                assert(is_digit(d[i]));
            } else if i > d.len() {
                assert(is_alnum(sb@[i - d.len() - 1]));
            }
        }
    }
    let r = ascii_string(bytes);
    assert(r@ =~= token_text(id as int, secret@));
    r
}

/// The header `"Bearer " + token` for a token issued for session `id` names
/// that session and its secret.
pub proof fn lemma_parse_issued_token(id: int, secret: Seq<char>)
    requires
        0 <= id <= i32::MAX,
        is_secret_text(secret),
    ensures
        parse_bearer(bearer_prefix() + encode_utf8(token_text(id, secret))) == Some(
            (id, char_bytes(secret)),
        ),
{
    let d = decimal(id as nat);
    lemma_decimal_digits(id as nat);
    lemma_alnum_chars(secret);
    let t = token_text(id, secret);
    let tb = d + seq![95u8] + char_bytes(secret);
    assert(encode_utf8(t) == tb) by {
        vstd::utf8::is_ascii_chars_encode_utf8(t);
        assert forall|i: int| 0 <= i < t.len() implies t[i] as u8 == tb[i] by {
            if i < d.len() {
                assert(is_digit(d[i]));
                assert(t[i] == d[i] as char);
            } else if i > d.len() {
                assert(t[i] == secret[i - d.len() - 1]);
            }
        }
        assert(encode_utf8(t) =~= tb);
    }
    let h = bearer_prefix() + tb;
    let n = h.len() as int;
    assert(h.subrange(0, 7) =~= bearer_prefix());
    assert(h.subrange(7, n - 33) =~= d);
    assert(h.subrange(n - 32, n) =~= char_bytes(secret));
    assert(h[n - 33] == 95u8);
}

} // verus!
