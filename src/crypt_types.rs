//! Typed envelopes: values sealed under a key with the active provider.

use vstd::prelude::*;
use vstd::utf8::{decode_utf8, encode_utf8, encode_utf8_decode_utf8, encode_utf8_valid_utf8, valid_utf8};
use crate::crypt_provider::{
    decrypt, encrypt, provider_opened, within_cipher_limits, CryptError, CryptProviders,
};
use crate::text::string_from_utf8;

verus! {

/// The four big-endian bytes of a 32-bit integer, in two's complement.
pub open spec fn i32_be_bytes(v: i32) -> Seq<u8> {
    let u = #[verifier::truncate] (v as u32);
    seq![(u >> 24u32) as u8, (u >> 16u32) as u8, (u >> 8u32) as u8, u as u8]
}

/// The 32-bit integer whose big-endian two's-complement bytes are `b`.
pub open spec fn i32_from_be(b: Seq<u8>) -> i32
    recommends
        b.len() == 4,
{
    #[verifier::truncate] (((b[0] as u32) << 24u32 | (b[1] as u32) << 16u32 | (b[2] as u32) << 8u32
        | b[3] as u32) as i32)
}

/// What opening a string envelope yields: the cipher's failure, a decoding
/// failure where the plaintext is not UTF-8, or the string.
pub open spec fn string_envelope_value(
    provider: CryptProviders,
    data: Seq<u8>,
    key: Seq<u8>,
) -> Result<Seq<char>, CryptError> {
    match provider_opened(provider, data, key) {
        None => Err(CryptError::Cipher),
        Some(p) => if valid_utf8(p) {
            Ok(decode_utf8(p))
        } else {
            Err(CryptError::Decode)
        },
    }
}

/// What opening an integer envelope yields: the cipher's failure, a decoding
/// failure where the plaintext is not four bytes long, or the integer.
pub open spec fn i32_envelope_value(provider: CryptProviders, data: Seq<u8>, key: Seq<u8>) -> Result<
    i32,
    CryptError,
> {
    match provider_opened(provider, data, key) {
        None => Err(CryptError::Cipher),
        Some(p) => if p.len() == 4 {
            Ok(i32_from_be(p))
        } else {
            Err(CryptError::Decode)
        },
    }
}

/// A value that can be sealed under a key and opened again.
pub trait Cryptable<T>: Sized {
    /// The envelope opens under `key` to `data`.
    spec fn seals(&self, data: &T, key: Seq<u8>, provider: CryptProviders) -> bool;

    /// The length in bytes of what the envelope of `data` holds.
    spec fn plain_len(data: &T) -> int;

    /// `r` is what opening the envelope under `key` yields.
    spec fn opens_to(&self, key: Seq<u8>, provider: CryptProviders, r: Result<T, CryptError>) -> bool;

    /// Seals `data` under `key`; it succeeds exactly within the cipher's
    /// limits.
    fn encrypt(data: &T, key: &[u8], provider: &CryptProviders) -> (r: Result<Self, CryptError>)
        ensures
            r matches Ok(c) ==> c.seals(data, key@, *provider),
            r matches Err(e) ==> e == CryptError::Cipher,
            r is Ok <==> within_cipher_limits(key@.len() as int, Self::plain_len(data)),
    ;

    /// Opens the envelope under `key`.
    fn decrypt(&self, key: &[u8], provider: &CryptProviders) -> (r: Result<T, CryptError>)
        ensures
            self.opens_to(key@, *provider, r),
    ;
}

/// A string sealed under a key.
#[derive(Debug)]
pub struct CryptString {
    pub data_crypt: Vec<u8>,
}

impl Cryptable<String> for CryptString {
    open spec fn plain_len(data: &String) -> int {
        encode_utf8(data@).len() as int
    }

    /// The envelope holds the UTF-8 bytes of the string.
    open spec fn seals(&self, data: &String, key: Seq<u8>, provider: CryptProviders) -> bool {
        &&& provider_opened(provider, self.data_crypt@, key) == Some(encode_utf8(data@))
        &&& string_envelope_value(provider, self.data_crypt@, key) == Ok::<Seq<char>, CryptError>(
            data@,
        )
    }

    open spec fn opens_to(
        &self,
        key: Seq<u8>,
        provider: CryptProviders,
        r: Result<String, CryptError>,
    ) -> bool {
        match r {
            Ok(s) => string_envelope_value(provider, self.data_crypt@, key) == Ok::<
                Seq<char>,
                CryptError,
            >(s@),
            Err(e) => string_envelope_value(provider, self.data_crypt@, key) == Err::<
                Seq<char>,
                CryptError,
            >(e),
        }
    }

    /// Seals the UTF-8 bytes of `data` under `key`.
    fn encrypt(data: &String, key: &[u8], provider: &CryptProviders) -> (r: Result<
        CryptString,
        CryptError,
    >) {
        let sealed = encrypt(data.as_str().as_bytes(), key, provider);
        match sealed {
            Ok(c) => {
                proof {
                    lemma_string_round_trip(*provider, c@, data@, key@);
                }
                Ok(CryptString { data_crypt: c })
            },
            Err(e) => Err(e),
        }
    }

    /// Opens the envelope under `key`: the cipher's failure, a decoding
    /// failure where the plaintext is not UTF-8, or the string.
    fn decrypt(&self, key: &[u8], provider: &CryptProviders) -> (r: Result<String, CryptError>) {
        let plain = decrypt(self.data_crypt.as_slice(), key, provider);
        match plain {
            Ok(p) => match string_from_utf8(p) {
                Some(s) => Ok(s),
                None => Err(CryptError::Decode),
            },
            Err(e) => Err(e),
        }
    }
}

impl CryptString {
    /// A second envelope with the same bytes.
    pub fn duplicate(&self) -> (r: CryptString)
        ensures
            r.data_crypt@ == self.data_crypt@,
    {
        CryptString { data_crypt: self.data_crypt.clone() }
    }
}

/// A 32-bit integer sealed under a key.
#[derive(Debug)]
pub struct CryptI32 {
    pub data_crypt: Vec<u8>,
}

impl Cryptable<i32> for CryptI32 {
    open spec fn plain_len(data: &i32) -> int {
        4
    }

    /// The envelope holds the four big-endian bytes of the integer.
    open spec fn seals(&self, data: &i32, key: Seq<u8>, provider: CryptProviders) -> bool {
        &&& provider_opened(provider, self.data_crypt@, key) == Some(i32_be_bytes(*data))
        &&& i32_envelope_value(provider, self.data_crypt@, key) == Ok::<i32, CryptError>(*data)
    }

    open spec fn opens_to(&self, key: Seq<u8>, provider: CryptProviders, r: Result<i32, CryptError>) -> bool {
        r == i32_envelope_value(provider, self.data_crypt@, key)
    }

    /// Seals the four big-endian bytes of `data` under `key`.
    fn encrypt(data: &i32, key: &[u8], provider: &CryptProviders) -> (r: Result<CryptI32, CryptError>) {
        let u = #[verifier::truncate] (*data as u32);
        let bytes: Vec<u8> = vec![(u >> 24u32) as u8, (u >> 16u32) as u8, (u >> 8u32) as u8, u as u8];
        assert(bytes@ =~= i32_be_bytes(*data));
        let sealed = encrypt(bytes.as_slice(), key, provider);
        match sealed {
            Ok(c) => {
                proof {
                    lemma_i32_round_trip(*provider, c@, *data, key@);
                }
                Ok(CryptI32 { data_crypt: c })
            },
            Err(e) => Err(e),
        }
    }

    /// Opens the envelope under `key`: the cipher's failure, a decoding
    /// failure where the plaintext is not four bytes long, or the integer.
    fn decrypt(&self, key: &[u8], provider: &CryptProviders) -> (r: Result<i32, CryptError>) {
        let plain = decrypt(self.data_crypt.as_slice(), key, provider);
        match plain {
            Ok(p) => {
                if p.len() == 4 {
                    let v = #[verifier::truncate] (((p[0] as u32) << 24u32 | (p[1] as u32) << 16u32
                        | (p[2] as u32) << 8u32 | p[3] as u32) as i32);
                    Ok(v)
                } else {
                    Err(CryptError::Decode)
                }
            },
            Err(e) => Err(e),
        }
    }
}

/// The big-endian bytes of an integer read back give the integer.
pub proof fn lemma_i32_bytes_round_trip(v: i32)
    ensures
        i32_from_be(i32_be_bytes(v)) == v,
{
    let u = #[verifier::truncate] (v as u32);
    assert((#[verifier::truncate] (u as i32)) == v) by (bit_vector)
        requires
            u == #[verifier::truncate] (v as u32),
    ;
    assert(((((u >> 24u32) as u8) as u32) << 24u32 | (((u >> 16u32) as u8) as u32) << 16u32 | (((u
        >> 8u32) as u8) as u32) << 8u32 | ((u as u8) as u32)) == u) by (bit_vector);
}

/// A string sealed under a key opens under that key to the same string,
/// the empty string included.
pub proof fn lemma_string_round_trip(
    provider: CryptProviders,
    data: Seq<u8>,
    v: Seq<char>,
    key: Seq<u8>,
)
    requires
        provider_opened(provider, data, key) == Some(encode_utf8(v)),
    ensures
        string_envelope_value(provider, data, key) == Ok::<Seq<char>, CryptError>(v),
{
    encode_utf8_valid_utf8(v);
    encode_utf8_decode_utf8(v);
}

/// An integer sealed under a key opens under that key to the same integer,
/// the extreme values included.
pub proof fn lemma_i32_round_trip(provider: CryptProviders, data: Seq<u8>, v: i32, key: Seq<u8>)
    requires
        provider_opened(provider, data, key) == Some(i32_be_bytes(v)),
    ensures
        i32_envelope_value(provider, data, key) == Ok::<i32, CryptError>(v),
{
    lemma_i32_bytes_round_trip(v);
}

} // verus!
