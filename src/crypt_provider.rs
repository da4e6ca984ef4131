//! The symmetric cipher behind every envelope, chosen by configuration.

use vstd::prelude::*;

verus! {

/// What `simple_crypt::decrypt` yields for an envelope and a key: the
/// plaintext, or `None` where the key does not open the envelope. It is a
/// function of the two byte strings alone.
pub uninterp spec fn opened(data: Seq<u8>, key: Seq<u8>) -> Option<Seq<u8>>;

/// The longest key, in bytes, that the cipher's key derivation accepts.
pub const MAX_KEY_LEN: u64 = 0xFFFF_FFFF;

/// The longest plaintext, in bytes, that the cipher seals.
pub const MAX_PLAINTEXT_LEN: u64 = 0x10_0000_0000;

/// A key and a plaintext of these lengths are within the cipher's limits.
pub open spec fn within_cipher_limits(key_len: int, data_len: int) -> bool {
    key_len <= MAX_KEY_LEN && data_len <= MAX_PLAINTEXT_LEN
}

/// Why an envelope could not be built or opened.
#[derive(Debug, Clone, Copy, PartialEq, Eq, Structural)]
pub enum CryptError {
    /// The cipher refused: wrong key, corrupted input, or key derivation failed.
    Cipher,
    /// The cipher opened the envelope, but its bytes are not a value of the
    /// envelope's type.
    Decode,
}

/// The symmetric ciphers that can back the envelopes. Exactly one is active.
#[derive(Debug, Clone, Copy, PartialEq, Eq, Structural)]
pub enum CryptProviders {
    SimpleCryptProv,
}

/// A symmetric cipher whose envelopes open under the key they were sealed
/// with.
pub trait CryptProvider {
    /// What opening `data` under `key` yields.
    spec fn opens(data: Seq<u8>, key: Seq<u8>) -> Option<Seq<u8>>;

    /// Seals `data` under `key`; within the cipher's limits it succeeds.
    fn encrypt(data: &[u8], key: &[u8]) -> (r: Option<Vec<u8>>)
        ensures
            r matches Some(c) ==> Self::opens(c@, key@) == Some(data@),
            within_cipher_limits(key@.len() as int, data@.len() as int) ==> r is Some,
    ;

    /// Opens `data_crypt` under `key`.
    fn decrypt(data_crypt: &[u8], key: &[u8]) -> (r: Option<Vec<u8>>)
        ensures
            r matches Some(p) ==> Self::opens(data_crypt@, key@) == Some(p@),
            r is None ==> Self::opens(data_crypt@, key@) is None,
    ;
}

/// The cipher of the `simple_crypt` crate: AES-256-GCM-SIV under a key that
/// argon2 derives from the given key bytes and a random salt.
pub struct SimpleCryptProv {}

/// Relies on `simple_crypt::encrypt`: the envelope it returns opens under
/// the same key to the plaintext (salt and nonce travel inside it). It fails
/// only for a key that argon2 refuses (over `MAX_KEY_LEN` bytes) or a
/// plaintext that AES-GCM-SIV refuses (over `MAX_PLAINTEXT_LEN` bytes).
#[verifier::external_body]
fn simple_encrypt(data: &[u8], key: &[u8]) -> (r: Option<Vec<u8>>)
    ensures
        r matches Some(c) ==> opened(c@, key@) == Some(data@),
        within_cipher_limits(key@.len() as int, data@.len() as int) ==> r is Some,
{
    simple_crypt::encrypt(data, key).ok()
}

/// Relies on `simple_crypt::decrypt`: it returns the plaintext, or an error
/// where the key or the envelope is wrong.
#[verifier::external_body]
fn simple_decrypt(data_crypt: &[u8], key: &[u8]) -> (r: Option<Vec<u8>>)
    ensures
        r matches Some(p) ==> opened(data_crypt@, key@) == Some(p@),
        r is None ==> opened(data_crypt@, key@) is None,
{
    simple_crypt::decrypt(data_crypt, key).ok()
}

impl CryptProvider for SimpleCryptProv {
    open spec fn opens(data: Seq<u8>, key: Seq<u8>) -> Option<Seq<u8>> {
        opened(data, key)
    }

    fn encrypt(data: &[u8], key: &[u8]) -> (r: Option<Vec<u8>>) {
        simple_encrypt(data, key)
    }

    fn decrypt(data_crypt: &[u8], key: &[u8]) -> (r: Option<Vec<u8>>) {
        simple_decrypt(data_crypt, key)
    }
}

/// What the given provider yields when it opens `data` under `key`.
pub open spec fn provider_opened(provider: CryptProviders, data: Seq<u8>, key: Seq<u8>) -> Option<
    Seq<u8>,
> {
    match provider {
        CryptProviders::SimpleCryptProv => opened(data, key),
    }
}

/// Opens an envelope with the active provider.
pub fn decrypt(data_crypt: &[u8], key: &[u8], crypt_provider: &CryptProviders) -> (r: Result<
    Vec<u8>,
    CryptError,
>)
    ensures
        match provider_opened(*crypt_provider, data_crypt@, key@) {
            Some(p) => r matches Ok(v) && v@ == p,
            None => r == Err::<Vec<u8>, CryptError>(CryptError::Cipher),
        },
{
    let opened = match crypt_provider {
        CryptProviders::SimpleCryptProv => SimpleCryptProv::decrypt(data_crypt, key),
    };
    match opened {
        Some(p) => Ok(p),
        None => Err(CryptError::Cipher),
    }
}

/// Seals `data` under `key` with the active provider. It succeeds exactly
/// within the cipher's limits (longer keys or plaintexts are refused), and
/// the envelope opens under the same key to `data`.
pub fn encrypt(data: &[u8], key: &[u8], crypt_provider: &CryptProviders) -> (r: Result<
    Vec<u8>,
    CryptError,
>)
    ensures
        r matches Ok(c) ==> provider_opened(*crypt_provider, c@, key@) == Some(data@),
        r matches Err(e) ==> e == CryptError::Cipher,
        r is Ok <==> within_cipher_limits(key@.len() as int, data@.len() as int),
{
    if key.len() as u64 > MAX_KEY_LEN || data.len() as u64 > MAX_PLAINTEXT_LEN {
        return Err(CryptError::Cipher);
    }
    let sealed = match crypt_provider {
        CryptProviders::SimpleCryptProv => SimpleCryptProv::encrypt(data, key),
    };
    match sealed {
        Some(c) => Ok(c),
        None => Err(CryptError::Cipher),
    }
}

} // verus!
