//! Cryptographic primitives the key vault is built on.
//!
//! Nothing in this module is proved. Each function hands one operation to the
//! crate that implements it, and its contract records what that crate is
//! trusted to do. Results that cannot be written down in a few lines are given
//! a name, so that the verified code above can speak about them exactly.

use chacha20poly1305::aead::{Aead, KeyInit};
use rand::RngCore;
use sha2::Digest;
use vstd::prelude::*;

verus! {

/// Length in bytes of the nonce of one sealing.
pub const NONCE_LEN: usize = 12;

/// Length in bytes of the authentication tag that ends a sealed message.
pub const TAG_LEN: usize = 16;

/// Inputs of the key derivation must be shorter than this many bytes.
pub const KDF_INPUT_LIMIT: u64 = 0x1000_0000_0000_0000;

/// A plaintext can be sealed only if it is shorter than this many bytes.
pub const SEAL_LIMIT: u64 = 0x3F_FFFF_FFC0;

/// The 32 bytes that PBKDF2 with HMAC-SHA-256 derives from `secret` and
/// `salt` in `iterations` rounds.
pub uninterp spec fn pbkdf2_hmac_sha256(iterations: u32, salt: Seq<u8>, secret: Seq<u8>) -> Seq<u8>;

/// The message that ChaCha20-Poly1305 produces for `plaintext` under `key`
/// and `nonce`, without associated data: the ciphertext followed by its tag.
pub uninterp spec fn chacha20poly1305_seal(key: Seq<u8>, nonce: Seq<u8>, plaintext: Seq<u8>) -> Seq<u8>;

/// What ChaCha20-Poly1305 recovers from `sealed` under `key` and `nonce`:
/// the plaintext, or nothing where the tag does not authenticate the message.
pub uninterp spec fn chacha20poly1305_open(key: Seq<u8>, nonce: Seq<u8>, sealed: Seq<u8>) -> Option<Seq<u8>>;

/// The SHA-256 digest of `data`.
pub uninterp spec fn sha256(data: Seq<u8>) -> Seq<u8>;

/// Whether a plaintext of `len` bytes is short enough to be sealed.
pub open spec fn sealable(len: nat) -> bool {
    len < SEAL_LIMIT && len + TAG_LEN <= isize::MAX
}

/// Whether `opened` is the plaintext of every sealing under `key` and `nonce`
/// that produced `sealed`.
pub open spec fn opens_what_was_sealed(
    key: Seq<u8>,
    nonce: Seq<u8>,
    sealed: Seq<u8>,
    opened: Option<Vec<u8>>,
) -> bool {
    forall|plaintext: Seq<u8>|
        sealable(plaintext.len()) && sealed == #[trigger] chacha20poly1305_seal(
            key,
            nonce,
            plaintext,
        ) ==> (opened matches Some(p) && p@ == plaintext)
}

/// `ring::pbkdf2::derive` with `PBKDF2_HMAC_SHA256` and a 32-byte output.
///
/// Trusted: the key is a function of the three inputs alone. The call panics
/// on zero iterations and on inputs beyond the hash's length limit, which the
/// precondition excludes.
#[verifier::external_body]
pub(crate) fn pbkdf2_derive(iterations: u32, salt: &[u8], secret: &[u8]) -> (key: [u8; 32])
    requires
        iterations > 0,
        salt@.len() < KDF_INPUT_LIMIT,
        secret@.len() < KDF_INPUT_LIMIT,
    ensures
        key@ == pbkdf2_hmac_sha256(iterations, salt@, secret@),
{
    let mut key = [0u8; 32];
    let rounds = std::num::NonZeroU32::new(iterations).unwrap();
    ring::pbkdf2::derive(ring::pbkdf2::PBKDF2_HMAC_SHA256, rounds, salt, secret, &mut key);
    key
}

/// `chacha20poly1305::ChaCha20Poly1305::encrypt` without associated data.
///
/// Trusted: sealing succeeds exactly on plaintexts of fewer than
/// `u32::MAX` blocks of 64 bytes, the sealed message is a function of key,
/// nonce and plaintext, and it is the plaintext's length plus a 16-byte tag
/// long. The call panics on a nonce that is not 12 bytes long and on a
/// plaintext too long to be extended by a tag, which the precondition
/// excludes.
#[verifier::external_body]
pub(crate) fn aead_seal(key: &[u8; 32], nonce: &[u8], plaintext: &[u8]) -> (sealed: Option<Vec<u8>>)
    requires
        nonce@.len() == NONCE_LEN,
        plaintext@.len() + TAG_LEN <= isize::MAX,
    ensures
        sealed is Some <==> sealable(plaintext@.len()),
        sealed matches Some(c) ==> c@ == chacha20poly1305_seal(key@, nonce@, plaintext@),
        sealed matches Some(c) ==> c@.len() == plaintext@.len() + TAG_LEN,
{
    let cipher = chacha20poly1305::ChaCha20Poly1305::new(key.into());
    cipher.encrypt(chacha20poly1305::Nonce::from_slice(nonce), plaintext).ok()
}

/// `chacha20poly1305::ChaCha20Poly1305::decrypt` without associated data.
///
/// Trusted: the outcome is a function of key, nonce and message; a message
/// shorter than a tag is rejected; a recovered plaintext is a tag shorter than
/// the message; and a message that was sealed under this key and nonce opens
/// to the plaintext it was sealed from. The call panics on a nonce that is not
/// 12 bytes long, which the precondition excludes.
#[verifier::external_body]
pub(crate) fn aead_open(key: &[u8; 32], nonce: &[u8], sealed: &[u8]) -> (opened: Option<Vec<u8>>)
    requires
        nonce@.len() == NONCE_LEN,
    ensures
        opened is Some <==> chacha20poly1305_open(key@, nonce@, sealed@) is Some,
        opened matches Some(p) ==> chacha20poly1305_open(key@, nonce@, sealed@) == Some(p@),
        opened matches Some(p) ==> p@.len() + TAG_LEN == sealed@.len(),
        opened is Some ==> sealed@.len() >= TAG_LEN,
        opens_what_was_sealed(key@, nonce@, sealed@, opened),
{
    let cipher = chacha20poly1305::ChaCha20Poly1305::new(key.into());
    cipher.decrypt(chacha20poly1305::Nonce::from_slice(nonce), sealed).ok()
}

/// `rand::rngs::OsRng::try_fill_bytes` on a fresh buffer of `N` bytes.
///
/// Trusted: nothing but the length, which the type gives. The bytes differ
/// from call to call; `None` reports that the system's source failed.
#[verifier::external_body]
pub(crate) fn os_random<const N: usize>() -> (bytes: Option<[u8; N]>)
{
    let mut buf = [0u8; N];
    rand::rngs::OsRng.try_fill_bytes(&mut buf).ok().map(|_| buf)
}

/// `sha2::Sha256::digest`.
///
/// Trusted: the digest is a function of the data alone.
#[verifier::external_body]
pub(crate) fn sha256_digest(data: &[u8]) -> (digest: [u8; 32])
    ensures
        digest@ == sha256(data@),
{
    sha2::Sha256::digest(data).into()
}

} // verus!
