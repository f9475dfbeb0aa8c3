//! The key vault: a mnemonic phrase held at rest under a passphrase.
//!
//! A phrase is sealed with ChaCha20-Poly1305 under a key that PBKDF2 derives
//! from the passphrase and a salt drawn for that sealing. Reading and writing
//! the sealed record is left to the caller; this module decides what is sealed,
//! what a record opens to, and when a fresh phrase is made.

use crate::derivation::{path_is_usable, path_usable};
use crate::crypto::{
    aead_open, aead_seal, chacha20poly1305_open, chacha20poly1305_seal, os_random,
    pbkdf2_derive, pbkdf2_hmac_sha256, sealable, KDF_INPUT_LIMIT, TAG_LEN,
};
use crate::encoding::text_from_utf8;
use crate::eth::{
    derive_address_text, derived_address, entropy_to_phrase, phrase_is_valid, phrase_of_entropy,
    phrase_valid,
};
use vstd::prelude::*;
use vstd::slice::slice_to_vec;
use vstd::string::*;
use vstd::utf8::{decode_utf8, encode_utf8, valid_utf8};

verus! {

/// Rounds of the passphrase key derivation.
pub const KDF_ITERATIONS: u32 = 100_000;

/// Why the vault could not seal or open a phrase.
#[derive(Debug, Clone, Copy, PartialEq, Eq, Structural)]
pub enum VaultError {
    /// Passphrase or salt is too long for the key derivation.
    KeyDerivation,
    /// The phrase is too long to be sealed.
    Encryption,
    /// The system's random source failed.
    RandomSource,
    /// The sealed record is not of the expected shape.
    MalformedBlob,
    /// The passphrase does not authenticate the sealed record.
    AuthenticationFailed,
    /// The record opened to bytes that are not text.
    NotText,
    /// The text is not a valid mnemonic phrase.
    InvalidMnemonic,
}

/// A mnemonic phrase sealed under a passphrase, as it is kept at rest.
pub struct EncryptedMnemonic {
    /// The sealed phrase: ciphertext followed by the authentication tag.
    pub encrypted_data: Vec<u8>,
    /// The nonce of this sealing.
    pub nonce: Vec<u8>,
    /// The salt from which the key of this sealing was derived.
    pub salt: Vec<u8>,
}

/// A valid mnemonic phrase, the root of every derived key.
pub struct Mnemonic {
    phrase: String,
}

/// What `load_or_create_by_password` did.
pub enum VaultOutcome {
    /// The stored record opened under the passphrase.
    Loaded(Mnemonic),
    /// A fresh phrase was made and sealed; `blob` is to be stored.
    /// `replaced` tells that a stored record existed and did not authenticate
    /// under the passphrase, so that storing `blob` will supersede it.
    Created { mnemonic: Mnemonic, blob: EncryptedMnemonic, replaced: bool },
}

/// Where a wallet keeps its sealed phrase.
pub struct MnemonicStorage {
    storage_path: String,
}

/// Whether the key derivation accepts this passphrase and salt.
pub open spec fn kdf_accepts(password: Seq<char>, salt: Seq<u8>) -> bool {
    encode_utf8(password).len() < KDF_INPUT_LIMIT && salt.len() < KDF_INPUT_LIMIT
}

/// The key that a passphrase and a salt derive.
pub open spec fn vault_key(password: Seq<char>, salt: Seq<u8>) -> Seq<u8> {
    pbkdf2_hmac_sha256(KDF_ITERATIONS, salt, encode_utf8(password))
}

/// Whether `blob` is what sealing `text` under `password` gives, for the
/// blob's own salt and nonce.
pub open spec fn sealed_under(blob: EncryptedMnemonic, password: Seq<char>, text: Seq<char>) -> bool {
    &&& blob.nonce@.len() == 12
    &&& kdf_accepts(password, blob.salt@)
    &&& sealable(encode_utf8(text).len())
    &&& blob.encrypted_data@.len() == encode_utf8(text).len() + TAG_LEN
    &&& blob.encrypted_data@ == chacha20poly1305_seal(
        vault_key(password, blob.salt@),
        blob.nonce@,
        encode_utf8(text),
    )
}

/// What `blob` opens to under `password`: the phrase, or the reason why not.
pub open spec fn opened(blob: EncryptedMnemonic, password: Seq<char>) -> Result<Seq<char>, VaultError> {
    match opened_text(blob, password) {
        Ok(text) => if phrase_valid(text) {
            Ok(text)
        } else {
            Err(VaultError::InvalidMnemonic)
        },
        Err(e) => Err(e),
    }
}

/// What `blob` opens to under `password`: the text that was sealed, or the
/// reason why none is recovered.
pub open spec fn opened_text(blob: EncryptedMnemonic, password: Seq<char>) -> Result<
    Seq<char>,
    VaultError,
> {
    if blob.nonce@.len() != 12 {
        Err(VaultError::MalformedBlob)
    } else if !kdf_accepts(password, blob.salt@) {
        Err(VaultError::KeyDerivation)
    } else if blob.encrypted_data@.len() < TAG_LEN {
        Err(VaultError::MalformedBlob)
    } else {
        match chacha20poly1305_open(
            vault_key(password, blob.salt@),
            blob.nonce@,
            blob.encrypted_data@,
        ) {
            None => Err(VaultError::AuthenticationFailed),
            Some(bytes) => if !valid_utf8(bytes) {
                Err(VaultError::NotText)
            } else {
                Ok(decode_utf8(bytes))
            },
        }
    }
}

/// Whether `result` is the outcome `expected`: the same phrase, or the same
/// error.
pub open spec fn agrees(result: Result<Mnemonic, VaultError>, expected: Result<Seq<char>, VaultError>) -> bool {
    match (result, expected) {
        (Ok(m), Ok(text)) => m.phrase() == text,
        (Err(e), Err(expected_error)) => e == expected_error,
        _ => false,
    }
}

/// The address of the key that `phrase` derives along `path`: nothing where
/// the path is not usable or derivation does not accept phrase or path.
pub open spec fn address_at(phrase: Seq<char>, path: Seq<char>) -> Option<Seq<char>> {
    if path_usable(path) {
        derived_address(phrase, path)
    } else {
        None
    }
}

/// The derivation path of the key at `index` below `base`.
pub open spec fn indexed_path(base: Seq<char>, index: u32) -> Seq<char> {
    base + crate::encoding::decimal(index as nat)
}

/// Derives the key that seals and opens a phrase.
///
/// Fails, with `KeyDerivation`, only on a passphrase or salt too long for the
/// derivation.
pub fn derive_key(password: &str, salt: &[u8]) -> (key: Result<[u8; 32], VaultError>)
    ensures
        key is Ok <==> kdf_accepts(password@, salt@),
        key matches Ok(k) ==> k@ == vault_key(password@, salt@),
        key matches Err(e) ==> e == VaultError::KeyDerivation,
{
    let secret = password.as_bytes();
    if secret.len() as u64 >= KDF_INPUT_LIMIT || salt.len() as u64 >= KDF_INPUT_LIMIT {
        return Err(VaultError::KeyDerivation);
    }
    Ok(pbkdf2_derive(KDF_ITERATIONS, salt, secret))
}

/// Seals `mnemonic` under `password` with the given salt and nonce.
///
/// The record is a function of the four inputs. Fails with `KeyDerivation`
/// on a passphrase too long to derive a key from, else with `Encryption` on a
/// text too long to be sealed.
pub fn seal_mnemonic(mnemonic: &str, password: &str, salt: &[u8; 32], nonce: &[u8; 12]) -> (sealed:
    Result<EncryptedMnemonic, VaultError>)
    ensures
        sealed is Ok <==> kdf_accepts(password@, salt@) && sealable(encode_utf8(mnemonic@).len()),
        sealed matches Ok(blob) ==> blob.salt@ == salt@ && blob.nonce@ == nonce@ && sealed_under(
            blob,
            password@,
            mnemonic@,
        ),
        sealed matches Err(e) ==> (if kdf_accepts(password@, salt@) {
            e == VaultError::Encryption
        } else {
            e == VaultError::KeyDerivation
        }),
{
    let key = match derive_key(password, salt.as_slice()) {
        Ok(key) => key,
        Err(e) => {
            return Err(e);
        },
    };
    let text = mnemonic.as_bytes();
    if text.len() as u64 >= crate::crypto::SEAL_LIMIT || text.len() > isize::MAX as usize - TAG_LEN {
        return Err(VaultError::Encryption);
    }
    match aead_seal(&key, nonce.as_slice(), text) {
        Some(encrypted_data) => {
            let blob = EncryptedMnemonic {
                encrypted_data,
                nonce: slice_to_vec(nonce.as_slice()),
                salt: slice_to_vec(salt.as_slice()),
            };
            Ok(blob)
        },
        None => Err(VaultError::Encryption),
    }
}

/// Makes the phrase that `entropy` encodes and seals it under `password`.
///
/// Fails, with `KeyDerivation`, only on a passphrase too long to derive a key
/// from.
pub fn create_sealed(entropy: &[u8; 16], password: &str, salt: &[u8; 32], nonce: &[u8; 12]) -> (created:
    Result<(Mnemonic, EncryptedMnemonic), VaultError>)
    ensures
        created matches Ok((mnemonic, blob)) ==> mnemonic.phrase() == phrase_of_entropy(entropy@)
            && phrase_valid(mnemonic.phrase()) && blob.salt@ == salt@ && blob.nonce@ == nonce@
            && sealed_under(blob, password@, mnemonic.phrase()),
        created is Ok <==> kdf_accepts(password@, salt@),
        created matches Err(e) ==> e == VaultError::KeyDerivation,
{
    let mnemonic = Mnemonic::from_entropy(entropy);
    match seal_mnemonic(mnemonic.to_phrase(), password, salt, nonce) {
        Ok(blob) => Ok((mnemonic, blob)),
        Err(e) => Err(e),
    }
}

/// Opens `blob` under `password` and gives the text that was sealed.
///
/// The outcome is `opened_text(blob, password)`. In particular a record that
/// was sealed from a text under this passphrase opens to exactly that text.
pub fn open_text(blob: &EncryptedMnemonic, password: &str) -> (result: Result<String, VaultError>)
    ensures
        result is Ok <==> opened_text(*blob, password@) is Ok,
        result matches Ok(text) ==> opened_text(*blob, password@) == Ok::<Seq<char>, VaultError>(
            text@,
        ),
        result matches Err(e) ==> opened_text(*blob, password@) == Err::<Seq<char>, VaultError>(e),
        forall|text: Seq<char>| #[trigger]
            sealed_under(*blob, password@, text) ==> (result matches Ok(t) && t@ == text),
{
    if blob.nonce.len() != 12 {
        return Err(VaultError::MalformedBlob);
    }
    let key = match derive_key(password, blob.salt.as_slice()) {
        Ok(key) => key,
        Err(e) => {
            return Err(e);
        },
    };
    let plain = aead_open(&key, blob.nonce.as_slice(), blob.encrypted_data.as_slice());
    let result = match plain {
        None => {
            if blob.encrypted_data.len() < TAG_LEN {
                Err(VaultError::MalformedBlob)
            } else {
                Err(VaultError::AuthenticationFailed)
            }
        },
        Some(bytes) => {
            match text_from_utf8(bytes) {
                None => Err(VaultError::NotText),
                Some(text) => {
                    proof {
                        vstd::utf8::encode_utf8_decode_utf8(text@);
                    }
                    Ok(text)
                },
            }
        },
    };
    proof {
        assert forall|text: Seq<char>| #[trigger]
            sealed_under(*blob, password@, text) implies (result matches Ok(t) && t@ == text) by {
            vstd::utf8::encode_utf8_valid_utf8(text);
            vstd::utf8::encode_utf8_decode_utf8(text);
            let sealed = chacha20poly1305_seal(
                vault_key(password@, blob.salt@),
                blob.nonce@,
                encode_utf8(text),
            );
            assert(blob.encrypted_data@ == sealed);
            assert(plain matches Some(p) && p@ == encode_utf8(text));
        }
    }
    result
}

/// Opens `blob` under `password` and gives the mnemonic that was sealed.
///
/// The outcome is `opened(blob, password)`. In particular a record that was
/// sealed from a valid phrase under this passphrase opens to that phrase.
pub fn open_mnemonic(blob: &EncryptedMnemonic, password: &str) -> (result: Result<Mnemonic, VaultError>)
    ensures
        agrees(result, opened(*blob, password@)),
        forall|text: Seq<char>|
            phrase_valid(text) && #[trigger] sealed_under(*blob, password@, text) ==> agrees(
                result,
                Ok(text),
            ),
{
    match open_text(blob, password) {
        Ok(text) => match Mnemonic::from_phrase(text.as_str()) {
            Some(m) => Ok(m),
            None => Err(VaultError::InvalidMnemonic),
        },
        Err(e) => Err(e),
    }
}

impl VaultError {
    /// A one-line description of the error.
    pub open spec fn text(self) -> Seq<char> {
        match self {
            VaultError::KeyDerivation => "passphrase or salt too long for key derivation"@,
            VaultError::Encryption => "phrase too long to be sealed"@,
            VaultError::RandomSource => "system random source failed"@,
            VaultError::MalformedBlob => "sealed record is malformed"@,
            VaultError::AuthenticationFailed => "passphrase does not authenticate the sealed record"@,
            VaultError::NotText => "sealed record does not hold text"@,
            VaultError::InvalidMnemonic => "text is not a valid mnemonic phrase"@,
        }
    }

    /// A one-line description of the error.
    pub fn message(&self) -> (text: &'static str)
        ensures
            text@ == self.text(),
    {
        match self {
            VaultError::KeyDerivation => "passphrase or salt too long for key derivation",
            VaultError::Encryption => "phrase too long to be sealed",
            VaultError::RandomSource => "system random source failed",
            VaultError::MalformedBlob => "sealed record is malformed",
            VaultError::AuthenticationFailed => "passphrase does not authenticate the sealed record",
            VaultError::NotText => "sealed record does not hold text",
            VaultError::InvalidMnemonic => "text is not a valid mnemonic phrase",
        }
    }
}

impl Mnemonic {
    #[verifier::type_invariant]
    spec fn valid(&self) -> bool {
        phrase_valid(self.phrase@)
    }

    /// The words of the phrase.
    pub closed spec fn phrase(&self) -> Seq<char> {
        self.phrase@
    }

    /// Accepts `phrase` if it is a valid mnemonic.
    pub fn from_phrase(phrase: &str) -> (mnemonic: Option<Mnemonic>)
        ensures
            mnemonic is Some <==> phrase_valid(phrase@),
            mnemonic matches Some(m) ==> m.phrase() == phrase@,
    {
        if phrase_is_valid(phrase) {
            Some(Mnemonic { phrase: String::from_str(phrase) })
        } else {
            None
        }
    }

    /// The phrase that encodes 16 bytes of entropy: twelve words, short
    /// enough to be sealed.
    pub fn from_entropy(entropy: &[u8; 16]) -> (mnemonic: Mnemonic)
        ensures
            mnemonic.phrase() == phrase_of_entropy(entropy@),
            phrase_valid(mnemonic.phrase()),
            sealable(encode_utf8(mnemonic.phrase()).len()),
    {
        let phrase = entropy_to_phrase(entropy);
        proof {
            vstd::utf8::is_ascii_chars_encode_utf8(phrase@);
        }
        Mnemonic { phrase }
    }

    /// The words of the phrase, separated by single spaces.
    pub fn to_phrase(&self) -> (phrase: &str)
        ensures
            phrase@ == self.phrase(),
            phrase_valid(phrase@),
    {
        proof {
            use_type_invariant(self);
        }
        self.phrase.as_str()
    }

    /// The address of the key at `index` below the derivation path `base`.
    ///
    /// The address is a function of phrase, path and index alone. `None`
    /// tells that the path is not usable, or not one that key derivation
    /// accepts.
    pub fn derive_address(&self, base: &str, index: u32) -> (address: Option<String>)
        ensures
            address is Some <==> address_at(self.phrase(), indexed_path(base@, index)) is Some,
            address matches Some(a) ==> address_at(self.phrase(), indexed_path(base@, index))
                == Some(a@),
            address matches Some(a) ==> a@.len() == 42,
    {
        let digits = crate::encoding::u64_to_decimal(index as u64);
        let path = String::from_str(base).concat(digits.as_str());
        if !path_is_usable(path.as_str()) {
            return None;
        }
        derive_address_text(self.phrase.as_str(), path.as_str())
    }
}

} // verus!

verus! {

impl MnemonicStorage {
    /// A vault whose sealed record lives at `storage_path`.
    pub fn new(storage_path: String) -> (storage: Self)
        ensures
            storage.path() == storage_path@,
    {
        Self { storage_path }
    }

    /// Where the sealed record lives.
    pub closed spec fn path(&self) -> Seq<char> {
        self.storage_path@
    }

    /// Where the sealed record lives.
    pub fn storage_path(&self) -> (path: &str)
        ensures
            path@ == self.path(),
    {
        self.storage_path.as_str()
    }

    /// Seals `mnemonic` under `password` with a salt and a nonce drawn from the
    /// system's random source, and returns the record to store.
    ///
    /// Whatever was drawn, a returned record is a sealing of `mnemonic` under
    /// `password`. Fails with `RandomSource` if nothing could be drawn, else as
    /// `seal_mnemonic` does.
    pub fn save_mnemonic(&self, mnemonic: &str, password: &str) -> (saved: Result<
        EncryptedMnemonic,
        VaultError,
    >)
        ensures
            saved matches Ok(blob) ==> sealed_under(blob, password@, mnemonic@) && blob.salt@.len()
                == 32,
            saved matches Err(e) ==> e == VaultError::RandomSource || (e == VaultError::KeyDerivation
                && encode_utf8(password@).len() >= KDF_INPUT_LIMIT) || (e == VaultError::Encryption
                && !sealable(encode_utf8(mnemonic@).len())),
    {
        let salt = match os_random::<32>() {
            Some(salt) => salt,
            None => {
                return Err(VaultError::RandomSource);
            },
        };
        let nonce = match os_random::<12>() {
            Some(nonce) => nonce,
            None => {
                return Err(VaultError::RandomSource);
            },
        };
        seal_mnemonic(mnemonic, password, &salt, &nonce)
    }

    /// Opens the stored record `blob` under `password`; see `open_mnemonic`.
    pub fn load_mnemonic(&self, blob: &EncryptedMnemonic, password: &str) -> (loaded: Result<
        Mnemonic,
        VaultError,
    >)
        ensures
            agrees(loaded, opened(*blob, password@)),
            forall|text: Seq<char>|
                phrase_valid(text) && #[trigger] sealed_under(*blob, password@, text) ==> agrees(
                    loaded,
                    Ok(text),
                ),
    {
        open_mnemonic(blob, password)
    }

    /// Draws a fresh twelve-word phrase, seals it under `password` and
    /// checks that the record opens.
    fn create(&self, password: &str, replaced: bool) -> (outcome: Result<VaultOutcome, VaultError>)
        ensures
            is_fresh(outcome, password@, replaced),
    {
        let entropy = match os_random::<16>() {
            Some(entropy) => entropy,
            None => {
                return Err(VaultError::RandomSource);
            },
        };
        let salt = match os_random::<32>() {
            Some(salt) => salt,
            None => {
                return Err(VaultError::RandomSource);
            },
        };
        let nonce = match os_random::<12>() {
            Some(nonce) => nonce,
            None => {
                return Err(VaultError::RandomSource);
            },
        };
        let (fresh, blob) = match create_sealed(&entropy, password, &salt, &nonce) {
            Ok(created) => created,
            Err(e) => {
                return Err(e);
            },
        };
        match self.load_mnemonic(&blob, password) {
            Ok(mnemonic) => {
                assert(entropy@.len() == 16 && mnemonic.phrase() == phrase_of_entropy(entropy@));
                Ok(VaultOutcome::Created { mnemonic, blob, replaced })
            },
            Err(e) => Err(e),
        }
    }

    /// Opens the stored record, or makes a fresh phrase where there is none to
    /// open.
    ///
    /// `stored` is the record found at the storage path, if any. A record that
    /// opens is loaded; in particular one that was sealed from a valid phrase
    /// under `password`. Where there is no record, or the passphrase does not
    /// authenticate it, a fresh twelve-word phrase is drawn, sealed under
    /// `password` and handed back for storing; `replaced` then tells which of
    /// the two it was. Any other failure to open is returned as it is.
    ///
    /// A mistyped passphrase thus yields a new wallet whose record, once
    /// stored, supersedes the old one. `load_or_create_new` refuses instead.
    pub fn load_or_create_by_password(
        &self,
        stored: Option<&EncryptedMnemonic>,
        password: &str,
    ) -> (outcome: Result<VaultOutcome, VaultError>)
        ensures
            !creates(stored, password@) ==> loads(outcome, opened(*stored.unwrap(), password@)),
            creates(stored, password@) ==> is_fresh(outcome, password@, stored is Some),
            forall|text: Seq<char>|
                phrase_valid(text) && stored is Some && #[trigger] sealed_under(
                    *stored.unwrap(),
                    password@,
                    text,
                ) ==> (outcome matches Ok(VaultOutcome::Loaded(m)) && m.phrase() == text),
    {
        let replaced = match stored {
            Some(blob) => {
                match self.load_mnemonic(blob, password) {
                    Ok(mnemonic) => {
                        return Ok(VaultOutcome::Loaded(mnemonic));
                    },
                    Err(VaultError::AuthenticationFailed) => true,
                    Err(e) => {
                        return Err(e);
                    },
                }
            },
            None => false,
        };
        self.create(password, replaced)
    }

    /// Opens the stored record, or makes a fresh phrase where none is stored.
    ///
    /// A stored record is never superseded: where it does not open, for a
    /// passphrase that does not authenticate it as for any other reason, the
    /// failure is returned and nothing is made. Only where `stored` is
    /// nothing a fresh twelve-word phrase is drawn, sealed under `password`
    /// and handed back for storing.
    pub fn load_or_create_new(&self, stored: Option<&EncryptedMnemonic>, password: &str) -> (outcome:
        Result<VaultOutcome, VaultError>)
        ensures
            stored matches Some(b) ==> loads(outcome, opened(*b, password@)),
            stored is None ==> is_fresh(outcome, password@, false),
            forall|text: Seq<char>|
                phrase_valid(text) && stored is Some && #[trigger] sealed_under(
                    *stored.unwrap(),
                    password@,
                    text,
                ) ==> (outcome matches Ok(VaultOutcome::Loaded(m)) && m.phrase() == text),
    {
        match stored {
            Some(blob) => match self.load_mnemonic(blob, password) {
                Ok(mnemonic) => Ok(VaultOutcome::Loaded(mnemonic)),
                Err(e) => Err(e),
            },
            None => self.create(password, false),
        }
    }
}

/// Whether `outcome` loads what a stored record opens to: the phrase, or the
/// error; nothing is made.
pub open spec fn loads(outcome: Result<VaultOutcome, VaultError>, expected: Result<Seq<char>, VaultError>) -> bool {
    match (outcome, expected) {
        (Ok(VaultOutcome::Loaded(m)), Ok(text)) => m.phrase() == text,
        (Err(e), Err(expected_error)) => e == expected_error,
        _ => false,
    }
}

/// Whether `outcome` is that of making a fresh phrase: the phrase of 16
/// drawn bytes, with a record that is sealed from it under `password`, with a
/// salt of 32 bytes, and opens to it; or a failure of the random source; or,
/// for a passphrase too long to derive a key from, that of the key
/// derivation.
pub open spec fn is_fresh(outcome: Result<VaultOutcome, VaultError>, password: Seq<char>, replaced: bool) -> bool {
    match outcome {
        Ok(VaultOutcome::Created { mnemonic, blob, replaced: flagged }) => {
            &&& flagged == replaced
            &&& exists|entropy: Seq<u8>|
                entropy.len() == 16 && mnemonic.phrase() == #[trigger] phrase_of_entropy(entropy)
            &&& blob.salt@.len() == 32
            &&& sealed_under(blob, password, mnemonic.phrase())
            &&& opened(blob, password) == Ok::<Seq<char>, VaultError>(mnemonic.phrase())
        },
        Ok(VaultOutcome::Loaded(_)) => false,
        Err(e) => e == VaultError::RandomSource || (e == VaultError::KeyDerivation && encode_utf8(
            password,
        ).len() >= KDF_INPUT_LIMIT),
    }
}

/// Whether `load_or_create_by_password` makes a fresh phrase: there is no
/// stored record, or the passphrase does not authenticate it.
pub open spec fn creates(stored: Option<&EncryptedMnemonic>, password: Seq<char>) -> bool {
    match stored {
        None => true,
        Some(b) => opened(*b, password) == Err::<Seq<char>, VaultError>(
            VaultError::AuthenticationFailed,
        ),
    }
}

/// A record that the cipher does not authenticate under the key of another
/// passphrase opens to nothing under that passphrase: the vault reports
/// `AuthenticationFailed` and recovers no text.
pub proof fn lemma_other_passphrase_rejected(
    blob: EncryptedMnemonic,
    text: Seq<char>,
    sealing: Seq<char>,
    other: Seq<char>,
)
    requires
        sealed_under(blob, sealing, text),
        kdf_accepts(other, blob.salt@),
        chacha20poly1305_open(vault_key(other, blob.salt@), blob.nonce@, blob.encrypted_data@) is None,
    ensures
        opened_text(blob, other) == Err::<Seq<char>, VaultError>(VaultError::AuthenticationFailed),
        opened(blob, other) == Err::<Seq<char>, VaultError>(VaultError::AuthenticationFailed),
{
}

/// Two passphrases that derive one key from a record's salt are one to the
/// vault: what was sealed under the one is sealed under the other, and so
/// opens under it.
pub proof fn lemma_same_key_same_record(
    blob: EncryptedMnemonic,
    text: Seq<char>,
    sealing: Seq<char>,
    other: Seq<char>,
)
    requires
        sealed_under(blob, sealing, text),
        kdf_accepts(other, blob.salt@),
        vault_key(other, blob.salt@) == vault_key(sealing, blob.salt@),
    ensures
        sealed_under(blob, other, text),
{
}

/// Derivation is a function of its inputs: equal phrases, paths and indices
/// give equal addresses.
pub proof fn lemma_derivation_deterministic(
    phrase_a: Seq<char>,
    base_a: Seq<char>,
    index_a: u32,
    phrase_b: Seq<char>,
    base_b: Seq<char>,
    index_b: u32,
)
    requires
        phrase_a == phrase_b,
        base_a == base_b,
        index_a == index_b,
    ensures
        address_at(phrase_a, indexed_path(base_a, index_a)) == address_at(
            phrase_b,
            indexed_path(base_b, index_b),
        ),
{
}

/// Different indices below one base give different derivation paths.
pub proof fn lemma_indices_give_distinct_paths(base: Seq<char>, index_a: u32, index_b: u32)
    requires
        index_a != index_b,
    ensures
        indexed_path(base, index_a) != indexed_path(base, index_b),
{
    let a = crate::encoding::decimal(index_a as nat);
    let b = crate::encoding::decimal(index_b as nat);
    if indexed_path(base, index_a) == indexed_path(base, index_b) {
        assert((base + a).skip(base.len() as int) =~= a);
        assert((base + b).skip(base.len() as int) =~= b);
        crate::encoding::lemma_decimal_injective(index_a as nat, index_b as nat);
    }
}

} // verus!
