//! Ethereum primitives: hashing, address text, 256-bit amounts and
//! hierarchical key derivation.
//!
//! The functions here are not proved: each one hands its work to the crate
//! named in its documentation, and its contract records what is trusted.

use crate::derivation::path_usable;
use crate::encoding::{big_endian, decimal, hex_digit, hex_lower};
use alloy::signers::local::coins_bip39::{English, Entropy, Mnemonic};
use std::str::FromStr;
use vstd::prelude::*;
use vstd::utf8::{encode_utf8, is_ascii_chars};

verus! {

/// The Keccak-256 digest of `data`.
pub uninterp spec fn keccak256(data: Seq<u8>) -> Seq<u8>;

/// Whether `phrase` is a mnemonic of the English word list whose checksum
/// word matches.
pub uninterp spec fn phrase_valid(phrase: Seq<char>) -> bool;

/// The English mnemonic phrase that encodes 16 bytes of entropy.
pub uninterp spec fn phrase_of_entropy(entropy: Seq<u8>) -> Seq<char>;

/// The checksummed address of the key derived from `phrase` along the
/// derivation path `path`, or nothing where phrase or path is not accepted.
pub uninterp spec fn derived_address(phrase: Seq<char>, path: Seq<char>) -> Option<Seq<char>>;

/// A lowercase hexadecimal letter raised to upper case; any other character
/// as it is.
pub open spec fn raised(c: char) -> char {
    if c == 'a' {
        'A'
    } else if c == 'b' {
        'B'
    } else if c == 'c' {
        'C'
    } else if c == 'd' {
        'D'
    } else if c == 'e' {
        'E'
    } else if c == 'f' {
        'F'
    } else {
        c
    }
}

/// An uppercase hexadecimal letter lowered; any other character as it is.
pub open spec fn lowered(c: char) -> char {
    if c == 'A' {
        'a'
    } else if c == 'B' {
        'b'
    } else if c == 'C' {
        'c'
    } else if c == 'D' {
        'd'
    } else if c == 'E' {
        'e'
    } else if c == 'F' {
        'f'
    } else {
        c
    }
}

/// The `i`-th half byte of `bytes`, the high half of each byte first.
pub open spec fn half_byte(bytes: Seq<u8>, i: int) -> int {
    if i % 2 == 0 {
        bytes[i / 2] as int / 16
    } else {
        bytes[i / 2] as int % 16
    }
}

/// The mixed-case checksummed text of an address: `0x`, then the lowercase
/// hexadecimal digits of the address, each letter raised where the half byte
/// at its place in the Keccak-256 digest of those digits is 8 or more.
pub open spec fn checksum_text(address: Seq<u8>) -> Seq<char> {
    let digits = hex_lower(address);
    let digest = keccak256(encode_utf8(digits));
    seq!['0', 'x'] + Seq::new(
        digits.len(),
        |i: int|
            if half_byte(digest, i) >= 8 {
                raised(digits[i])
            } else {
                digits[i]
            },
    )
}

/// Two addresses of one length with one checksummed text are one address.
pub proof fn lemma_checksum_text_injective(a: Seq<u8>, b: Seq<u8>)
    requires
        a.len() == b.len(),
        checksum_text(a) == checksum_text(b),
    ensures
        a == b,
{
    let ta = checksum_text(a);
    let tb = checksum_text(b);
    assert forall|k: int| 0 <= k < a.len() implies a[k] == b[k] by {
        let high_a = a[k] as int / 16;
        let low_a = a[k] as int % 16;
        let high_b = b[k] as int / 16;
        let low_b = b[k] as int % 16;
        assert(hex_lower(a)[2 * k] == hex_digit(high_a));
        assert(hex_lower(a)[2 * k + 1] == hex_digit(low_a));
        assert(hex_lower(b)[2 * k] == hex_digit(high_b));
        assert(hex_lower(b)[2 * k + 1] == hex_digit(low_b));
        assert(ta[2 + 2 * k] == tb[2 + 2 * k]);
        assert(ta[2 + 2 * k + 1] == tb[2 + 2 * k + 1]);
        assert(lowered(ta[2 + 2 * k]) == hex_digit(high_a));
        assert(lowered(tb[2 + 2 * k]) == hex_digit(high_b));
        assert(lowered(ta[2 + 2 * k + 1]) == hex_digit(low_a));
        assert(lowered(tb[2 + 2 * k + 1]) == hex_digit(low_b));
        assert(high_a == high_b);
        assert(low_a == low_b);
    }
    assert(a =~= b);
}

/// The value of a hexadecimal digit of either case.
pub open spec fn hex_value(c: char) -> Option<int> {
    if '0' <= c && c <= '9' {
        Some(c as int - '0' as int)
    } else if 'a' <= c && c <= 'f' {
        Some(c as int - 'a' as int + 10)
    } else if 'A' <= c && c <= 'F' {
        Some(c as int - 'A' as int + 10)
    } else {
        None
    }
}

/// `text` without a leading `0x`.
pub open spec fn without_prefix(text: Seq<char>) -> Seq<char> {
    if text.len() >= 2 && text[0] == '0' && text[1] == 'x' {
        text.skip(2)
    } else {
        text
    }
}

/// The address that `text` spells: forty hexadecimal digits of either case,
/// with or without a leading `0x`.
pub open spec fn address_of_text(text: Seq<char>) -> Option<Seq<u8>> {
    let body = without_prefix(text);
    if body.len() == 40 && (forall|i: int| 0 <= i < 40 ==> hex_value(#[trigger] body[i]) is Some) {
        Some(
            Seq::new(
                20,
                |i: int|
                    (hex_value(body[2 * i]).unwrap() * 16 + hex_value(body[2 * i + 1]).unwrap()) as u8,
            ),
        )
    } else {
        None
    }
}

/// `alloy::primitives::keccak256`.
///
/// Trusted: the digest is a function of the data alone.
#[verifier::external_body]
pub(crate) fn keccak256_digest(data: &[u8]) -> (digest: [u8; 32])
    ensures
        digest@ == keccak256(data@),
{
    alloy::primitives::keccak256(data).0
}

/// `alloy::primitives::Address::to_checksum` without a chain id, which is
/// also how an address prints.
///
/// Trusted: the text is `0x` and the forty lowercase hexadecimal digits of the
/// address, each letter raised where the half byte at its place in the
/// Keccak-256 digest of the forty digits is 8 or more.
#[verifier::external_body]
pub(crate) fn address_to_text(address: &[u8; 20]) -> (text: String)
    ensures
        text@ == checksum_text(address@),
        text@.len() == 42,
{
    alloy::primitives::Address::from(*address).to_checksum(None)
}

/// `alloy::primitives::Address::from_str`.
///
/// Trusted: the text is accepted exactly when it is forty hexadecimal digits
/// of either case after an optional `0x`, and the address holds the bytes that
/// the digits spell. The checksum that the case of the letters may carry is
/// not examined.
#[verifier::external_body]
pub(crate) fn address_from_text(text: &str) -> (address: Option<[u8; 20]>)
    ensures
        address is Some <==> address_of_text(text@) is Some,
        address matches Some(a) ==> address_of_text(text@) == Some(a@),
{
    alloy::primitives::Address::from_str(text).ok().map(|a| a.into_array())
}

/// `alloy::primitives::U256::from_be_bytes` followed by the number's
/// `to_string`.
///
/// Trusted: the text is the decimal form of the number that the 32 bytes
/// stand for, most significant byte first.
#[verifier::external_body]
pub(crate) fn u256_to_decimal(bytes: &[u8; 32]) -> (text: String)
    ensures
        text@ == decimal(big_endian(bytes@)),
{
    alloy::primitives::U256::from_be_bytes(*bytes).to_string()
}

/// `coins_bip39::Mnemonic::<English>::new_from_phrase`, reduced to whether it
/// accepts the phrase.
///
/// Trusted: acceptance is a function of the phrase alone.
#[verifier::external_body]
pub(crate) fn phrase_is_valid(phrase: &str) -> (valid: bool)
    ensures
        valid == phrase_valid(phrase@),
{
    Mnemonic::<English>::new_from_phrase(phrase).is_ok()
}

/// `coins_bip39::Mnemonic::<English>::new_from_entropy` followed by
/// `to_phrase`.
///
/// Trusted: the phrase is a function of the entropy alone, and it is one that
/// `new_from_phrase` accepts. It is twelve words of the English list, which
/// are three to eight lowercase letters each, with single spaces between
/// them: plain ASCII of 47 to 107 characters.
#[verifier::external_body]
pub(crate) fn entropy_to_phrase(entropy: &[u8; 16]) -> (phrase: String)
    ensures
        phrase@ == phrase_of_entropy(entropy@),
        phrase_valid(phrase@),
        is_ascii_chars(phrase@),
        47 <= phrase@.len() <= 107,
{
    Mnemonic::<English>::new_from_entropy(Entropy::from(*entropy)).to_phrase()
}

/// `alloy::signers::local::MnemonicBuilder::<English>` with a phrase and a
/// derivation path, built, and the signer's address printed.
///
/// Trusted: the outcome is a function of phrase and path alone; a phrase that
/// is not valid gives nothing; an address is 42 characters long. The call
/// overflows on a hardened number of 2^31 or more, when it parses the path,
/// and on a path of more than 255 numbers, when it counts the depth of the
/// key; the precondition excludes both. A derivation step that meets an
/// unusable digest moves on to the next number; that it does not run out of
/// numbers this way is taken for granted.
#[verifier::external_body]
pub(crate) fn derive_address_text(phrase: &str, path: &str) -> (address: Option<String>)
    requires
        path_usable(path@),
    ensures
        address is Some <==> derived_address(phrase@, path@) is Some,
        address matches Some(a) ==> derived_address(phrase@, path@) == Some(a@),
        address matches Some(a) ==> a@.len() == 42,
        address is Some ==> phrase_valid(phrase@),
{
    let builder = alloy::signers::local::MnemonicBuilder::<English>::default().phrase(phrase);
    let signer = builder.derivation_path(path).ok()?.build().ok()?;
    Some(signer.address().to_string())
}

} // verus!
