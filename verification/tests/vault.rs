use chacha20poly1305::aead::{Aead, KeyInit};
use ethserv::wallet::mnemonic::{
    create_sealed, derive_key, open_mnemonic, open_text, seal_mnemonic, EncryptedMnemonic, Mnemonic,
    MnemonicStorage, VaultError, VaultOutcome,
};

const PHRASE: &str =
    "abandon abandon abandon abandon abandon abandon abandon abandon abandon abandon abandon about";

#[test]
fn entropy_of_zeros_gives_the_published_phrase() {
    let mnemonic = Mnemonic::from_entropy(&[0u8; 16]);
    assert_eq!(mnemonic.to_phrase(), PHRASE);
}

#[test]
fn from_phrase_accepts_a_valid_phrase_and_rejects_a_bad_checksum() {
    assert!(Mnemonic::from_phrase(PHRASE).is_some());
    let bad =
        "abandon abandon abandon abandon abandon abandon abandon abandon abandon abandon abandon abandon";
    assert!(Mnemonic::from_phrase(bad).is_none());
    assert!(Mnemonic::from_phrase("").is_none());
    assert!(Mnemonic::from_phrase("not a phrase").is_none());
}

#[test]
fn derive_key_is_pbkdf2_with_a_hundred_thousand_rounds() {
    let mut expected = [0u8; 32];
    ring::pbkdf2::derive(
        ring::pbkdf2::PBKDF2_HMAC_SHA256,
        std::num::NonZeroU32::new(100_000).unwrap(),
        b"salt",
        b"passwd",
        &mut expected,
    );
    let a = derive_key("passwd", b"salt").unwrap();
    assert_eq!(a, expected);
    assert_eq!(a, derive_key("passwd", b"salt").unwrap());
    assert_ne!(a, derive_key("passwd", b"pepper").unwrap());
    assert_ne!(a, derive_key("other", b"salt").unwrap());
    assert_ne!(a, derive_key("salt", b"passwd").unwrap());
}

#[test]
fn sealed_record_is_what_the_cipher_gives_under_the_derived_key() {
    let salt = [7u8; 32];
    let nonce = [9u8; 12];
    let key = derive_key("pw", &salt).unwrap();
    let cipher = chacha20poly1305::ChaCha20Poly1305::new((&key).into());
    let expected = cipher.encrypt((&nonce).into(), PHRASE.as_bytes()).unwrap();
    let blob = seal_mnemonic(PHRASE, "pw", &salt, &nonce).unwrap();
    assert_eq!(blob.encrypted_data, expected);
}

#[test]
fn seal_then_open_gives_the_phrase_back() {
    let blob = seal_mnemonic(PHRASE, "correct horse", &[7u8; 32], &[9u8; 12]).unwrap();
    assert_eq!(blob.salt, vec![7u8; 32]);
    assert_eq!(blob.nonce, vec![9u8; 12]);
    assert_eq!(blob.encrypted_data.len(), PHRASE.len() + 16);
    assert_ne!(&blob.encrypted_data[..PHRASE.len()], PHRASE.as_bytes());
    let opened = open_mnemonic(&blob, "correct horse").unwrap();
    assert_eq!(opened.to_phrase(), PHRASE);
}

#[test]
fn sealing_is_a_function_of_its_inputs() {
    let a = seal_mnemonic(PHRASE, "pw", &[1u8; 32], &[2u8; 12]).unwrap();
    let b = seal_mnemonic(PHRASE, "pw", &[1u8; 32], &[2u8; 12]).unwrap();
    let c = seal_mnemonic(PHRASE, "pw", &[1u8; 32], &[3u8; 12]).unwrap();
    assert_eq!(a.encrypted_data, b.encrypted_data);
    assert_ne!(a.encrypted_data, c.encrypted_data);
}

#[test]
fn another_passphrase_fails_authentication() {
    let blob = seal_mnemonic(PHRASE, "first", &[7u8; 32], &[9u8; 12]).unwrap();
    match open_mnemonic(&blob, "second") {
        Err(e) => assert_eq!(e, VaultError::AuthenticationFailed),
        Ok(_) => panic!("opened under another passphrase"),
    }
}

#[test]
fn tampered_record_fails_authentication() {
    let mut blob = seal_mnemonic(PHRASE, "pw", &[7u8; 32], &[9u8; 12]).unwrap();
    blob.encrypted_data[0] ^= 1;
    assert!(matches!(open_mnemonic(&blob, "pw"), Err(VaultError::AuthenticationFailed)));
}

#[test]
fn malformed_records_are_reported() {
    let good = seal_mnemonic(PHRASE, "pw", &[7u8; 32], &[9u8; 12]).unwrap();
    let short_nonce = EncryptedMnemonic {
        encrypted_data: good.encrypted_data.clone(),
        nonce: vec![9u8; 11],
        salt: good.salt.clone(),
    };
    assert!(matches!(open_mnemonic(&short_nonce, "pw"), Err(VaultError::MalformedBlob)));
    let short_data = EncryptedMnemonic {
        encrypted_data: vec![1u8; 15],
        nonce: vec![9u8; 12],
        salt: vec![7u8; 32],
    };
    assert!(matches!(open_mnemonic(&short_data, "pw"), Err(VaultError::MalformedBlob)));
}

#[test]
fn text_that_is_no_phrase_is_reported() {
    let blob = seal_mnemonic("hello world", "pw", &[7u8; 32], &[9u8; 12]).unwrap();
    assert!(matches!(open_mnemonic(&blob, "pw"), Err(VaultError::InvalidMnemonic)));
    assert_eq!(open_text(&blob, "pw").unwrap(), "hello world");
}

#[test]
fn any_text_opens_to_itself() {
    for text in ["", "a", "caf\u{e9} \u{4e2d}\u{6587}", "line\nbreak\0"] {
        let blob = seal_mnemonic(text, "p\u{e4}ss", &[3u8; 32], &[4u8; 12]).unwrap();
        assert_eq!(open_text(&blob, "p\u{e4}ss").unwrap(), text);
        assert!(matches!(open_text(&blob, "pass"), Err(VaultError::AuthenticationFailed)));
    }
}

#[test]
fn bytes_that_are_no_text_are_reported() {
    let salt = [7u8; 32];
    let nonce = [9u8; 12];
    let key = derive_key("pw", &salt).unwrap();
    let cipher = chacha20poly1305::ChaCha20Poly1305::new((&key).into());
    let sealed = cipher.encrypt((&nonce).into(), &[0xffu8, 0xfe][..]).unwrap();
    let blob =
        EncryptedMnemonic { encrypted_data: sealed, nonce: nonce.to_vec(), salt: salt.to_vec() };
    assert!(matches!(open_text(&blob, "pw"), Err(VaultError::NotText)));
}

#[test]
fn create_sealed_seals_the_phrase_of_the_entropy() {
    let (mnemonic, blob) = create_sealed(&[0u8; 16], "pw", &[7u8; 32], &[9u8; 12]).unwrap();
    assert_eq!(mnemonic.to_phrase(), PHRASE);
    assert_eq!(open_mnemonic(&blob, "pw").unwrap().to_phrase(), PHRASE);
}

#[test]
fn save_mnemonic_draws_fresh_salt_and_nonce() {
    let storage = MnemonicStorage::new(String::from("pers/mnemonic_x.dat"));
    assert_eq!(storage.storage_path(), "pers/mnemonic_x.dat");
    let a = storage.save_mnemonic(PHRASE, "pw").unwrap();
    let b = storage.save_mnemonic(PHRASE, "pw").unwrap();
    assert_eq!(a.salt.len(), 32);
    assert_eq!(a.nonce.len(), 12);
    assert_ne!(a.salt, b.salt);
    assert_ne!(a.nonce, b.nonce);
    assert_eq!(storage.load_mnemonic(&a, "pw").unwrap().to_phrase(), PHRASE);
    assert_eq!(storage.load_mnemonic(&b, "pw").unwrap().to_phrase(), PHRASE);
}

#[test]
fn load_or_create_loads_what_opens() {
    let storage = MnemonicStorage::new(String::from("x"));
    let blob = storage.save_mnemonic(PHRASE, "pw").unwrap();
    match storage.load_or_create_by_password(Some(&blob), "pw").unwrap() {
        VaultOutcome::Loaded(m) => assert_eq!(m.to_phrase(), PHRASE),
        VaultOutcome::Created { .. } => panic!("created over a record that opens"),
    }
}

#[test]
fn load_or_create_creates_where_nothing_is_stored() {
    let storage = MnemonicStorage::new(String::from("x"));
    match storage.load_or_create_by_password(None, "pw").unwrap() {
        VaultOutcome::Created { mnemonic, blob, replaced } => {
            assert!(!replaced);
            assert_eq!(mnemonic.to_phrase().split(' ').count(), 12);
            assert_eq!(
                storage.load_mnemonic(&blob, "pw").unwrap().to_phrase(),
                mnemonic.to_phrase()
            );
        }
        VaultOutcome::Loaded(_) => panic!("loaded from nothing"),
    }
}

#[test]
fn load_or_create_flags_a_record_that_does_not_authenticate() {
    let storage = MnemonicStorage::new(String::from("x"));
    let blob = storage.save_mnemonic(PHRASE, "pw").unwrap();
    match storage.load_or_create_by_password(Some(&blob), "mistyped").unwrap() {
        VaultOutcome::Created { mnemonic, replaced, .. } => {
            assert!(replaced);
            assert_ne!(mnemonic.to_phrase(), PHRASE);
        }
        VaultOutcome::Loaded(_) => panic!("loaded under another passphrase"),
    }
}

#[test]
fn load_or_create_new_never_supersedes_a_stored_record() {
    let storage = MnemonicStorage::new(String::from("x"));
    let blob = storage.save_mnemonic(PHRASE, "pw").unwrap();
    assert!(matches!(
        storage.load_or_create_new(Some(&blob), "mistyped"),
        Err(VaultError::AuthenticationFailed)
    ));
    match storage.load_or_create_new(Some(&blob), "pw").unwrap() {
        VaultOutcome::Loaded(m) => assert_eq!(m.to_phrase(), PHRASE),
        VaultOutcome::Created { .. } => panic!("created over a stored record"),
    }
    match storage.load_or_create_new(None, "pw").unwrap() {
        VaultOutcome::Created { mnemonic, blob, replaced } => {
            assert!(!replaced);
            assert_eq!(mnemonic.to_phrase().split(' ').count(), 12);
            assert_eq!(blob.salt.len(), 32);
            assert_eq!(open_mnemonic(&blob, "pw").unwrap().to_phrase(), mnemonic.to_phrase());
        }
        VaultOutcome::Loaded(_) => panic!("loaded from nothing"),
    }
}

#[test]
fn phrases_of_entropy_are_twelve_short_words() {
    for entropy in [[0u8; 16], [0xffu8; 16], [0x5au8; 16]] {
        let m = Mnemonic::from_entropy(&entropy);
        let phrase = m.to_phrase();
        assert!(phrase.is_ascii());
        assert!(47 <= phrase.len() && phrase.len() <= 107);
        assert_eq!(phrase.split(' ').count(), 12);
        assert!(Mnemonic::from_phrase(phrase).is_some());
    }
}

#[test]
fn load_or_create_reports_a_malformed_record() {
    let storage = MnemonicStorage::new(String::from("x"));
    let bad = EncryptedMnemonic { encrypted_data: vec![0u8; 40], nonce: vec![], salt: vec![] };
    assert!(matches!(
        storage.load_or_create_by_password(Some(&bad), "pw"),
        Err(VaultError::MalformedBlob)
    ));
}

#[test]
fn zero_padded_passphrase_derives_the_same_key() {
    // HMAC pads a short key with zero bytes, so these two passphrases are one
    // key: the cipher cannot tell them apart.
    assert_eq!(derive_key("a", b"salt").unwrap(), derive_key("a\0", b"salt").unwrap());
    let blob = seal_mnemonic(PHRASE, "a", &[7u8; 32], &[9u8; 12]).unwrap();
    assert_eq!(open_mnemonic(&blob, "a\0").unwrap().to_phrase(), PHRASE);
}

#[test]
fn derive_address_matches_a_published_wallet() {
    let m = Mnemonic::from_phrase(
        "fire evolve buddy tenant talent favorite ankle stem regret myth dream fresh",
    )
    .unwrap();
    assert_eq!(
        m.derive_address("m/44'/60'/0'/0/", 2).unwrap(),
        "0x1D86AD5eBb2380dAdEAF52f61f4F428C485460E9"
    );
    assert_eq!(m.derive_address("m/44'/60'/0'/0/", 2), m.derive_address("m/44'/60'/0'/0/", 2));
    assert_ne!(m.derive_address("m/44'/60'/0'/0/", 2), m.derive_address("m/44'/60'/0'/0/", 3));
    assert!(m.derive_address("not a path", 0).is_none());
    assert!(m.derive_address("m/2147483648'/", 0).is_none());
    assert!(m.derive_address("m/0/", u32::MAX).is_some());
}

#[test]
fn vault_errors_have_messages() {
    assert_eq!(VaultError::MalformedBlob.message(), "sealed record is malformed");
    assert!(!VaultError::AuthenticationFailed.message().is_empty());
}
