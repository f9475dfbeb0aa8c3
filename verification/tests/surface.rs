use ethserv::api::{
    get_address_deposits, get_balance_controller, get_new_address, test_pub_deposits,
    test_pub_reply, STATUS_INTERNAL_SERVER_ERROR, STATUS_OK,
};
use ethserv::config::{
    derivation_path, environment, port, publisher_bind_address, rpc_url, usdt_contract_address,
    wallet_pw, ConfigError, Environment, Settings,
};
use ethserv::encoding::{bytes_eq, i64_to_decimal, text_eq, u64_to_decimal};
use ethserv::pubsub::decode::decode_event;
use ethserv::pubsub::{ChainEvent, Publisher};
use ethserv::wallet::paths::{persistence_directory, WalletPaths};
use ethserv::wallet::usdt::contract::TokenAmount;

fn settings(name: &str) -> Settings {
    Settings::new(
        name,
        8080,
        "wss://node.example",
        "tcp://*:5556",
        "0xdAC17F958D2ee523a2206206994597C13D831ec7",
        "secret",
        "m/44'/60'/0'/0/",
    )
    .unwrap()
}

#[test]
fn environment_labels() {
    assert_eq!(Environment::Test.as_str(), "test");
    assert_eq!(Environment::Production.as_str(), "prod");
    assert_eq!(Environment::Test.env_file_name(), ".env.test");
    assert_eq!(Environment::Production.env_file_name(), ".env.prod");
}

#[test]
fn environment_from_the_variable() {
    assert_eq!(Environment::from_env(None), Environment::Test);
    assert_eq!(Environment::from_env(Some("prod")), Environment::Production);
    assert_eq!(Environment::from_env(Some("test")), Environment::Test);
    assert_eq!(Environment::from_env(Some("PROD")), Environment::Test);
    assert_eq!(Environment::from_env(Some("")), Environment::Test);
}

#[test]
fn settings_give_back_their_values() {
    let s = settings("prod");
    assert_eq!(environment(&s), Environment::Production);
    assert_eq!(s.environment(), Environment::Production);
    assert_eq!(environment(&settings("staging")), Environment::Test);
    assert_eq!(rpc_url(&s), "wss://node.example");
    assert_eq!(wallet_pw(&s), "secret");
    assert_eq!(port(&s), 8080);
    assert_eq!(publisher_bind_address(&s), "tcp://*:5556");
    assert_eq!(derivation_path(&s), "m/44'/60'/0'/0/");
    assert_eq!(
        usdt_contract_address(&s),
        [
            0xda, 0xc1, 0x7f, 0x95, 0x8d, 0x2e, 0xe5, 0x23, 0xa2, 0x20, 0x62, 0x06, 0x99, 0x45,
            0x97, 0xc1, 0x3d, 0x83, 0x1e, 0xc7
        ]
    );
}

#[test]
fn settings_reject_a_contract_that_is_no_address() {
    let refused = Settings::new("test", 1, "u", "b", "0x1234", "p", "d");
    match refused {
        Err(e) => {
            assert_eq!(e, ConfigError::InvalidContractAddress);
            assert!(!e.message().is_empty());
        }
        Ok(_) => panic!("accepted"),
    }
}

#[test]
fn wallet_paths_are_named_after_the_digest_of_the_passphrase() {
    let paths = WalletPaths::from_password("password");
    assert_eq!(paths.mnemonic_path, "pers/mnemonic_5e884898da28047151d0e56f8dc62927.dat");
    assert_eq!(paths.wallet_path, "pers/wallet_5e884898da28047151d0e56f8dc62927.sqlite");
    let empty = WalletPaths::from_password("");
    assert_eq!(empty.mnemonic_path, "pers/mnemonic_e3b0c44298fc1c149afbf4c8996fb924.dat");
    assert_eq!(persistence_directory(), "pers");
}

#[test]
fn decimal_text_of_numbers() {
    assert_eq!(u64_to_decimal(0), "0");
    assert_eq!(u64_to_decimal(7), "7");
    assert_eq!(u64_to_decimal(10), "10");
    assert_eq!(u64_to_decimal(21709710), "21709710");
    assert_eq!(u64_to_decimal(u64::MAX), "18446744073709551615");
    assert_eq!(i64_to_decimal(0), "0");
    assert_eq!(i64_to_decimal(-1), "-1");
    assert_eq!(i64_to_decimal(i64::MAX), "9223372036854775807");
    assert_eq!(i64_to_decimal(i64::MIN), "-9223372036854775808");
}

#[test]
fn equality_of_texts_and_bytes() {
    assert!(text_eq("", ""));
    assert!(text_eq("abc", "abc"));
    assert!(!text_eq("abc", "abd"));
    assert!(!text_eq("abc", "ab"));
    assert!(bytes_eq(&[1, 2], &[1, 2]));
    assert!(!bytes_eq(&[1, 2], &[2, 1]));
}

#[test]
fn balance_answers() {
    let mut amount = [0u8; 32];
    amount[30] = 1;
    let (status, body) = get_balance_controller(Ok(TokenAmount { be_bytes: amount }));
    assert_eq!(status, STATUS_OK);
    assert_eq!(status, 200);
    assert!(body.success);
    assert_eq!(body.balance, "256");
    assert_eq!(body.error, None);

    let (status, body) = get_balance_controller(Err(String::from("node unreachable")));
    assert_eq!(status, STATUS_INTERNAL_SERVER_ERROR);
    assert_eq!(status, 500);
    assert!(!body.success);
    assert_eq!(body.balance, "0");
    assert_eq!(body.error, Some(String::from("node unreachable")));
}

#[test]
fn new_address_answers() {
    let (status, body) = get_new_address(Some(String::from("0xabc")));
    assert_eq!(status, 200);
    assert!(body.success);
    assert_eq!(body.address, "0xabc");
    assert_eq!(body.error, None);

    let (status, body) = get_new_address(None);
    assert_eq!(status, 500);
    assert!(!body.success);
    assert_eq!(body.address, "");
    assert_eq!(body.error, Some(String::from("Error getting new address")));
}

#[test]
fn deposits_answer() {
    let (status, body) = get_address_deposits(Vec::new());
    assert_eq!(status, 200);
    assert!(body.deposits.is_empty());
}

#[test]
fn test_deposits_are_framed_in_their_order() {
    let publisher = Publisher::new("tcp://*:5556");
    let actions = vec![
        (String::from("a"), String::from("1"), 1u64, String::from("h1"), 0u64),
        (String::from("b"), String::from("2"), 2u64, String::from("h2"), 1u64),
    ];
    let messages = test_pub_deposits(&publisher, actions.clone());
    assert_eq!(messages.len(), 2);
    for (message, action) in messages.iter().zip(actions.iter()) {
        assert_eq!(message[0], b"tx".to_vec());
        match decode_event(&message[1]).unwrap() {
            ChainEvent::NewDeposit { deposit } => assert_eq!(&deposit, action),
            _ => panic!("another kind of event"),
        }
    }
    assert!(test_pub_deposits(&publisher, Vec::new()).is_empty());
}

#[test]
fn test_deposit_replies() {
    let (status, body) = test_pub_reply(None);
    assert_eq!(status, 200);
    assert!(body.success);
    assert_eq!(body.error, None);
    let (status, body) = test_pub_reply(Some(String::from("socket closed")));
    assert_eq!(status, 500);
    assert!(!body.success);
    assert_eq!(body.error, Some(String::from("Error publishing chain event: socket closed")));
}
