use ethserv::pubsub::decode::decode_event;
use ethserv::pubsub::{ChainEvent, Publisher};
use ethserv::wallet::database::WalletDatabase;
use ethserv::wallet::ethserv::{deposit_event, process_log, EthServWallet, WalletError};
use ethserv::wallet::mnemonic::Mnemonic;
use ethserv::wallet::usdt::contract::{subscribe_to_transfer_logs, RawLog, TokenAmount, TransferLog};

const PHRASE: &str = "fire evolve buddy tenant talent favorite ankle stem regret myth dream fresh";
const PATH: &str = "m/44'/60'/0'/0/";
const USDT: [u8; 20] = [
    0xda, 0xc1, 0x7f, 0x95, 0x8d, 0x2e, 0xe5, 0x23, 0xa2, 0x20, 0x62, 0x06, 0x99, 0x45, 0x97, 0xc1,
    0x3d, 0x83, 0x1e, 0xc7,
];
const TRANSFER_TOPIC: [u8; 32] = [
    0xdd, 0xf2, 0x52, 0xad, 0x1b, 0xe2, 0xc8, 0x9b, 0x69, 0xc2, 0xb0, 0x68, 0xfc, 0x37, 0x8d, 0xaa,
    0x95, 0x2b, 0xa7, 0xf1, 0x63, 0xc4, 0xa1, 0x16, 0x28, 0xf5, 0x5a, 0x4d, 0xf5, 0x23, 0xb3, 0xef,
];

fn wallet() -> EthServWallet {
    EthServWallet::new(Mnemonic::from_phrase(PHRASE).unwrap(), PATH, USDT)
}

fn word_of(address: &[u8; 20]) -> [u8; 32] {
    let mut w = [0u8; 32];
    w[12..].copy_from_slice(address);
    w
}

#[test]
fn first_revealed_address_has_index_one() {
    let w = wallet();
    let mut db = WalletDatabase::new();
    let a = w.reveal_next_address(&mut db, 5).unwrap();
    let expected = Mnemonic::from_phrase(PHRASE).unwrap().derive_address(PATH, 1).unwrap();
    assert_eq!(a, expected);
    assert_eq!(db.get_max_index_for_path(PATH), Some(1));
    assert_eq!(db.records()[0].created_at, 5);
}

#[test]
fn revealed_indices_rise_by_one_without_repeats() {
    let w = wallet();
    let mut db = WalletDatabase::new();
    let mut seen: Vec<String> = Vec::new();
    for k in 1..=4u32 {
        let a = w.reveal_next_address(&mut db, k as u64).unwrap();
        assert!(!seen.contains(&a));
        seen.push(a);
        assert_eq!(db.get_max_index_for_path(PATH), Some(k));
        assert_eq!(db.len(), k as usize);
    }
    assert_eq!(seen[1], "0x1D86AD5eBb2380dAdEAF52f61f4F428C485460E9");
    let listed = db.get_all_addresses_by_path(PATH);
    for (k, (address, index)) in listed.iter().enumerate() {
        assert_eq!(*index, k as u32 + 1);
        assert_eq!(address, &seen[k]);
    }
}

#[test]
fn reveal_continues_behind_the_greatest_index() {
    let w = wallet();
    let mut db = WalletDatabase::new();
    db.store_address("0x1111111111111111111111111111111111111111", PATH, 9, 0).unwrap();
    let a = w.reveal_next_address(&mut db, 1).unwrap();
    assert_eq!(a, Mnemonic::from_phrase(PHRASE).unwrap().derive_address(PATH, 10).unwrap());
    assert_eq!(db.get_max_index_for_path(PATH), Some(10));
}

#[test]
fn reveal_fails_when_indices_are_exhausted() {
    let w = wallet();
    let mut db = WalletDatabase::new();
    db.store_address("0x1111111111111111111111111111111111111111", PATH, u32::MAX, 0).unwrap();
    assert_eq!(w.reveal_next_address(&mut db, 1), Err(WalletError::IndexExhausted));
    assert_eq!(db.len(), 1);
}

#[test]
fn reveal_fails_on_a_path_that_is_not_accepted() {
    let w = EthServWallet::new(Mnemonic::from_phrase(PHRASE).unwrap(), "nonsense/", USDT);
    let mut db = WalletDatabase::new();
    assert_eq!(w.reveal_next_address(&mut db, 1), Err(WalletError::InvalidPath));
    assert_eq!(db.len(), 0);
}

#[test]
fn reveal_fails_on_a_path_that_key_derivation_cannot_follow() {
    let deep = format!("m{}/", "/0".repeat(255));
    for path in ["m/2147483648'/", "m/44'/4294967295h/", "m/4294967296/", deep.as_str()] {
        let w = EthServWallet::new(Mnemonic::from_phrase(PHRASE).unwrap(), path, USDT);
        let mut db = WalletDatabase::new();
        assert_eq!(w.reveal_next_address(&mut db, 1), Err(WalletError::InvalidPath));
        assert_eq!(db.len(), 0);
    }
}

#[test]
fn reveal_follows_the_greatest_numbers_and_the_deepest_path() {
    let deep = format!("m{}/", "/0".repeat(254));
    for path in ["m/2147483647'/", "m/4294967295/", "m/44h/60h/", deep.as_str()] {
        let w = EthServWallet::new(Mnemonic::from_phrase(PHRASE).unwrap(), path, USDT);
        let mut db = WalletDatabase::new();
        let a = w.reveal_next_address(&mut db, 1).unwrap();
        assert_eq!(a.len(), 42);
    }
}

#[test]
fn a_task_that_ended_by_itself_is_no_longer_active() {
    let mut w = wallet();
    let first = w.start_sync().unwrap();
    assert!(!w.sync_ended(first.id + 1));
    assert!(w.is_syncing());
    assert!(w.sync_ended(first.id));
    assert!(!w.is_syncing());
    assert!(!w.sync_ended(first.id));
    let second = w.start_sync().unwrap();
    assert_ne!(second.id, first.id);
    assert!(!w.sync_ended(first.id));
    assert!(w.is_syncing());
}

#[test]
fn reveal_fails_when_the_address_is_already_recorded() {
    let w = wallet();
    let mut db = WalletDatabase::new();
    let first = Mnemonic::from_phrase(PHRASE).unwrap().derive_address(PATH, 1).unwrap();
    db.store_address(&first, "m/0/", 1, 0).unwrap();
    assert_eq!(w.reveal_next_address(&mut db, 1), Err(WalletError::AddressExists));
    assert_eq!(db.len(), 1);
    assert_eq!(WalletError::AddressExists.message(), "Address already exists");
}

#[test]
fn starting_twice_leaves_one_task() {
    let mut w = wallet();
    assert!(!w.is_syncing());
    let task = w.start_sync().unwrap();
    assert!(w.is_syncing());
    assert_eq!(task.id, 1);
    assert_eq!(task.filter.address, USDT);
    assert_eq!(task.filter.topic0, TRANSFER_TOPIC);
    assert!(task.filter.topic2.is_none());
    assert!(!task.watch.stopped());
    assert!(w.start_sync().is_none());
    assert!(w.is_syncing());
    assert_eq!(w.stop_sync(), Some(1));
}

#[test]
fn stop_then_start_gives_a_fresh_task() {
    let mut w = wallet();
    let first = w.start_sync().unwrap();
    assert_eq!(w.stop_sync(), Some(first.id));
    assert!(!w.is_syncing());
    assert_eq!(w.stop_sync(), None);
    let second = w.start_sync().unwrap();
    assert_ne!(second.id, first.id);
    assert!(w.is_syncing());
    assert_eq!(w.stop_sync(), Some(second.id));
}

#[test]
fn deposit_event_carries_the_transfer() {
    let mut amount = [0u8; 32];
    amount[31] = 0x2a;
    let t = TransferLog {
        from: String::from("0xfrom"),
        to: String::from("0xto"),
        amount: TokenAmount { be_bytes: amount },
        block_number: 12,
        hash: String::from("0xhash"),
        index: 3,
    };
    match deposit_event(t) {
        ChainEvent::NewDeposit { deposit } => {
            assert_eq!(
                deposit,
                (String::from("0xto"), String::from("42"), 12, String::from("0xhash"), 3)
            );
        }
        _ => panic!("another kind of event"),
    }
}

#[test]
fn a_log_to_a_known_address_gives_one_deposit_message() {
    let w = wallet();
    let mut db = WalletDatabase::new();
    let ours = w.reveal_next_address(&mut db, 1).unwrap();
    let mut ours_bytes = [0u8; 20];
    for i in 0..20 {
        ours_bytes[i] = u8::from_str_radix(&ours[2 + 2 * i..4 + 2 * i], 16).unwrap();
    }
    let publisher = Publisher::new("tcp://*:5556");
    let (_, mut watch) = subscribe_to_transfer_logs(&USDT);
    let mut data = vec![0u8; 32];
    data[31] = 99;
    let log = RawLog {
        address: USDT,
        topics: vec![TRANSFER_TOPIC, word_of(&[0x55; 20]), word_of(&ours_bytes)],
        data,
        block_number: Some(777),
        transaction_hash: Some([0x0c; 32]),
        log_index: Some(4),
    };
    let step = process_log(&mut watch, &mut db, &publisher, &log, false, 1234);
    assert_eq!(step.new_block, Some(777));
    assert!(!step.stop);
    assert_eq!(step.paid, Some(ours.clone()));
    let message = step.message.unwrap();
    assert_eq!(message.len(), 2);
    assert_eq!(message[0], b"tx".to_vec());
    match decode_event(&message[1]).unwrap() {
        ChainEvent::NewDeposit { deposit } => {
            assert_eq!(deposit.0, ours);
            assert_eq!(deposit.1, "99");
            assert_eq!(deposit.2, 777);
            assert_eq!(
                deposit.3,
                "0x0c0c0c0c0c0c0c0c0c0c0c0c0c0c0c0c0c0c0c0c0c0c0c0c0c0c0c0c0c0c0c0c"
            );
            assert_eq!(deposit.4, 4);
        }
        _ => panic!("another kind of event"),
    }
    assert_eq!(db.records()[0].last_used, Some(1234));

    let stranger = RawLog {
        address: USDT,
        topics: vec![TRANSFER_TOPIC, word_of(&[0x55; 20]), word_of(&[0x66; 20])],
        data: vec![0u8; 32],
        block_number: Some(778),
        transaction_hash: Some([0x0d; 32]),
        log_index: Some(0),
    };
    let step = process_log(&mut watch, &mut db, &publisher, &stranger, false, 2000);
    assert!(step.message.is_none());
    assert!(step.paid.is_none());
    assert_eq!(db.records()[0].last_used, Some(1234));
}

#[test]
fn publish_chainevent_frames_like_the_publisher() {
    let w = wallet();
    let publisher = Publisher::new("tcp://*:5556");
    let a = w.publish_chainevent(&publisher, ChainEvent::NewAddress { address: String::from("x") });
    let b = publisher.publish(ChainEvent::NewAddress { address: String::from("x") });
    assert_eq!(a, b);
    assert_eq!(w.derivation_path(), PATH);
}
