use ethserv::wallet::database::WalletDatabase;
use ethserv::wallet::usdt::contract::{
    address_to_topic, balance_call_data, get_balance, get_receive_logs, hash_to_text,
    parse_transfer_event, receive_filter, subscribe_to_transfer_logs, transfer_event_topic,
    BlockBound, ChainError, RawLog, TokenAmount,
};

const USDT: [u8; 20] = [
    0xda, 0xc1, 0x7f, 0x95, 0x8d, 0x2e, 0xe5, 0x23, 0xa2, 0x20, 0x62, 0x06, 0x99, 0x45, 0x97, 0xc1,
    0x3d, 0x83, 0x1e, 0xc7,
];
const USDT_TEXT: &str = "0xdAC17F958D2ee523a2206206994597C13D831ec7";
const RECIPIENT: [u8; 20] = [
    0xcb, 0xc9, 0x74, 0x5e, 0xc4, 0x55, 0x35, 0x54, 0x93, 0x8c, 0x24, 0xb4, 0x94, 0xb4, 0xda, 0x91,
    0x07, 0x38, 0x76, 0x95,
];
const RECIPIENT_TEXT: &str = "0xCBc9745EC4553554938c24B494b4DA9107387695";
const TRANSFER_TOPIC: [u8; 32] = [
    0xdd, 0xf2, 0x52, 0xad, 0x1b, 0xe2, 0xc8, 0x9b, 0x69, 0xc2, 0xb0, 0x68, 0xfc, 0x37, 0x8d, 0xaa,
    0x95, 0x2b, 0xa7, 0xf1, 0x63, 0xc4, 0xa1, 0x16, 0x28, 0xf5, 0x5a, 0x4d, 0xf5, 0x23, 0xb3, 0xef,
];

fn word_of(address: &[u8; 20]) -> [u8; 32] {
    let mut w = [0u8; 32];
    w[12..].copy_from_slice(address);
    w
}

fn amount_word(n: u64) -> Vec<u8> {
    let mut w = vec![0u8; 32];
    w[24..].copy_from_slice(&n.to_be_bytes());
    w
}

fn transfer_log(from: &[u8; 20], to: &[u8; 20], amount: u64, block: u64, index: u64) -> RawLog {
    RawLog {
        address: USDT,
        topics: vec![TRANSFER_TOPIC, word_of(from), word_of(to)],
        data: amount_word(amount),
        block_number: Some(block),
        transaction_hash: Some([0xab; 32]),
        log_index: Some(index),
    }
}

#[test]
fn transfer_topic_is_the_hash_of_the_signature() {
    assert_eq!(transfer_event_topic(), TRANSFER_TOPIC);
}

#[test]
fn address_to_topic_pads_with_twelve_zero_bytes() {
    let topic = address_to_topic(&RECIPIENT);
    assert_eq!(&topic[..12], &[0u8; 12]);
    assert_eq!(&topic[12..], &RECIPIENT);
}

#[test]
fn hash_to_text_writes_prefixed_lowercase_hex() {
    let mut h = [0u8; 32];
    h[0] = 0xAB;
    h[31] = 0x0f;
    assert_eq!(
        hash_to_text(&h),
        "0xab0000000000000000000000000000000000000000000000000000000000000f"
    );
}

#[test]
fn parse_transfer_event_decodes_a_mined_transfer() {
    let log = transfer_log(&USDT, &RECIPIENT, 1_500_000, 21709710, 7);
    let t = parse_transfer_event(&log).unwrap();
    assert_eq!(t.from, USDT_TEXT);
    assert_eq!(t.to, RECIPIENT_TEXT);
    assert_eq!(t.amount.to_decimal(), "1500000");
    assert_eq!(t.block_number, 21709710);
    assert_eq!(
        t.hash,
        "0xabababababababababababababababababababababababababababababababab"
    );
    assert_eq!(t.index, 7);
}

#[test]
fn parse_transfer_event_ignores_padding_and_trailing_data() {
    let mut log = transfer_log(&USDT, &RECIPIENT, 5, 1, 0);
    log.topics[2][0] = 0xff;
    log.data.extend_from_slice(&[9u8; 32]);
    log.topics.push([1u8; 32]);
    let t = parse_transfer_event(&log).unwrap();
    assert_eq!(t.to, RECIPIENT_TEXT);
    assert_eq!(t.amount.to_decimal(), "5");
}

#[test]
fn parse_transfer_event_skips_what_does_not_decode() {
    let good = transfer_log(&USDT, &RECIPIENT, 5, 1, 0);
    assert!(parse_transfer_event(&good).is_some());

    let mut other_event = transfer_log(&USDT, &RECIPIENT, 5, 1, 0);
    other_event.topics[0][0] ^= 1;
    assert!(parse_transfer_event(&other_event).is_none());

    let mut two_topics = transfer_log(&USDT, &RECIPIENT, 5, 1, 0);
    two_topics.topics.pop();
    assert!(parse_transfer_event(&two_topics).is_none());

    let mut short_data = transfer_log(&USDT, &RECIPIENT, 5, 1, 0);
    short_data.data.truncate(31);
    assert!(parse_transfer_event(&short_data).is_none());

    let mut pending = transfer_log(&USDT, &RECIPIENT, 5, 1, 0);
    pending.block_number = None;
    assert!(parse_transfer_event(&pending).is_none());

    let mut no_hash = transfer_log(&USDT, &RECIPIENT, 5, 1, 0);
    no_hash.transaction_hash = None;
    assert!(parse_transfer_event(&no_hash).is_none());

    let mut no_index = transfer_log(&USDT, &RECIPIENT, 5, 1, 0);
    no_index.log_index = None;
    assert!(parse_transfer_event(&no_index).is_none());
}

#[test]
fn token_amount_prints_in_decimal() {
    assert_eq!(TokenAmount { be_bytes: [0u8; 32] }.to_decimal(), "0");
    let mut one_then_zeros = [0u8; 32];
    one_then_zeros[30] = 1;
    assert_eq!(TokenAmount { be_bytes: one_then_zeros }.to_decimal(), "256");
    assert_eq!(
        TokenAmount { be_bytes: [0xff; 32] }.to_decimal(),
        "115792089237316195423570985008687907853269984665640564039457584007913129639935"
    );
}

#[test]
fn get_logs() {
    let filter = receive_filter(&USDT, Some(21709710), None, RECIPIENT_TEXT).unwrap();
    assert_eq!(filter.address, USDT);
    assert_eq!(filter.topic0, TRANSFER_TOPIC);
    assert_eq!(filter.topic2, Some(word_of(&RECIPIENT)));
    assert_eq!(filter.from_block, Some(BlockBound::Number(21709710)));
    assert_eq!(filter.to_block, Some(BlockBound::Latest));
    let answer = vec![
        transfer_log(&USDT, &RECIPIENT, 12, 21709710, 0),
        transfer_log(&USDT, &RECIPIENT, 32, 21709999, 3),
    ];
    let transfers = get_receive_logs(&filter, &answer);
    assert_eq!(transfers.len(), 2);
    assert_eq!(transfers[0].amount.to_decimal(), "12");
    assert_eq!(transfers[1].amount.to_decimal(), "32");
    assert_eq!(transfers[1].to, RECIPIENT_TEXT);
}

#[test]
fn subscribe_logs() {
    let (filter, watch) = subscribe_to_transfer_logs(&USDT);
    assert_eq!(filter.address, USDT);
    assert_eq!(filter.topic0, TRANSFER_TOPIC);
    assert_eq!(filter.topic2, None);
    assert_eq!(filter.from_block, None);
    assert_eq!(filter.to_block, None);
    assert!(!watch.stopped());
}

#[test]
fn receive_filter_defaults_to_earliest_and_latest() {
    let filter = receive_filter(&USDT, None, None, RECIPIENT_TEXT).unwrap();
    assert_eq!(filter.from_block, Some(BlockBound::Earliest));
    assert_eq!(filter.to_block, Some(BlockBound::Latest));
}

#[test]
fn receive_filter_accepts_any_case_and_no_prefix() {
    let lower = receive_filter(&USDT, None, None, "cbc9745ec4553554938c24b494b4da9107387695");
    assert_eq!(lower.unwrap().topic2, Some(word_of(&RECIPIENT)));
    let upper = receive_filter(&USDT, None, None, "0xCBC9745EC4553554938C24B494B4DA9107387695");
    assert_eq!(upper.unwrap().topic2, Some(word_of(&RECIPIENT)));
}

#[test]
fn receive_filter_rejects_what_is_no_address() {
    for bad in ["", "0x", "0x1234", "zzc9745EC4553554938c24B494b4DA9107387695", "0XCBc9745EC4553554938c24B494b4DA9107387695"] {
        match receive_filter(&USDT, None, None, bad) {
            Err(e) => assert_eq!(e, ChainError::InvalidAddress),
            Ok(_) => panic!("accepted {:?}", bad),
        }
    }
    assert_eq!(ChainError::InvalidAddress.message(), "text does not spell an address");
}

#[test]
fn historical_transfers_keep_only_what_the_filter_asks_for() {
    let other: [u8; 20] = [0x77; 20];
    let filter = receive_filter(&USDT, Some(100), Some(200), RECIPIENT_TEXT).unwrap();
    let mut foreign_contract = transfer_log(&USDT, &RECIPIENT, 6, 150, 6);
    foreign_contract.address = [0x01; 20];
    let mut pending = transfer_log(&USDT, &RECIPIENT, 7, 150, 7);
    pending.block_number = None;
    let answer = vec![
        transfer_log(&USDT, &RECIPIENT, 1, 99, 1),
        transfer_log(&USDT, &RECIPIENT, 2, 100, 2),
        transfer_log(&USDT, &other, 3, 150, 3),
        transfer_log(&USDT, &RECIPIENT, 4, 200, 4),
        transfer_log(&USDT, &RECIPIENT, 5, 201, 5),
        foreign_contract,
        pending,
    ];
    for log in &answer {
        let expected = log.address == USDT
            && log.topics[2] == word_of(&RECIPIENT)
            && matches!(log.block_number, Some(b) if (100..=200).contains(&b));
        assert_eq!(filter.matches(log), expected);
    }
    let transfers = get_receive_logs(&filter, &answer);
    assert_eq!(transfers.len(), 2);
    assert_eq!(transfers[0].block_number, 100);
    assert_eq!(transfers[0].amount.to_decimal(), "2");
    assert_eq!(transfers[1].block_number, 200);
    assert_eq!(transfers[1].amount.to_decimal(), "4");
    for t in &transfers {
        assert!(100 <= t.block_number && t.block_number <= 200);
        assert_eq!(t.to, RECIPIENT_TEXT);
    }
}

#[test]
fn live_watch_forwards_transfers_to_known_addresses_only() {
    let mut db = WalletDatabase::new();
    db.store_address(RECIPIENT_TEXT, "m/44'/60'/0'/0/", 1, 0).unwrap();
    let (_, mut watch) = subscribe_to_transfer_logs(&USDT);

    let known = transfer_log(&USDT, &RECIPIENT, 42, 10, 0);
    let step = watch.on_log(&known, &db, false);
    assert_eq!(step.new_block, Some(10));
    assert!(!step.stop);
    let t = step.transfer.unwrap();
    assert_eq!(t.to, RECIPIENT_TEXT);
    assert_eq!(t.amount.to_decimal(), "42");

    let unknown = transfer_log(&USDT, &[0x77; 20], 42, 10, 1);
    let step = watch.on_log(&unknown, &db, false);
    assert_eq!(step.new_block, None);
    assert!(step.transfer.is_none());

    let mut undecodable = transfer_log(&USDT, &RECIPIENT, 42, 11, 2);
    undecodable.data.clear();
    let step = watch.on_log(&undecodable, &db, false);
    assert_eq!(step.new_block, Some(11));
    assert!(step.transfer.is_none());
}

#[test]
fn live_watch_handles_the_log_at_hand_and_then_stops() {
    let mut db = WalletDatabase::new();
    db.store_address(RECIPIENT_TEXT, "m/44'/60'/0'/0/", 1, 0).unwrap();
    let (_, mut watch) = subscribe_to_transfer_logs(&USDT);
    let log = transfer_log(&USDT, &RECIPIENT, 42, 10, 0);
    let step = watch.on_log(&log, &db, true);
    assert!(step.stop);
    assert!(step.transfer.is_some());
    assert!(watch.stopped());
    let step = watch.on_log(&log, &db, false);
    assert!(step.stop);
    assert!(step.transfer.is_none());
    assert_eq!(step.new_block, None);
    assert!(watch.stopped());
}

#[test]
fn balance_call_data_is_selector_and_padded_owner() {
    let data = balance_call_data(RECIPIENT_TEXT).unwrap();
    assert_eq!(data.len(), 36);
    assert_eq!(&data[..4], &[0x70, 0xa0, 0x82, 0x31]);
    assert_eq!(&data[4..16], &[0u8; 12]);
    assert_eq!(&data[16..], &RECIPIENT);
    assert!(matches!(balance_call_data("nobody"), Err(ChainError::InvalidAddress)));
}

#[test]
fn get_balance_reads_the_first_word() {
    assert!(get_balance(&vec![0u8; 31]).is_none());
    assert_eq!(get_balance(&amount_word(1234)).unwrap().to_decimal(), "1234");
    let mut long = amount_word(9);
    long.extend_from_slice(&[1u8; 8]);
    assert_eq!(get_balance(&long).unwrap().to_decimal(), "9");
}

#[test]
fn address_text_follows_the_checksum_rule() {
    let addresses: [[u8; 20]; 4] = [USDT, RECIPIENT, [0xab; 20], [0x00; 20]];
    for address in addresses {
        let digits = hex::encode(address);
        let digest = alloy::primitives::keccak256(digits.as_bytes());
        let mut expected = String::from("0x");
        for (i, c) in digits.chars().enumerate() {
            let half = if i % 2 == 0 { digest[i / 2] / 16 } else { digest[i / 2] % 16 };
            if half >= 8 {
                expected.push(c.to_ascii_uppercase());
            } else {
                expected.push(c);
            }
        }
        let log = transfer_log(&USDT, &address, 1, 1, 0);
        assert_eq!(parse_transfer_event(&log).unwrap().to, expected);
    }
}
