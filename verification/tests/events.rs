use ethserv::pubsub::decode::decode_event;
use ethserv::pubsub::wire::encode_event;
use ethserv::pubsub::{create_publisher, ChainEvent, Publisher};

fn deposit(a: &str, amount: &str, block: u64, hash: &str, index: u64) -> ChainEvent {
    ChainEvent::NewDeposit {
        deposit: (String::from(a), String::from(amount), block, String::from(hash), index),
    }
}

fn same(a: &ChainEvent, b: &ChainEvent) -> bool {
    match (a, b) {
        (
            ChainEvent::NewTransaction { txid: t1, amount: a1, confirmations: c1 },
            ChainEvent::NewTransaction { txid: t2, amount: a2, confirmations: c2 },
        ) => t1 == t2 && a1 == a2 && c1 == c2,
        (ChainEvent::NewAddress { address: x }, ChainEvent::NewAddress { address: y }) => x == y,
        (ChainEvent::NewDeposit { deposit: x }, ChainEvent::NewDeposit { deposit: y }) => x == y,
        _ => false,
    }
}

#[test]
fn deposit_is_written_as_compact_json() {
    let e = deposit("0xabc", "1500000", 21709710, "0xdef", 7);
    assert_eq!(
        String::from_utf8(encode_event(&e)).unwrap(),
        "{\"dpst\":{\"deposit\":[\"0xabc\",\"1500000\",21709710,\"0xdef\",7]}}"
    );
}

#[test]
fn transaction_is_written_as_compact_json() {
    let e = ChainEvent::NewTransaction { txid: String::from("t1"), amount: -25, confirmations: 3 };
    assert_eq!(
        String::from_utf8(encode_event(&e)).unwrap(),
        "{\"newtx\":{\"txid\":\"t1\",\"amount\":-25,\"confirmations\":3}}"
    );
}

#[test]
fn address_is_written_as_compact_json() {
    let e = ChainEvent::NewAddress { address: String::from("0x1") };
    assert_eq!(
        String::from_utf8(encode_event(&e)).unwrap(),
        "{\"NewAddress\":{\"address\":\"0x1\"}}"
    );
}

#[test]
fn text_is_escaped_as_serde_json_escapes_it() {
    let samples = [
        "",
        "plain",
        "quote\" and backslash\\",
        "\u{8}\t\n\u{c}\r",
        "\u{0}\u{1}\u{1f}\u{7f}",
        "caf\u{e9} \u{4e2d}\u{6587} \u{1f600}",
        "/slash",
    ];
    for s in samples {
        let e = ChainEvent::NewAddress { address: String::from(s) };
        let expected =
            format!("{{\"NewAddress\":{{\"address\":{}}}}}", serde_json::to_string(s).unwrap());
        assert_eq!(String::from_utf8(encode_event(&e)).unwrap(), expected);
    }
}

#[test]
fn wire_form_parses_as_the_json_that_serde_would_write() {
    let e = deposit("0xA\"b", "12", u64::MAX, "0x\\h", 0);
    let parsed: serde_json::Value = serde_json::from_slice(&encode_event(&e)).unwrap();
    let mut items = Vec::new();
    items.push(serde_json::Value::String(String::from("0xA\"b")));
    items.push(serde_json::Value::String(String::from("12")));
    items.push(serde_json::Value::Number(serde_json::Number::from(u64::MAX)));
    items.push(serde_json::Value::String(String::from("0x\\h")));
    items.push(serde_json::Value::Number(serde_json::Number::from(0u64)));
    let mut inner = serde_json::Map::new();
    inner.insert(String::from("deposit"), serde_json::Value::Array(items));
    let mut outer = serde_json::Map::new();
    outer.insert(String::from("dpst"), serde_json::Value::Object(inner));
    assert_eq!(parsed, serde_json::Value::Object(outer));

    let e = ChainEvent::NewTransaction {
        txid: String::from("id"),
        amount: i64::MIN,
        confirmations: u32::MAX,
    };
    let parsed: serde_json::Value = serde_json::from_slice(&encode_event(&e)).unwrap();
    let mut inner = serde_json::Map::new();
    inner.insert(String::from("txid"), serde_json::Value::String(String::from("id")));
    inner.insert(
        String::from("amount"),
        serde_json::Value::Number(serde_json::Number::from(i64::MIN)),
    );
    inner.insert(
        String::from("confirmations"),
        serde_json::Value::Number(serde_json::Number::from(u32::MAX)),
    );
    let mut outer = serde_json::Map::new();
    outer.insert(String::from("newtx"), serde_json::Value::Object(inner));
    assert_eq!(parsed, serde_json::Value::Object(outer));
}

#[test]
fn reading_undoes_writing() {
    let events = vec![
        deposit("0xCBc9745EC4553554938c24B494b4DA9107387695", "1500000", 21709710, "0xab", 7),
        deposit("", "", 0, "", 0),
        deposit("a\"b\\c\n\u{1}", "\u{1f600}", u64::MAX, "\t", u64::MAX),
        ChainEvent::NewTransaction { txid: String::from("tx"), amount: 0, confirmations: 0 },
        ChainEvent::NewTransaction {
            txid: String::from("tx"),
            amount: i64::MIN,
            confirmations: u32::MAX,
        },
        ChainEvent::NewTransaction { txid: String::from(""), amount: i64::MAX, confirmations: 1 },
        ChainEvent::NewAddress { address: String::from("0x1D86AD5eBb2380dAdEAF52f61f4F428C485460E9") },
    ];
    for e in &events {
        let payload = encode_event(e);
        let back = decode_event(&payload).unwrap();
        assert!(same(e, &back));
    }
}

#[test]
fn decode_event_rejects_what_is_no_wire_form() {
    let bad: [&[u8]; 12] = [
        b"",
        b"{}",
        b"{\"dpst\":{\"deposit\":[\"a\",\"b\",1,\"c\",2]}",
        b"{\"dpst\":{\"deposit\":[\"a\",\"b\",1,\"c\",2]}} ",
        b"{\"dpst\":{\"deposit\":[\"a\",\"b\",-1,\"c\",2]}}",
        b"{\"dpst\":{\"deposit\":[\"a\",\"b\",18446744073709551616,\"c\",2]}}",
        b"{\"dpst\":{\"deposit\":[\"a\",\"b\",1,\"c\"]}}",
        b"{\"newtx\":{\"txid\":\"t\",\"amount\":9223372036854775808,\"confirmations\":1}}",
        b"{\"newtx\":{\"txid\":\"t\",\"amount\":1,\"confirmations\":4294967296}}",
        b"{\"NewAddress\":{\"address\":\"unterminated}}",
        b"{\"NewAddress\":{\"address\":\"bad \\x escape\"}}",
        b"{\"NewAddress\":{\"address\":\"\xff\"}}",
    ];
    for payload in bad {
        assert!(decode_event(payload).is_none());
    }
}

#[test]
fn decode_event_reads_hex_escapes_of_either_case() {
    let payload = b"{\"NewAddress\":{\"address\":\"\\u001F\\u001f\"}}";
    match decode_event(payload).unwrap() {
        ChainEvent::NewAddress { address } => assert_eq!(address, "\u{1f}\u{1f}"),
        _ => panic!("another kind of event"),
    }
}

#[test]
fn publish_frames_the_topic_label_and_the_event() {
    let publisher = Publisher::new("tcp://*:5556");
    assert_eq!(publisher.bind_address(), "tcp://*:5556");
    let e = deposit("0xabc", "12", 100, "0xdef", 1);
    let message = publisher.publish(e);
    assert_eq!(message.len(), 2);
    assert_eq!(message[0], b"tx".to_vec());
    let back = decode_event(&message[1]).unwrap();
    assert!(same(&back, &deposit("0xabc", "12", 100, "0xdef", 1)));
}

#[test]
fn create_publisher_binds_the_default_address() {
    assert_eq!(create_publisher().bind_address(), "tcp://*:5556");
}
