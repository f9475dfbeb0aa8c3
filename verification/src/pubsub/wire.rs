//! The wire form of chain events: compact JSON with the event's kind as the
//! single key of the outer object.
//!
//! | event            | wire form                                                |
//! |------------------|----------------------------------------------------------|
//! | `NewTransaction` | `{"newtx":{"txid":"..","amount":0,"confirmations":0}}`   |
//! | `NewAddress`     | `{"NewAddress":{"address":".."}}`                        |
//! | `NewDeposit`     | `{"dpst":{"deposit":["..","..",0,"..",0]}}`              |
//!
//! Text is written as a JSON string: quote, backslash and the control
//! characters below U+0020 are escaped, everything else stands as it is.

use crate::encoding::{decimal, i64_to_decimal, signed_decimal, u64_to_decimal};
use crate::pubsub::{ChainEvent, ChainEventView};
use vstd::prelude::*;
use vstd::string::*;
use vstd::utf8::encode_utf8;

verus! {

/// The byte of the lowercase hexadecimal digit of a value below 16.
pub open spec fn hex_digit_byte(nibble: int) -> u8 {
    if nibble < 10 {
        (0x30 + nibble) as u8
    } else {
        (0x61 + nibble - 10) as u8
    }
}

/// How one byte of text stands inside a JSON string.
pub open spec fn escaped_byte(b: u8) -> Seq<u8> {
    if b == 0x22 {
        seq![0x5cu8, 0x22u8]
    } else if b == 0x5c {
        seq![0x5cu8, 0x5cu8]
    } else if b == 0x08 {
        seq![0x5cu8, 0x62u8]
    } else if b == 0x09 {
        seq![0x5cu8, 0x74u8]
    } else if b == 0x0a {
        seq![0x5cu8, 0x6eu8]
    } else if b == 0x0c {
        seq![0x5cu8, 0x66u8]
    } else if b == 0x0d {
        seq![0x5cu8, 0x72u8]
    } else if b < 0x20 {
        seq![
            0x5cu8,
            0x75u8,
            0x30u8,
            0x30u8,
            hex_digit_byte(b as int / 16),
            hex_digit_byte(b as int % 16),
        ]
    } else {
        seq![b]
    }
}

/// How the bytes of a text stand inside a JSON string.
pub open spec fn escaped(bytes: Seq<u8>) -> Seq<u8>
    decreases bytes.len(),
{
    if bytes.len() == 0 {
        Seq::empty()
    } else {
        escaped(bytes.drop_last()) + escaped_byte(bytes.last())
    }
}

/// A text as a JSON string: its escaped bytes between quotes.
pub open spec fn json_string(text: Seq<char>) -> Seq<u8> {
    seq![0x22u8] + escaped(encode_utf8(text)) + seq![0x22u8]
}

/// A natural number as JSON.
pub open spec fn json_number(n: nat) -> Seq<u8> {
    encode_utf8(decimal(n))
}

/// An integer as JSON.
pub open spec fn json_integer(n: int) -> Seq<u8> {
    encode_utf8(signed_decimal(n))
}

/// What opens a `NewTransaction` event, up to its `txid`.
pub open spec fn open_transaction() -> Seq<u8> {
    encode_utf8("{\"newtx\":{\"txid\":"@)
}

/// What stands between `txid` and `amount`.
pub open spec fn key_amount() -> Seq<u8> {
    encode_utf8(",\"amount\":"@)
}

/// What stands between `amount` and `confirmations`.
pub open spec fn key_confirmations() -> Seq<u8> {
    encode_utf8(",\"confirmations\":"@)
}

/// What opens a `NewAddress` event, up to its `address`.
pub open spec fn open_address() -> Seq<u8> {
    encode_utf8("{\"NewAddress\":{\"address\":"@)
}

/// What opens a `NewDeposit` event, up to the first item of `deposit`.
pub open spec fn open_deposit() -> Seq<u8> {
    encode_utf8("{\"dpst\":{\"deposit\":["@)
}

/// What stands between two items of `deposit`.
pub open spec fn comma() -> Seq<u8> {
    encode_utf8(","@)
}

/// What closes the two objects of an event.
pub open spec fn close_objects() -> Seq<u8> {
    encode_utf8("}}"@)
}

/// What closes the list of `deposit` and the two objects around it.
pub open spec fn close_deposit() -> Seq<u8> {
    encode_utf8("]}}"@)
}

/// The wire form of an event.
pub open spec fn event_json(event: ChainEventView) -> Seq<u8> {
    match event {
        ChainEventView::NewTransaction { txid, amount, confirmations } => {
            open_transaction() + json_string(txid) + key_amount() + json_integer(amount as int)
                + key_confirmations() + json_number(confirmations as nat) + close_objects()
        },
        ChainEventView::NewAddress { address } => {
            open_address() + json_string(address) + close_objects()
        },
        ChainEventView::NewDeposit { deposit } => {
            open_deposit() + json_string(deposit.0) + comma() + json_string(deposit.1) + comma()
                + json_number(deposit.2 as nat) + comma() + json_string(deposit.3) + comma()
                + json_number(deposit.4 as nat) + close_deposit()
        },
    }
}

/// Appends `bytes` to `out`.
pub(crate) fn put(out: &mut Vec<u8>, bytes: &[u8])
    ensures
        final(out)@ == old(out)@ + bytes@,
{
    let mut i: usize = 0;
    while i < bytes.len()
        invariant
            i <= bytes.len(),
            out@ == old(out)@ + bytes@.take(i as int),
        decreases bytes.len() - i,
    {
        out.push(bytes[i]);
        assert(bytes@.take(i + 1) =~= bytes@.take(i as int).push(bytes@[i as int]));
        i += 1;
    }
    assert(bytes@.take(i as int) =~= bytes@);
}

/// The byte of a hexadecimal digit.
fn hex_byte(nibble: u8) -> (digit: u8)
    requires
        nibble < 16,
    ensures
        digit == hex_digit_byte(nibble as int),
{
    if nibble < 10 {
        0x30 + nibble
    } else {
        0x61 + (nibble - 10)
    }
}

/// Appends one byte of text as it stands inside a JSON string.
fn put_escaped_byte(out: &mut Vec<u8>, b: u8)
    ensures
        final(out)@ == old(out)@ + escaped_byte(b),
{
    if b == 0x22 {
        out.push(0x5c);
        out.push(0x22);
    } else if b == 0x5c {
        out.push(0x5c);
        out.push(0x5c);
    } else if b == 0x08 {
        out.push(0x5c);
        out.push(0x62);
    } else if b == 0x09 {
        out.push(0x5c);
        out.push(0x74);
    } else if b == 0x0a {
        out.push(0x5c);
        out.push(0x6e);
    } else if b == 0x0c {
        out.push(0x5c);
        out.push(0x66);
    } else if b == 0x0d {
        out.push(0x5c);
        out.push(0x72);
    } else if b < 0x20 {
        out.push(0x5c);
        out.push(0x75);
        out.push(0x30);
        out.push(0x30);
        out.push(hex_byte(b / 16));
        out.push(hex_byte(b % 16));
    } else {
        out.push(b);
    }
    assert(out@ =~= old(out)@ + escaped_byte(b));
}

/// Appends `text` as a JSON string.
fn put_string(out: &mut Vec<u8>, text: &str)
    ensures
        final(out)@ == old(out)@ + json_string(text@),
{
    let bytes = text.as_bytes();
    out.push(0x22);
    let mut i: usize = 0;
    assert(bytes@.take(0) =~= Seq::<u8>::empty());
    while i < bytes.len()
        invariant
            i <= bytes.len(),
            out@ == old(out)@ + seq![0x22u8] + escaped(bytes@.take(i as int)),
        decreases bytes.len() - i,
    {
        proof {
            let next = bytes@.take(i + 1);
            assert(next.drop_last() =~= bytes@.take(i as int));
            assert(next.last() == bytes@[i as int]);
        }
        put_escaped_byte(out, bytes[i]);
        assert(out@ =~= old(out)@ + seq![0x22u8] + escaped(bytes@.take(i + 1)));
        i += 1;
    }
    assert(bytes@.take(i as int) =~= bytes@);
    out.push(0x22);
    assert(out@ =~= old(out)@ + json_string(text@));
}

/// Appends a natural number.
fn put_number(out: &mut Vec<u8>, n: u64)
    ensures
        final(out)@ == old(out)@ + json_number(n as nat),
{
    let digits = u64_to_decimal(n);
    put(out, digits.as_str().as_bytes());
}

/// Appends an integer.
fn put_integer(out: &mut Vec<u8>, n: i64)
    ensures
        final(out)@ == old(out)@ + json_integer(n as int),
{
    let digits = i64_to_decimal(n);
    put(out, digits.as_str().as_bytes());
}

/// Writes `event` in its wire form.
pub fn encode_event(event: &ChainEvent) -> (payload: Vec<u8>)
    ensures
        payload@ == event_json(event@),
{
    let mut out: Vec<u8> = Vec::new();
    match event {
        ChainEvent::NewTransaction { txid, amount, confirmations } => {
            put(&mut out, "{\"newtx\":{\"txid\":".as_bytes());
            put_string(&mut out, txid.as_str());
            put(&mut out, ",\"amount\":".as_bytes());
            put_integer(&mut out, *amount);
            put(&mut out, ",\"confirmations\":".as_bytes());
            put_number(&mut out, *confirmations as u64);
            put(&mut out, "}}".as_bytes());
            assert(out@ =~= event_json(event@));
        },
        ChainEvent::NewAddress { address } => {
            put(&mut out, "{\"NewAddress\":{\"address\":".as_bytes());
            put_string(&mut out, address.as_str());
            put(&mut out, "}}".as_bytes());
            assert(out@ =~= event_json(event@));
        },
        ChainEvent::NewDeposit { deposit } => {
            put(&mut out, "{\"dpst\":{\"deposit\":[".as_bytes());
            put_string(&mut out, deposit.0.as_str());
            put(&mut out, ",".as_bytes());
            put_string(&mut out, deposit.1.as_str());
            put(&mut out, ",".as_bytes());
            put_number(&mut out, deposit.2);
            put(&mut out, ",".as_bytes());
            put_string(&mut out, deposit.3.as_str());
            put(&mut out, ",".as_bytes());
            put_number(&mut out, deposit.4);
            put(&mut out, "]}}".as_bytes());
            assert(out@ =~= event_json(event@));
        },
    }
    out
}

} // verus!
