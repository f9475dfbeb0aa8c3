//! Reading the wire form of chain events back.
//!
//! The reader accepts what `encode_event` writes and recovers the event it
//! was written from. It reads the three shapes of the wire form and nothing
//! else: keys in their written order and no white space. Numbers may carry
//! leading zeros, and a control character may be written as `\u00XX` in
//! either case of the digits.

use crate::encoding::text_from_utf8;
use crate::pubsub::wire::{
    close_deposit, close_objects, comma, key_amount, key_confirmations, open_address,
    open_deposit, open_transaction,
};
use crate::pubsub::{ChainEvent, ChainEventView};
use vstd::prelude::*;
use vstd::string::*;
use vstd::utf8::{decode_utf8, encode_utf8_decode_utf8, valid_utf8};

verus! {

/// The greatest magnitude of a negative 64-bit integer.
pub const I64_MIN_MAGNITUDE: u64 = 0x8000_0000_0000_0000;

/// Whether `input` holds `lit` at `pos`.
pub open spec fn has_at(input: Seq<u8>, pos: int, lit: Seq<u8>) -> bool {
    0 <= pos && pos + lit.len() <= input.len() && input.subrange(pos, pos + lit.len()) == lit
}

/// The value of a hexadecimal digit of either case.
pub open spec fn hex_value_of(b: u8) -> Option<int> {
    if 0x30 <= b && b <= 0x39 {
        Some(b as int - 0x30)
    } else if 0x61 <= b && b <= 0x66 {
        Some(b as int - 0x61 + 10)
    } else if 0x41 <= b && b <= 0x46 {
        Some(b as int - 0x41 + 10)
    } else {
        None
    }
}

/// The byte that the escape letter after a backslash stands for.
pub open spec fn short_escape(d: u8) -> Option<u8> {
    if d == 0x22 {
        Some(0x22u8)
    } else if d == 0x5c {
        Some(0x5cu8)
    } else if d == 0x62 {
        Some(0x08u8)
    } else if d == 0x74 {
        Some(0x09u8)
    } else if d == 0x6e {
        Some(0x0au8)
    } else if d == 0x66 {
        Some(0x0cu8)
    } else if d == 0x72 {
        Some(0x0du8)
    } else {
        None
    }
}

/// The unit of string content at `pos`: the byte it stands for and the
/// number of bytes it takes. A unit is a plain byte, a backslash with an
/// escape letter, or `\u00` with two hexadecimal digits of a control
/// character.
pub open spec fn unit_at(input: Seq<u8>, pos: int) -> Option<(u8, int)> {
    let c = input[pos];
    if c == 0x5c {
        if pos + 1 >= input.len() {
            None
        } else if input[pos + 1] == 0x75 {
            if pos + 6 > input.len() || input[pos + 2] != 0x30 || input[pos + 3] != 0x30 {
                None
            } else {
                match (hex_value_of(input[pos + 4]), hex_value_of(input[pos + 5])) {
                    (Some(high), Some(low)) => if high < 2 {
                        Some(((high * 16 + low) as u8, 6int))
                    } else {
                        None
                    },
                    _ => None,
                }
            }
        } else {
            match short_escape(input[pos + 1]) {
                Some(b) => Some((b, 2int)),
                None => None,
            }
        }
    } else if c < 0x20 || c == 0x22 {
        None
    } else {
        Some((c, 1int))
    }
}

/// The string content from `pos` to its closing quote: the bytes it stands
/// for and the position behind the quote.
pub open spec fn content_at(input: Seq<u8>, pos: int) -> Option<(Seq<u8>, int)>
    decreases input.len() - pos,
{
    if pos < 0 || pos >= input.len() {
        None
    } else if input[pos] == 0x22 {
        Some((Seq::empty(), pos + 1))
    } else {
        match unit_at(input, pos) {
            None => None,
            Some((b, n)) => match content_at(input, pos + n) {
                None => None,
                Some((rest, end)) => Some((seq![b] + rest, end)),
            },
        }
    }
}

/// `content` with `head` before its bytes.
pub open spec fn after(head: Seq<u8>, content: Option<(Seq<u8>, int)>) -> Option<(Seq<u8>, int)> {
    match content {
        None => None,
        Some((rest, end)) => Some((head + rest, end)),
    }
}

/// The JSON string at `pos`: the text it stands for and the position behind
/// it.
pub open spec fn text_at(input: Seq<u8>, pos: int) -> Option<(Seq<char>, int)> {
    if 0 <= pos && pos < input.len() && input[pos] == 0x22 {
        match content_at(input, pos + 1) {
            Some((bytes, end)) => if valid_utf8(bytes) {
                Some((decode_utf8(bytes), end))
            } else {
                None
            },
            None => None,
        }
    } else {
        None
    }
}

/// Whether `b` is a decimal digit.
pub open spec fn is_digit(b: u8) -> bool {
    0x30 <= b && b <= 0x39
}

/// The number that the digits from `cur` on extend `acc` to, and the
/// position behind them; nothing where the number exceeds `limit`.
pub open spec fn digits_from(input: Seq<u8>, cur: int, acc: nat, limit: nat) -> Option<(nat, int)>
    decreases input.len() - cur,
{
    if 0 <= cur && cur < input.len() && is_digit(input[cur]) {
        let next = acc * 10 + (input[cur] - 0x30) as nat;
        if next > limit {
            None
        } else {
            digits_from(input, cur + 1, next, limit)
        }
    } else {
        Some((acc, cur))
    }
}

/// The number of at most `limit` written at `pos`, and the position behind
/// it.
pub open spec fn natural_at(input: Seq<u8>, pos: int, limit: nat) -> Option<(nat, int)> {
    if 0 <= pos && pos < input.len() && is_digit(input[pos]) {
        digits_from(input, pos, 0, limit)
    } else {
        None
    }
}

/// The 64-bit integer written at `pos`, and the position behind it.
pub open spec fn integer_at(input: Seq<u8>, pos: int) -> Option<(int, int)> {
    if 0 <= pos && pos < input.len() && input[pos] == 0x2d {
        match natural_at(input, pos + 1, I64_MIN_MAGNITUDE as nat) {
            Some((magnitude, end)) => Some((-(magnitude as int), end)),
            None => None,
        }
    } else {
        match natural_at(input, pos, i64::MAX as nat) {
            Some((n, end)) => Some((n as int, end)),
            None => None,
        }
    }
}

/// The `NewTransaction` event that `input` is the wire form of.
pub open spec fn transaction_in(input: Seq<u8>) -> Option<ChainEventView> {
    if !has_at(input, 0, open_transaction()) {
        None
    } else {
        match text_at(input, open_transaction().len() as int) {
            None => None,
            Some((txid, p1)) => if !has_at(input, p1, key_amount()) {
                None
            } else {
                match integer_at(input, p1 + key_amount().len()) {
                    None => None,
                    Some((amount, p2)) => if !has_at(input, p2, key_confirmations()) {
                        None
                    } else {
                        match natural_at(input, p2 + key_confirmations().len(), u32::MAX as nat) {
                            None => None,
                            Some((confirmations, p3)) => if has_at(input, p3, close_objects())
                                && p3 + close_objects().len() == input.len() {
                                Some(
                                    ChainEventView::NewTransaction {
                                        txid,
                                        amount: amount as i64,
                                        confirmations: confirmations as u32,
                                    },
                                )
                            } else {
                                None
                            },
                        }
                    },
                }
            },
        }
    }
}

/// The `NewAddress` event that `input` is the wire form of.
pub open spec fn address_in(input: Seq<u8>) -> Option<ChainEventView> {
    if !has_at(input, 0, open_address()) {
        None
    } else {
        match text_at(input, open_address().len() as int) {
            None => None,
            Some((address, p1)) => if has_at(input, p1, close_objects()) && p1
                + close_objects().len() == input.len() {
                Some(ChainEventView::NewAddress { address })
            } else {
                None
            },
        }
    }
}

/// The text at `pos` and the position behind the comma that follows it.
pub open spec fn item_text_at(input: Seq<u8>, pos: int) -> Option<(Seq<char>, int)> {
    match text_at(input, pos) {
        None => None,
        Some((text, end)) => if has_at(input, end, comma()) {
            Some((text, end + comma().len()))
        } else {
            None
        },
    }
}

/// The `NewDeposit` event that `input` is the wire form of.
pub open spec fn deposit_in(input: Seq<u8>) -> Option<ChainEventView> {
    if !has_at(input, 0, open_deposit()) {
        None
    } else {
        match item_text_at(input, open_deposit().len() as int) {
            None => None,
            Some((recipient, p1)) => match item_text_at(input, p1) {
                None => None,
                Some((amount, p2)) => match natural_at(input, p2, u64::MAX as nat) {
                    None => None,
                    Some((block, p3)) => if !has_at(input, p3, comma()) {
                        None
                    } else {
                        match item_text_at(input, p3 + comma().len()) {
                            None => None,
                            Some((hash, p4)) => match natural_at(input, p4, u64::MAX as nat) {
                                None => None,
                                Some((index, p5)) => if has_at(input, p5, close_deposit()) && p5
                                    + close_deposit().len() == input.len() {
                                    Some(
                                        ChainEventView::NewDeposit {
                                            deposit: (
                                                recipient,
                                                amount,
                                                block as u64,
                                                hash,
                                                index as u64,
                                            ),
                                        },
                                    )
                                } else {
                                    None
                                },
                            },
                        }
                    },
                },
            },
        }
    }
}

/// The event that `input` is the wire form of, if it is one.
pub open spec fn event_in(input: Seq<u8>) -> Option<ChainEventView> {
    if has_at(input, 0, open_transaction()) {
        transaction_in(input)
    } else if has_at(input, 0, open_address()) {
        address_in(input)
    } else {
        deposit_in(input)
    }
}

/// Whether `input` holds `lit` at `pos`; if so, the position behind it.
fn expect(input: &[u8], pos: usize, lit: &[u8]) -> (end: Option<usize>)
    requires
        pos <= input@.len(),
    ensures
        end is Some <==> has_at(input@, pos as int, lit@),
        end matches Some(e) ==> e == pos + lit@.len(),
{
    if lit.len() > input.len() - pos {
        return None;
    }
    let mut i: usize = 0;
    while i < lit.len()
        invariant
            i <= lit@.len(),
            pos + lit@.len() <= input@.len(),
            input@.len() <= usize::MAX,
            forall|k: int| 0 <= k < i ==> input@[pos + k] == lit@[k],
        decreases lit@.len() - i,
    {
        if input[pos + i] != lit[i] {
            proof {
                if has_at(input@, pos as int, lit@) {
                    assert(input@.subrange(pos as int, pos + lit@.len())[i as int] == lit@[i as int]);
                }
            }
            return None;
        }
        i += 1;
    }
    assert(input@.subrange(pos as int, pos + lit@.len()) =~= lit@);
    Some(pos + lit.len())
}

/// The value of a hexadecimal digit.
fn hex_value(b: u8) -> (value: Option<u8>)
    ensures
        value is Some <==> hex_value_of(b) is Some,
        value matches Some(v) ==> hex_value_of(b) == Some(v as int) && v < 16,
{
    if 0x30 <= b && b <= 0x39 {
        Some(b - 0x30)
    } else if 0x61 <= b && b <= 0x66 {
        Some(b - 0x61 + 10)
    } else if 0x41 <= b && b <= 0x46 {
        Some(b - 0x41 + 10)
    } else {
        None
    }
}

/// The byte that an escape letter stands for.
fn short_escape_of(d: u8) -> (b: Option<u8>)
    ensures
        b == short_escape(d),
{
    if d == 0x22 {
        Some(0x22)
    } else if d == 0x5c {
        Some(0x5c)
    } else if d == 0x62 {
        Some(0x08)
    } else if d == 0x74 {
        Some(0x09)
    } else if d == 0x6e {
        Some(0x0a)
    } else if d == 0x66 {
        Some(0x0c)
    } else if d == 0x72 {
        Some(0x0d)
    } else {
        None
    }
}

/// Reads one unit of string content.
fn read_unit(input: &[u8], pos: usize) -> (unit: Option<(u8, usize)>)
    requires
        pos < input@.len(),
    ensures
        unit is Some <==> unit_at(input@, pos as int) is Some,
        unit matches Some((b, n)) ==> unit_at(input@, pos as int) == Some((b, n as int)) && 1 <= n
            && pos + n <= input@.len(),
{
    let c = input[pos];
    if c == 0x5c {
        if input.len() - pos < 2 {
            return None;
        }
        let d = input[pos + 1];
        if d == 0x75 {
            if input.len() - pos < 6 || input[pos + 2] != 0x30 || input[pos + 3] != 0x30 {
                return None;
            }
            let high = match hex_value(input[pos + 4]) {
                Some(h) => h,
                None => {
                    return None;
                },
            };
            let low = match hex_value(input[pos + 5]) {
                Some(l) => l,
                None => {
                    return None;
                },
            };
            if high < 2 {
                Some((high * 16 + low, 6))
            } else {
                None
            }
        } else {
            match short_escape_of(d) {
                Some(b) => Some((b, 2)),
                None => None,
            }
        }
    } else if c < 0x20 || c == 0x22 {
        None
    } else {
        Some((c, 1))
    }
}

/// Reads the JSON string at `pos`.
fn read_text(input: &[u8], pos: usize) -> (read: Option<(String, usize)>)
    requires
        pos <= input@.len(),
    ensures
        read is Some <==> text_at(input@, pos as int) is Some,
        read matches Some((text, end)) ==> text_at(input@, pos as int) == Some((text@, end as int))
            && end <= input@.len(),
{
    if pos >= input.len() || input[pos] != 0x22 {
        return None;
    }
    let mut bytes: Vec<u8> = Vec::new();
    let mut cur: usize = pos + 1;
    assert(after(bytes@, content_at(input@, cur as int)) =~= content_at(input@, pos + 1)) by {
        match content_at(input@, cur as int) {
            Some((rest, end)) => {
                assert(bytes@ + rest =~= rest);
            },
            None => {},
        }
    }
    loop
        invariant
            pos < cur <= input@.len(),
            input@[pos as int] == 0x22,
            after(bytes@, content_at(input@, cur as int)) == content_at(input@, pos + 1),
        decreases input@.len() - cur,
    {
        if cur >= input.len() {
            return None;
        }
        if input[cur] == 0x22 {
            assert(bytes@ + Seq::<u8>::empty() =~= bytes@);
            return match text_from_utf8(bytes) {
                Some(text) => {
                    proof {
                        encode_utf8_decode_utf8(text@);
                    }
                    Some((text, cur + 1))
                },
                None => None,
            };
        }
        match read_unit(input, cur) {
            None => {
                return None;
            },
            Some((b, n)) => {
                proof {
                    match content_at(input@, cur + n) {
                        Some((rest, end)) => {
                            assert(bytes@.push(b) + rest =~= bytes@ + (seq![b] + rest));
                        },
                        None => {},
                    }
                }
                bytes.push(b);
                cur = cur + n;
            },
        }
    }
}

/// Reads the number of at most `limit` at `pos`.
fn read_natural(input: &[u8], pos: usize, limit: u64) -> (read: Option<(u64, usize)>)
    requires
        pos <= input@.len(),
    ensures
        read is Some <==> natural_at(input@, pos as int, limit as nat) is Some,
        read matches Some((n, end)) ==> natural_at(input@, pos as int, limit as nat) == Some(
            (n as nat, end as int),
        ) && end <= input@.len() && n <= limit,
{
    if pos >= input.len() || !(0x30 <= input[pos] && input[pos] <= 0x39) {
        return None;
    }
    let mut acc: u64 = 0;
    let mut cur: usize = pos;
    while cur < input.len() && 0x30 <= input[cur] && input[cur] <= 0x39
        invariant
            pos <= cur <= input@.len(),
            acc <= limit,
            digits_from(input@, cur as int, acc as nat, limit as nat) == digits_from(
                input@,
                pos as int,
                0,
                limit as nat,
            ),
        decreases input@.len() - cur,
    {
        let next: u128 = acc as u128 * 10 + (input[cur] - 0x30) as u128;
        if next > limit as u128 {
            return None;
        }
        acc = next as u64;
        cur += 1;
    }
    Some((acc, cur))
}

/// Reads the 64-bit integer at `pos`.
fn read_integer(input: &[u8], pos: usize) -> (read: Option<(i64, usize)>)
    requires
        pos <= input@.len(),
    ensures
        read is Some <==> integer_at(input@, pos as int) is Some,
        read matches Some((n, end)) ==> integer_at(input@, pos as int) == Some((n as int, end as int))
            && end <= input@.len(),
{
    if pos < input.len() && input[pos] == 0x2d {
        match read_natural(input, pos + 1, I64_MIN_MAGNITUDE) {
            Some((magnitude, end)) => {
                let n: i64 = if magnitude == I64_MIN_MAGNITUDE {
                    i64::MIN
                } else {
                    -(magnitude as i64)
                };
                Some((n, end))
            },
            None => None,
        }
    } else {
        match read_natural(input, pos, 0x7fff_ffff_ffff_ffff) {
            Some((n, end)) => Some((n as i64, end)),
            None => None,
        }
    }
}

/// Reads the text at `pos` and the comma behind it.
fn read_item_text(input: &[u8], pos: usize) -> (read: Option<(String, usize)>)
    requires
        pos <= input@.len(),
    ensures
        read is Some <==> item_text_at(input@, pos as int) is Some,
        read matches Some((text, end)) ==> item_text_at(input@, pos as int) == Some(
            (text@, end as int),
        ) && end <= input@.len(),
{
    match read_text(input, pos) {
        None => None,
        Some((text, end)) => match expect(input, end, ",".as_bytes()) {
            Some(next) => Some((text, next)),
            None => None,
        },
    }
}

/// Reads a `NewTransaction` event.
fn read_transaction(input: &[u8]) -> (event: Option<ChainEvent>)
    ensures
        event is Some <==> transaction_in(input@) is Some,
        event matches Some(e) ==> transaction_in(input@) == Some(e@),
{
    let p0 = match expect(input, 0, "{\"newtx\":{\"txid\":".as_bytes()) {
        Some(p) => p,
        None => {
            return None;
        },
    };
    let (txid, p1) = match read_text(input, p0) {
        Some(read) => read,
        None => {
            return None;
        },
    };
    let p1 = match expect(input, p1, ",\"amount\":".as_bytes()) {
        Some(p) => p,
        None => {
            return None;
        },
    };
    let (amount, p2) = match read_integer(input, p1) {
        Some(read) => read,
        None => {
            return None;
        },
    };
    let p2 = match expect(input, p2, ",\"confirmations\":".as_bytes()) {
        Some(p) => p,
        None => {
            return None;
        },
    };
    let (confirmations, p3) = match read_natural(input, p2, 0xffff_ffff) {
        Some(read) => read,
        None => {
            return None;
        },
    };
    match expect(input, p3, "}}".as_bytes()) {
        Some(end) => if end == input.len() {
            Some(ChainEvent::NewTransaction { txid, amount, confirmations: confirmations as u32 })
        } else {
            None
        },
        None => None,
    }
}

/// Reads a `NewAddress` event.
fn read_address(input: &[u8]) -> (event: Option<ChainEvent>)
    ensures
        event is Some <==> address_in(input@) is Some,
        event matches Some(e) ==> address_in(input@) == Some(e@),
{
    let p0 = match expect(input, 0, "{\"NewAddress\":{\"address\":".as_bytes()) {
        Some(p) => p,
        None => {
            return None;
        },
    };
    let (address, p1) = match read_text(input, p0) {
        Some(read) => read,
        None => {
            return None;
        },
    };
    match expect(input, p1, "}}".as_bytes()) {
        Some(end) => if end == input.len() {
            Some(ChainEvent::NewAddress { address })
        } else {
            None
        },
        None => None,
    }
}

/// Reads a `NewDeposit` event.
fn read_deposit(input: &[u8]) -> (event: Option<ChainEvent>)
    ensures
        event is Some <==> deposit_in(input@) is Some,
        event matches Some(e) ==> deposit_in(input@) == Some(e@),
{
    let p0 = match expect(input, 0, "{\"dpst\":{\"deposit\":[".as_bytes()) {
        Some(p) => p,
        None => {
            return None;
        },
    };
    let (recipient, p1) = match read_item_text(input, p0) {
        Some(read) => read,
        None => {
            return None;
        },
    };
    let (amount, p2) = match read_item_text(input, p1) {
        Some(read) => read,
        None => {
            return None;
        },
    };
    let (block, p3) = match read_natural(input, p2, 0xffff_ffff_ffff_ffff) {
        Some(read) => read,
        None => {
            return None;
        },
    };
    let p3 = match expect(input, p3, ",".as_bytes()) {
        Some(p) => p,
        None => {
            return None;
        },
    };
    let (hash, p4) = match read_item_text(input, p3) {
        Some(read) => read,
        None => {
            return None;
        },
    };
    let (index, p5) = match read_natural(input, p4, 0xffff_ffff_ffff_ffff) {
        Some(read) => read,
        None => {
            return None;
        },
    };
    match expect(input, p5, "]}}".as_bytes()) {
        Some(end) => if end == input.len() {
            Some(ChainEvent::NewDeposit { deposit: (recipient, amount, block, hash, index) })
        } else {
            None
        },
        None => None,
    }
}

/// Reads an event from its wire form.
///
/// Gives the event that `payload` is the wire form of, and nothing for any
/// other bytes.
pub fn decode_event(payload: &[u8]) -> (event: Option<ChainEvent>)
    ensures
        event is Some <==> event_in(payload@) is Some,
        event matches Some(e) ==> event_in(payload@) == Some(e@),
{
    if expect(payload, 0, "{\"newtx\":{\"txid\":".as_bytes()).is_some() {
        read_transaction(payload)
    } else if expect(payload, 0, "{\"NewAddress\":{\"address\":".as_bytes()).is_some() {
        read_address(payload)
    } else {
        read_deposit(payload)
    }
}

} // verus!
