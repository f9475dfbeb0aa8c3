//! Reading gives back what was written: the proof that `decode_event` undoes
//! `encode_event`.

use crate::encoding::decimal;
use crate::pubsub::decode::{
    content_at, deposit_in, digits_from, event_in, has_at, hex_value_of, integer_at, is_digit,
    item_text_at, natural_at, text_at, transaction_in, unit_at, I64_MIN_MAGNITUDE,
};
use crate::pubsub::wire::{
    close_deposit, close_objects, comma, escaped, escaped_byte, event_json, hex_digit_byte,
    json_integer, json_number, json_string, key_amount, key_confirmations, open_address,
    open_deposit, open_transaction,
};
use crate::pubsub::{message_frames, topic_label, ChainEventView};
use vstd::prelude::*;
use vstd::utf8::{
    encode_utf8, encode_utf8_decode_utf8, encode_utf8_valid_utf8, is_ascii_chars,
    is_ascii_chars_encode_utf8,
};

verus! {

/// The escaped form of a text begins with the escaped form of its first
/// byte.
proof fn lemma_escaped_first(bytes: Seq<u8>)
    requires
        bytes.len() > 0,
    ensures
        escaped(bytes) == escaped_byte(bytes[0]) + escaped(bytes.drop_first()),
    decreases bytes.len(),
{
    if bytes.len() == 1 {
        assert(bytes.drop_last() =~= Seq::<u8>::empty());
        assert(bytes.drop_first() =~= Seq::<u8>::empty());
        assert(escaped(bytes) =~= escaped_byte(bytes[0]) + escaped(bytes.drop_first()));
    } else {
        let front = bytes.drop_last();
        lemma_escaped_first(front);
        assert(front.drop_first() =~= bytes.drop_first().drop_last());
        assert(bytes.drop_first().last() == bytes.last());
        assert(escaped(bytes) =~= escaped_byte(bytes[0]) + escaped(bytes.drop_first()));
    }
}

/// The escaped form of one byte reads back as that byte.
proof fn lemma_unit_round_trip(input: Seq<u8>, pos: int, b: u8)
    requires
        has_at(input, pos, escaped_byte(b)),
    ensures
        unit_at(input, pos) == Some((b, escaped_byte(b).len() as int)),
        input[pos] != 0x22,
{
    let e = escaped_byte(b);
    let window = input.subrange(pos, pos + e.len());
    assert forall|k: int| 0 <= k < e.len() implies input[pos + k] == e[k] by {
        assert(window[k] == e[k]);
    }
    assert(input[pos] == e[0]);
    if e.len() >= 2 {
        assert(input[pos + 1] == e[1]);
    }
    if b < 0x20 && b != 0x08 && b != 0x09 && b != 0x0a && b != 0x0c && b != 0x0d {
        assert(input[pos + 2] == e[2]);
        assert(input[pos + 3] == e[3]);
        assert(input[pos + 4] == e[4]);
        assert(input[pos + 5] == e[5]);
        let high = b as int / 16;
        let low = b as int % 16;
        assert(hex_value_of(hex_digit_byte(high)) == Some(high));
        assert(hex_value_of(hex_digit_byte(low)) == Some(low));
        assert((high * 16 + low) as u8 == b);
    }
}

/// The escaped form of a text, closed by a quote, reads back as the text.
proof fn lemma_content_round_trip(input: Seq<u8>, pos: int, bytes: Seq<u8>)
    requires
        has_at(input, pos, escaped(bytes) + seq![0x22u8]),
    ensures
        content_at(input, pos) == Some((bytes, pos + escaped(bytes).len() + 1)),
    decreases bytes.len(),
{
    let whole = escaped(bytes) + seq![0x22u8];
    let window = input.subrange(pos, pos + whole.len());
    assert forall|k: int| 0 <= k < whole.len() implies input[pos + k] == whole[k] by {
        assert(window[k] == whole[k]);
    }
    if bytes.len() == 0 {
        assert(input[pos] == whole[0]);
        assert(bytes =~= Seq::<u8>::empty());
    } else {
        lemma_escaped_first(bytes);
        let first = escaped_byte(bytes[0]);
        let tail = bytes.drop_first();
        assert(input.subrange(pos, pos + first.len()) =~= first) by {
            assert forall|k: int| 0 <= k < first.len() implies input[pos + k] == first[k] by {
                assert(whole[k] == first[k]);
            }
        }
        lemma_unit_round_trip(input, pos, bytes[0]);
        let next = pos + first.len();
        let remaining = escaped(tail) + seq![0x22u8];
        assert(input.subrange(next, next + remaining.len()) =~= remaining) by {
            assert forall|k: int| 0 <= k < remaining.len() implies input[next + k]
                == remaining[k] by {
                assert(whole[first.len() + k] == remaining[k]);
            }
        }
        lemma_content_round_trip(input, next, tail);
        assert(seq![bytes[0]] + tail =~= bytes);
    }
}

/// A JSON string reads back as the text it was written from.
pub proof fn lemma_text_round_trip(input: Seq<u8>, pos: int, text: Seq<char>)
    requires
        has_at(input, pos, json_string(text)),
    ensures
        text_at(input, pos) == Some((text, pos + json_string(text).len())),
{
    let bytes = encode_utf8(text);
    let whole = json_string(text);
    let window = input.subrange(pos, pos + whole.len());
    assert(input[pos] == 0x22) by {
        assert(window[0] == whole[0]);
    }
    let inner = escaped(bytes) + seq![0x22u8];
    assert(input.subrange(pos + 1, pos + 1 + inner.len()) =~= inner) by {
        assert forall|k: int| 0 <= k < inner.len() implies input[pos + 1 + k] == inner[k] by {
            assert(window[1 + k] == whole[1 + k]);
        }
    }
    lemma_content_round_trip(input, pos + 1, bytes);
    encode_utf8_valid_utf8(text);
    encode_utf8_decode_utf8(text);
}

/// Decimal text is made of the ten digits.
proof fn lemma_decimal_is_digits(n: nat)
    ensures
        decimal(n).len() >= 1,
        forall|i: int| 0 <= i < decimal(n).len() ==> '0' <= #[trigger] decimal(n)[i] <= '9',
        is_ascii_chars(decimal(n)),
    decreases n,
{
    if n >= 10 {
        lemma_decimal_is_digits(n / 10);
    }
}

/// The bytes of a number are those of the number without its last digit,
/// followed by the last digit.
proof fn lemma_number_bytes(n: nat)
    ensures
        json_number(n).len() == decimal(n).len(),
        json_number(n).len() >= 1,
        forall|i: int| 0 <= i < json_number(n).len() ==> is_digit(#[trigger] json_number(n)[i]),
        n < 10 ==> json_number(n) == seq![(0x30 + n) as u8],
        n >= 10 ==> json_number(n) == json_number(n / 10).push((0x30 + n % 10) as u8),
{
    lemma_decimal_is_digits(n);
    is_ascii_chars_encode_utf8(decimal(n));
    assert forall|i: int| 0 <= i < json_number(n).len() implies is_digit(
        #[trigger] json_number(n)[i],
    ) by {
        assert(decimal(n)[i] as u8 == json_number(n)[i]);
    }
    if n < 10 {
        assert(decimal(n)[0] as u8 == json_number(n)[0]);
        assert(json_number(n) =~= seq![(0x30 + n) as u8]);
    } else {
        lemma_decimal_is_digits(n / 10);
        is_ascii_chars_encode_utf8(decimal(n / 10));
        let whole = json_number(n);
        let front = json_number(n / 10);
        assert forall|i: int| 0 <= i < whole.len() implies whole[i] == front.push(
            (0x30 + n % 10) as u8,
        )[i] by {
            assert(decimal(n)[i] as u8 == whole[i]);
            if i < front.len() {
                assert(decimal(n / 10)[i] as u8 == front[i]);
            }
        }
        assert(whole =~= front.push((0x30 + n % 10) as u8));
    }
}

/// Reading the digits of `n` brings the accumulated value from 0 to `n`.
proof fn lemma_digits_progress(input: Seq<u8>, pos: int, n: nat, limit: nat)
    requires
        has_at(input, pos, json_number(n)),
        n <= limit,
    ensures
        digits_from(input, pos, 0, limit) == digits_from(
            input,
            pos + json_number(n).len(),
            n,
            limit,
        ),
    decreases n,
{
    lemma_number_bytes(n);
    let whole = json_number(n);
    let window = input.subrange(pos, pos + whole.len());
    assert forall|k: int| 0 <= k < whole.len() implies input[pos + k] == whole[k] by {
        assert(window[k] == whole[k]);
    }
    if n < 10 {
        assert(input[pos] == whole[0]);
    } else {
        let front = json_number(n / 10);
        lemma_number_bytes(n / 10);
        assert(input.subrange(pos, pos + front.len()) =~= front) by {
            assert forall|k: int| 0 <= k < front.len() implies input[pos + k] == front[k] by {
                assert(whole[k] == front[k]);
            }
        }
        lemma_digits_progress(input, pos, n / 10, limit);
        assert(input[pos + front.len()] == whole[front.len() as int]);
    }
}

/// A number that is followed by no digit reads back as itself.
pub proof fn lemma_natural_round_trip(input: Seq<u8>, pos: int, n: nat, limit: nat)
    requires
        has_at(input, pos, json_number(n)),
        n <= limit,
        pos + json_number(n).len() == input.len() || !is_digit(input[pos + json_number(n).len()]),
    ensures
        natural_at(input, pos, limit) == Some((n, pos + json_number(n).len())),
{
    lemma_number_bytes(n);
    lemma_digits_progress(input, pos, n, limit);
    let whole = json_number(n);
    assert(input[pos] == whole[0]) by {
        assert(input.subrange(pos, pos + whole.len())[0] == whole[0]);
    }
}

/// The bytes of a negative integer are a minus sign and the bytes of its
/// magnitude; those of another integer are the bytes of the number.
proof fn lemma_integer_bytes(v: int)
    ensures
        v < 0 ==> json_integer(v) == seq![0x2du8] + json_number((-v) as nat),
        v >= 0 ==> json_integer(v) == json_number(v as nat),
{
    if v < 0 {
        let m = (-v) as nat;
        lemma_decimal_is_digits(m);
        let chars = seq!['-'] + decimal(m);
        assert(is_ascii_chars(chars)) by {
            assert forall|i: int| 0 <= i < chars.len() implies '\0' <= #[trigger] chars[i]
                <= '\u{7f}' by {
                if i > 0 {
                    assert(chars[i] == decimal(m)[i - 1]);
                }
            }
        }
        is_ascii_chars_encode_utf8(chars);
        is_ascii_chars_encode_utf8(decimal(m));
        let whole = json_integer(v);
        let parts = seq![0x2du8] + json_number(m);
        assert forall|i: int| 0 <= i < whole.len() implies whole[i] == parts[i] by {
            assert(chars[i] as u8 == whole[i]);
            if i > 0 {
                assert(decimal(m)[i - 1] as u8 == json_number(m)[i - 1]);
            }
        }
        assert(whole =~= parts);
    }
}

/// A 64-bit integer that is followed by no digit reads back as itself.
pub proof fn lemma_integer_round_trip(input: Seq<u8>, pos: int, v: i64)
    requires
        has_at(input, pos, json_integer(v as int)),
        pos + json_integer(v as int).len() == input.len() || !is_digit(
            input[pos + json_integer(v as int).len()],
        ),
    ensures
        integer_at(input, pos) == Some((v as int, pos + json_integer(v as int).len())),
{
    lemma_integer_bytes(v as int);
    let whole = json_integer(v as int);
    let window = input.subrange(pos, pos + whole.len());
    assert forall|k: int| 0 <= k < whole.len() implies input[pos + k] == whole[k] by {
        assert(window[k] == whole[k]);
    }
    if v < 0 {
        let m = (-(v as int)) as nat;
        lemma_number_bytes(m);
        let digits = json_number(m);
        assert(input[pos] == whole[0]);
        assert(input.subrange(pos + 1, pos + 1 + digits.len()) =~= digits) by {
            assert forall|k: int| 0 <= k < digits.len() implies input[pos + 1 + k] == digits[k] by {
                assert(whole[1 + k] == digits[k]);
            }
        }
        lemma_natural_round_trip(input, pos + 1, m, I64_MIN_MAGNITUDE as nat);
    } else {
        lemma_number_bytes(v as nat);
        assert(input[pos] == whole[0]);
        lemma_natural_round_trip(input, pos, v as nat, i64::MAX as nat);
    }
}

/// What the fixed pieces of the wire form are made of.
proof fn lemma_pieces()
    ensures
        comma() == seq![0x2cu8],
        close_objects() == seq![0x7du8, 0x7du8],
        close_deposit() == seq![0x5du8, 0x7du8, 0x7du8],
        key_confirmations().len() > 0,
        key_confirmations()[0] == 0x2c,
        open_transaction().len() > 2,
        open_transaction()[2] == 0x6e,
        open_address().len() > 2,
        open_address()[2] == 0x4e,
        open_deposit().len() > 2,
        open_deposit()[2] == 0x64,
{
    reveal_strlit(",");
    reveal_strlit("}}");
    reveal_strlit("]}}");
    reveal_strlit(",\"amount\":");
    reveal_strlit(",\"confirmations\":");
    reveal_strlit("{\"newtx\":{\"txid\":");
    reveal_strlit("{\"NewAddress\":{\"address\":");
    reveal_strlit("{\"dpst\":{\"deposit\":[");
    assert(is_ascii_chars(","@));
    assert(is_ascii_chars("}}"@));
    assert(is_ascii_chars("]}}"@));
    assert(is_ascii_chars(",\"amount\":"@));
    assert(is_ascii_chars(",\"confirmations\":"@));
    assert(is_ascii_chars("{\"newtx\":{\"txid\":"@));
    assert(is_ascii_chars("{\"NewAddress\":{\"address\":"@));
    assert(is_ascii_chars("{\"dpst\":{\"deposit\":["@));
    is_ascii_chars_encode_utf8(","@);
    is_ascii_chars_encode_utf8("}}"@);
    is_ascii_chars_encode_utf8("]}}"@);
    is_ascii_chars_encode_utf8(",\"amount\":"@);
    is_ascii_chars_encode_utf8(",\"confirmations\":"@);
    is_ascii_chars_encode_utf8("{\"newtx\":{\"txid\":"@);
    is_ascii_chars_encode_utf8("{\"NewAddress\":{\"address\":"@);
    is_ascii_chars_encode_utf8("{\"dpst\":{\"deposit\":["@);
    assert(comma() =~= seq![0x2cu8]);
    assert(close_objects() =~= seq![0x7du8, 0x7du8]);
    assert(close_deposit() =~= seq![0x5du8, 0x7du8, 0x7du8]);
}

/// A wire form that opens one kind of event does not open another.
proof fn lemma_opening_differs(input: Seq<u8>, opening: Seq<u8>, other: Seq<u8>)
    requires
        has_at(input, 0, opening),
        opening.len() > 2,
        other.len() > 2,
        opening[2] != other[2],
    ensures
        !has_at(input, 0, other),
{
    assert(input.subrange(0, opening.len() as int)[2] == opening[2]);
    if has_at(input, 0, other) {
        assert(input.subrange(0, other.len() as int)[2] == other[2]);
    }
}

/// Where two pieces stand one behind the other, each stands at its place.
proof fn lemma_split(input: Seq<u8>, pos: int, front: Seq<u8>, piece: Seq<u8>)
    requires
        has_at(input, pos, front + piece),
    ensures
        has_at(input, pos, front),
        has_at(input, pos + front.len(), piece),
{
    let both = front + piece;
    let window = input.subrange(pos, pos + both.len());
    assert(input.subrange(pos, pos + front.len()) =~= front) by {
        assert forall|k: int| 0 <= k < front.len() implies input[pos + k] == front[k] by {
            assert(window[k] == both[k]);
        }
    }
    assert(input.subrange(pos + front.len(), pos + front.len() + piece.len()) =~= piece) by {
        assert forall|k: int| 0 <= k < piece.len() implies input[pos + front.len() + k]
            == piece[k] by {
            assert(window[front.len() + k] == both[front.len() + k]);
        }
    }
}

/// The first byte of a piece that stands at `pos`.
proof fn lemma_first_byte(input: Seq<u8>, pos: int, piece: Seq<u8>)
    requires
        has_at(input, pos, piece),
        piece.len() > 0,
    ensures
        input[pos] == piece[0],
        pos < input.len(),
{
    assert(input.subrange(pos, pos + piece.len())[0] == piece[0]);
}

/// A text and the comma behind it read back as the text.
proof fn lemma_item_round_trip(input: Seq<u8>, pos: int, text: Seq<char>)
    requires
        has_at(input, pos, json_string(text)),
        has_at(input, pos + json_string(text).len(), comma()),
    ensures
        item_text_at(input, pos) == Some((text, pos + json_string(text).len() + comma().len())),
{
    lemma_text_round_trip(input, pos, text);
}

/// The wire form of a `NewAddress` event reads back as the event.
proof fn lemma_address_round_trip(address: Seq<char>)
    ensures
        event_in(event_json(ChainEventView::NewAddress { address })) == Some(
            ChainEventView::NewAddress { address },
        ),
{
    lemma_pieces();
    let input = event_json(ChainEventView::NewAddress { address });
    let o = open_address();
    let s = json_string(address);
    let z = close_objects();
    assert(input.subrange(0, input.len() as int) =~= input);
    lemma_split(input, 0, o + s, z);
    lemma_split(input, 0, o, s);
    lemma_opening_differs(input, o, open_transaction());
    lemma_text_round_trip(input, o.len() as int, address);
}

/// Where the pieces of a transaction's wire form stand.
spec fn transaction_laid_out(
    input: Seq<u8>,
    txid: Seq<char>,
    amount: i64,
    confirmations: u32,
) -> bool {
    let p0 = open_transaction().len() as int;
    let p1 = p0 + json_string(txid).len();
    let p2 = p1 + key_amount().len();
    let p3 = p2 + json_integer(amount as int).len();
    let p4 = p3 + key_confirmations().len();
    let p5 = p4 + json_number(confirmations as nat).len();
    &&& has_at(input, 0, open_transaction())
    &&& has_at(input, p0, json_string(txid))
    &&& has_at(input, p1, key_amount())
    &&& has_at(input, p2, json_integer(amount as int))
    &&& has_at(input, p3, key_confirmations())
    &&& has_at(input, p4, json_number(confirmations as nat))
    &&& has_at(input, p5, close_objects())
    &&& p5 + close_objects().len() == input.len()
}

/// The pieces of a transaction's wire form stand one behind the other.
#[verifier::rlimit(60)]
proof fn lemma_transaction_laid_out(txid: Seq<char>, amount: i64, confirmations: u32)
    ensures
        transaction_laid_out(
            event_json(ChainEventView::NewTransaction { txid, amount, confirmations }),
            txid,
            amount,
            confirmations,
        ),
{
    let input = event_json(ChainEventView::NewTransaction { txid, amount, confirmations });
    let o = open_transaction();
    let s = json_string(txid);
    let ka = key_amount();
    let i = json_integer(amount as int);
    let kc = key_confirmations();
    let n = json_number(confirmations as nat);
    let z = close_objects();
    assert(input.subrange(0, input.len() as int) =~= input);
    lemma_split(input, 0, o + s + ka + i + kc + n, z);
    lemma_split(input, 0, o + s + ka + i + kc, n);
    lemma_split(input, 0, o + s + ka + i, kc);
    lemma_split(input, 0, o + s + ka, i);
    lemma_split(input, 0, o + s, ka);
    lemma_split(input, 0, o, s);
}

/// A wire form whose pieces stand as those of a transaction reads back as
/// the transaction.
#[verifier::rlimit(60)]
proof fn lemma_transaction_read(input: Seq<u8>, txid: Seq<char>, amount: i64, confirmations: u32)
    requires
        transaction_laid_out(input, txid, amount, confirmations),
    ensures
        transaction_in(input) == Some(
            ChainEventView::NewTransaction { txid, amount, confirmations },
        ),
{
    lemma_pieces();
    let p0 = open_transaction().len() as int;
    let p1 = p0 + json_string(txid).len();
    let p2 = p1 + key_amount().len();
    let p3 = p2 + json_integer(amount as int).len();
    let p4 = p3 + key_confirmations().len();
    let p5 = p4 + json_number(confirmations as nat).len();
    assert(text_at(input, p0) == Some((txid, p1))) by {
        lemma_text_round_trip(input, p0, txid);
    }
    assert(integer_at(input, p2) == Some((amount as int, p3))) by {
        lemma_first_byte(input, p3, key_confirmations());
        lemma_integer_round_trip(input, p2, amount);
    }
    assert(natural_at(input, p4, u32::MAX as nat) == Some((confirmations as nat, p5))) by {
        lemma_first_byte(input, p5, close_objects());
        lemma_natural_round_trip(input, p4, confirmations as nat, u32::MAX as nat);
    }
}

/// The wire form of a `NewTransaction` event reads back as the event.
proof fn lemma_transaction_round_trip(txid: Seq<char>, amount: i64, confirmations: u32)
    ensures
        event_in(event_json(ChainEventView::NewTransaction { txid, amount, confirmations }))
            == Some(ChainEventView::NewTransaction { txid, amount, confirmations }),
{
    let input = event_json(ChainEventView::NewTransaction { txid, amount, confirmations });
    lemma_transaction_laid_out(txid, amount, confirmations);
    lemma_transaction_read(input, txid, amount, confirmations);
}

/// Where the pieces of a deposit's wire form stand.
spec fn deposit_laid_out(
    input: Seq<u8>,
    deposit: (Seq<char>, Seq<char>, u64, Seq<char>, u64),
) -> bool {
    let p0 = open_deposit().len() as int;
    let p1 = p0 + json_string(deposit.0).len() + comma().len();
    let p2 = p1 + json_string(deposit.1).len() + comma().len();
    let p3 = p2 + json_number(deposit.2 as nat).len();
    let p4 = p3 + comma().len();
    let p5 = p4 + json_string(deposit.3).len() + comma().len();
    let p6 = p5 + json_number(deposit.4 as nat).len();
    &&& has_at(input, 0, open_deposit())
    &&& has_at(input, p0, json_string(deposit.0))
    &&& has_at(input, p1 - comma().len(), comma())
    &&& has_at(input, p1, json_string(deposit.1))
    &&& has_at(input, p2 - comma().len(), comma())
    &&& has_at(input, p2, json_number(deposit.2 as nat))
    &&& has_at(input, p3, comma())
    &&& has_at(input, p4, json_string(deposit.3))
    &&& has_at(input, p5 - comma().len(), comma())
    &&& has_at(input, p5, json_number(deposit.4 as nat))
    &&& has_at(input, p6, close_deposit())
    &&& p6 + close_deposit().len() == input.len()
}

/// The pieces of a deposit's wire form stand one behind the other.
#[verifier::rlimit(60)]
proof fn lemma_deposit_laid_out(deposit: (Seq<char>, Seq<char>, u64, Seq<char>, u64))
    ensures
        deposit_laid_out(event_json(ChainEventView::NewDeposit { deposit }), deposit),
{
    let input = event_json(ChainEventView::NewDeposit { deposit });
    let o = open_deposit();
    let s0 = json_string(deposit.0);
    let s1 = json_string(deposit.1);
    let n2 = json_number(deposit.2 as nat);
    let s3 = json_string(deposit.3);
    let n4 = json_number(deposit.4 as nat);
    let c = comma();
    let z = close_deposit();
    assert(input.subrange(0, input.len() as int) =~= input);
    lemma_split(input, 0, o + s0 + c + s1 + c + n2 + c + s3 + c + n4, z);
    lemma_split(input, 0, o + s0 + c + s1 + c + n2 + c + s3 + c, n4);
    lemma_split(input, 0, o + s0 + c + s1 + c + n2 + c + s3, c);
    lemma_split(input, 0, o + s0 + c + s1 + c + n2 + c, s3);
    lemma_split(input, 0, o + s0 + c + s1 + c + n2, c);
    lemma_split(input, 0, o + s0 + c + s1 + c, n2);
    lemma_split(input, 0, o + s0 + c + s1, c);
    lemma_split(input, 0, o + s0 + c, s1);
    lemma_split(input, 0, o + s0, c);
    lemma_split(input, 0, o, s0);
}

/// A wire form whose pieces stand as those of a deposit reads back as the
/// deposit.
#[verifier::rlimit(60)]
proof fn lemma_deposit_read(input: Seq<u8>, deposit: (Seq<char>, Seq<char>, u64, Seq<char>, u64))
    requires
        deposit_laid_out(input, deposit),
    ensures
        deposit_in(input) == Some(ChainEventView::NewDeposit { deposit }),
{
    lemma_pieces();
    let c = comma();
    let z = close_deposit();
    let p0 = open_deposit().len() as int;
    let p1 = p0 + json_string(deposit.0).len() + c.len();
    let p2 = p1 + json_string(deposit.1).len() + c.len();
    let p3 = p2 + json_number(deposit.2 as nat).len();
    let p4 = p3 + c.len();
    let p5 = p4 + json_string(deposit.3).len() + c.len();
    let p6 = p5 + json_number(deposit.4 as nat).len();
    assert(item_text_at(input, p0) == Some((deposit.0, p1))) by {
        lemma_item_round_trip(input, p0, deposit.0);
    }
    assert(item_text_at(input, p1) == Some((deposit.1, p2))) by {
        lemma_item_round_trip(input, p1, deposit.1);
    }
    assert(natural_at(input, p2, u64::MAX as nat) == Some((deposit.2 as nat, p3))) by {
        lemma_first_byte(input, p3, c);
        lemma_natural_round_trip(input, p2, deposit.2 as nat, u64::MAX as nat);
    }
    assert(item_text_at(input, p4) == Some((deposit.3, p5))) by {
        lemma_item_round_trip(input, p4, deposit.3);
    }
    assert(natural_at(input, p5, u64::MAX as nat) == Some((deposit.4 as nat, p6))) by {
        lemma_first_byte(input, p6, z);
        lemma_natural_round_trip(input, p5, deposit.4 as nat, u64::MAX as nat);
    }
}

/// The wire form of a `NewDeposit` event reads back as the event.
proof fn lemma_deposit_round_trip(deposit: (Seq<char>, Seq<char>, u64, Seq<char>, u64))
    ensures
        event_in(event_json(ChainEventView::NewDeposit { deposit })) == Some(
            ChainEventView::NewDeposit { deposit },
        ),
{
    lemma_pieces();
    let input = event_json(ChainEventView::NewDeposit { deposit });
    lemma_deposit_laid_out(deposit);
    lemma_deposit_read(input, deposit);
    lemma_opening_differs(input, open_deposit(), open_transaction());
    lemma_opening_differs(input, open_deposit(), open_address());
}

/// Reading undoes writing: the wire form of every event reads back as that
/// event, with every field as it was.
pub proof fn lemma_wire_round_trip(event: ChainEventView)
    ensures
        event_in(event_json(event)) == Some(event),
{
    match event {
        ChainEventView::NewTransaction { txid, amount, confirmations } => {
            lemma_transaction_round_trip(txid, amount, confirmations);
        },
        ChainEventView::NewAddress { address } => {
            lemma_address_round_trip(address);
        },
        ChainEventView::NewDeposit { deposit } => {
            lemma_deposit_round_trip(deposit);
        },
    }
}

/// A published message has two frames: the first is the topic label, and
/// the second reads back as the event that was published.
pub proof fn lemma_published_message(event: ChainEventView)
    ensures
        message_frames(event).len() == 2,
        message_frames(event)[0] == encode_utf8(topic_label()),
        event_in(message_frames(event)[1]) == Some(event),
{
    lemma_wire_round_trip(event);
}

} // verus!
