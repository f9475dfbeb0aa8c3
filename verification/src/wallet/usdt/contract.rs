//! The chain watcher: transfer logs of the token contract, decoded and
//! selected.
//!
//! Talking to the node is the caller's part. This module says what to ask
//! for, decodes what comes back, and decides which of it is a transfer to
//! report.

use crate::encoding::{big_endian, bytes_eq, decimal, hex_encode, hex_lower};
use crate::eth::{
    address_from_text, address_of_text, address_to_text, checksum_text, keccak256,
    keccak256_digest, u256_to_decimal,
};
use crate::wallet::database::{holds_address, WalletDatabase};
use vstd::prelude::*;
use vstd::string::*;
use vstd::utf8::encode_utf8;

verus! {

/// A block position in a log query.
#[derive(Debug, Clone, Copy, PartialEq, Eq, Structural)]
pub enum BlockBound {
    /// The earliest block the node has.
    Earliest,
    /// The latest block the node has.
    Latest,
    /// The block of this number.
    Number(u64),
}

/// A log as the node reports it.
pub struct RawLog {
    /// The contract that emitted the log.
    pub address: [u8; 20],
    /// The indexed words, the event's signature hash first.
    pub topics: Vec<[u8; 32]>,
    /// The words that are not indexed.
    pub data: Vec<u8>,
    /// The block that holds the log, once it is mined.
    pub block_number: Option<u64>,
    /// The transaction that emitted the log, once it is mined.
    pub transaction_hash: Option<[u8; 32]>,
    /// The log's position in its block, once it is mined.
    pub log_index: Option<u64>,
}

/// What to ask the node for.
pub struct LogFilter {
    /// The contract whose logs are wanted.
    pub address: [u8; 20],
    /// The signature hash that the first topic must equal.
    pub topic0: [u8; 32],
    /// The word that the third topic must equal, if any is asked for.
    pub topic2: Option<[u8; 32]>,
    /// The first block to search, if the search is bounded below.
    pub from_block: Option<BlockBound>,
    /// The last block to search, if the search is bounded above.
    pub to_block: Option<BlockBound>,
}

/// An amount of tokens: 256 bits, most significant byte first.
pub struct TokenAmount {
    pub be_bytes: [u8; 32],
}

/// One decoded token transfer.
pub struct TransferLog {
    /// The sender, as checksummed text.
    pub from: String,
    /// The recipient, as checksummed text.
    pub to: String,
    /// The amount moved.
    pub amount: TokenAmount,
    /// The block that holds the transfer.
    pub block_number: u64,
    /// The transaction's hash, as `0x` and lowercase hexadecimal.
    pub hash: String,
    /// The log's position in its block.
    pub index: u64,
}

/// The mathematical content of a `TransferLog`.
pub struct TransferLogView {
    pub from: Seq<char>,
    pub to: Seq<char>,
    pub amount: Seq<u8>,
    pub block_number: u64,
    pub hash: Seq<char>,
    pub index: u64,
}

impl View for TransferLog {
    type V = TransferLogView;

    open spec fn view(&self) -> TransferLogView {
        TransferLogView {
            from: self.from@,
            to: self.to@,
            amount: self.amount.be_bytes@,
            block_number: self.block_number,
            hash: self.hash@,
            index: self.index,
        }
    }
}

/// Why a query could not be formed.
#[derive(Debug, Clone, Copy, PartialEq, Eq, Structural)]
pub enum ChainError {
    /// The text does not spell an address.
    InvalidAddress,
}

/// The signature of the transfer event.
pub open spec fn transfer_signature() -> Seq<char> {
    "Transfer(address,address,uint256)"@
}

/// The first topic of every transfer log: the hash of the event's signature.
pub open spec fn transfer_topic() -> Seq<u8> {
    keccak256(encode_utf8(transfer_signature()))
}

/// The topic that stands for an address: twelve zero bytes, then the address.
pub open spec fn topic_of_address(address: Seq<u8>) -> Seq<u8> {
    Seq::new(12, |i: int| 0u8) + address
}

/// The address that a topic stands for: its last twenty bytes.
pub open spec fn address_of_topic(topic: Seq<u8>) -> Seq<u8> {
    topic.subrange(12, 32)
}

/// The text form of a hash.
pub open spec fn hash_text(hash: Seq<u8>) -> Seq<char> {
    seq!['0', 'x'] + hex_lower(hash)
}

/// Whether `log` is a mined transfer log: signature, sender and recipient
/// among its topics, a word of data, and its place in the chain known.
pub open spec fn decodes(log: RawLog) -> bool {
    &&& log.topics@.len() >= 3
    &&& log.topics@[0]@ == transfer_topic()
    &&& log.data@.len() >= 32
    &&& log.block_number is Some
    &&& log.transaction_hash is Some
    &&& log.log_index is Some
}

/// The transfer that a log which `decodes` stands for.
pub open spec fn decoded(log: RawLog) -> TransferLogView {
    TransferLogView {
        from: checksum_text(address_of_topic(log.topics@[1]@)),
        to: checksum_text(address_of_topic(log.topics@[2]@)),
        amount: log.data@.subrange(0, 32),
        block_number: log.block_number.unwrap(),
        hash: hash_text(log.transaction_hash.unwrap()@),
        index: log.log_index.unwrap(),
    }
}

/// The transfer that `log` stands for, if it is a mined transfer log.
pub open spec fn parsed(log: RawLog) -> Option<TransferLogView> {
    if decodes(log) {
        Some(decoded(log))
    } else {
        None
    }
}

/// Whether a block position satisfies a lower bound.
pub open spec fn not_before(bound: Option<BlockBound>, block: Option<u64>) -> bool {
    match bound {
        Some(BlockBound::Number(first)) => block matches Some(b) && b >= first,
        _ => true,
    }
}

/// Whether a block position satisfies an upper bound.
pub open spec fn not_after(bound: Option<BlockBound>, block: Option<u64>) -> bool {
    match bound {
        Some(BlockBound::Number(last)) => block matches Some(b) && b <= last,
        _ => true,
    }
}

/// Whether `log` is one that `filter` asks for.
pub open spec fn admits(filter: LogFilter, log: RawLog) -> bool {
    &&& log.address@ == filter.address@
    &&& log.topics@.len() >= 1
    &&& log.topics@[0]@ == filter.topic0@
    &&& (filter.topic2 matches Some(word) ==> log.topics@.len() >= 3 && log.topics@[2]@ == word@)
    &&& not_before(filter.from_block, log.block_number)
    &&& not_after(filter.to_block, log.block_number)
}

/// The transfers among `logs` that `filter` asks for, in the order of `logs`.
pub open spec fn received(filter: LogFilter, logs: Seq<RawLog>) -> Seq<TransferLogView>
    decreases logs.len(),
{
    if logs.len() == 0 {
        Seq::empty()
    } else {
        let before = received(filter, logs.drop_last());
        if admits(filter, logs.last()) && decodes(logs.last()) {
            before.push(decoded(logs.last()))
        } else {
            before
        }
    }
}

/// The transfers of `list`, each by its view.
pub open spec fn transfer_views(list: Seq<TransferLog>) -> Seq<TransferLogView> {
    list.map_values(|t: TransferLog| t@)
}

impl TokenAmount {
    /// The number of token units.
    pub open spec fn value(&self) -> nat {
        big_endian(self.be_bytes@)
    }

    /// The amount in decimal.
    pub fn to_decimal(&self) -> (text: String)
        ensures
            text@ == decimal(self.value()),
    {
        u256_to_decimal(&self.be_bytes)
    }
}

impl ChainError {
    /// A one-line description of the error.
    pub open spec fn text(self) -> Seq<char> {
        match self {
            ChainError::InvalidAddress => "text does not spell an address"@,
        }
    }

    /// A one-line description of the error.
    pub fn message(&self) -> (text: &'static str)
        ensures
            text@ == self.text(),
    {
        match self {
            ChainError::InvalidAddress => "text does not spell an address",
        }
    }
}

/// The hash of the transfer event's signature.
pub fn transfer_event_topic() -> (topic: [u8; 32])
    ensures
        topic@ == transfer_topic(),
{
    let signature = "Transfer(address,address,uint256)";
    keccak256_digest(signature.as_bytes())
}

/// Pads an address to a topic: twelve zero bytes, then the address.
pub fn address_to_topic(address: &[u8; 20]) -> (topic: [u8; 32])
    ensures
        topic@ == topic_of_address(address@),
        address_of_topic(topic@) == address@,
{
    let mut topic = [0u8; 32];
    let mut i: usize = 0;
    while i < 20
        invariant
            i <= 20,
            forall|k: int| 0 <= k < 12 ==> topic@[k] == 0u8,
            forall|k: int| 0 <= k < i ==> topic@[12 + k] == address@[k],
        decreases 20 - i,
    {
        topic[12 + i] = address[i];
        i += 1;
    }
    assert(topic@ =~= topic_of_address(address@));
    assert(address_of_topic(topic@) =~= address@);
    topic
}

/// The last twenty bytes of a topic.
fn topic_to_address(topic: &[u8; 32]) -> (address: [u8; 20])
    ensures
        address@ == address_of_topic(topic@),
{
    let mut address = [0u8; 20];
    let mut i: usize = 0;
    while i < 20
        invariant
            i <= 20,
            forall|k: int| 0 <= k < i ==> address@[k] == topic@[12 + k],
        decreases 20 - i,
    {
        address[i] = topic[12 + i];
        i += 1;
    }
    assert(address@ =~= address_of_topic(topic@));
    address
}

/// The first thirty-two bytes of a log's data.
fn first_word(data: &Vec<u8>) -> (word: [u8; 32])
    requires
        data@.len() >= 32,
    ensures
        word@ == data@.subrange(0, 32),
{
    let mut word = [0u8; 32];
    let mut i: usize = 0;
    while i < 32
        invariant
            i <= 32,
            data@.len() >= 32,
            forall|k: int| 0 <= k < i ==> word@[k] == data@[k],
        decreases 32 - i,
    {
        word[i] = data[i];
        i += 1;
    }
    assert(word@ =~= data@.subrange(0, 32));
    word
}

/// Writes a hash as `0x` and lowercase hexadecimal.
pub fn hash_to_text(hash: &[u8; 32]) -> (text: String)
    ensures
        text@ == hash_text(hash@),
{
    proof {
        reveal_strlit("0x");
    }
    let digits = hex_encode(hash.as_slice());
    let text = String::from_str("0x").concat(digits.as_str());
    assert(text@ =~= hash_text(hash@));
    text
}

/// Decodes a transfer log.
///
/// A log is decoded when its first topic is the transfer signature hash, it
/// has topics for sender and recipient and a word of data, and its block,
/// transaction and position are known. Any other log gives nothing.
pub fn parse_transfer_event(log: &RawLog) -> (transfer: Option<TransferLog>)
    ensures
        transfer is Some <==> decodes(*log),
        transfer matches Some(t) ==> t@ == decoded(*log),
{
    if log.topics.len() < 3 || log.data.len() < 32 {
        return None;
    }
    let signature = transfer_event_topic();
    if !bytes_eq(log.topics[0].as_slice(), signature.as_slice()) {
        return None;
    }
    let block_number = match log.block_number {
        Some(n) => n,
        None => {
            return None;
        },
    };
    let hash = match &log.transaction_hash {
        Some(h) => hash_to_text(h),
        None => {
            return None;
        },
    };
    let index = match log.log_index {
        Some(n) => n,
        None => {
            return None;
        },
    };
    let from = topic_to_address(&log.topics[1]);
    let to = topic_to_address(&log.topics[2]);
    Some(
        TransferLog {
            from: address_to_text(&from),
            to: address_to_text(&to),
            amount: TokenAmount { be_bytes: first_word(&log.data) },
            block_number,
            hash,
            index,
        },
    )
}

} // verus!

verus! {

/// What the live subscription remembers between two logs.
pub struct LiveWatch {
    block_num: u64,
    stopped: bool,
}

/// What one arriving log leads to.
pub struct LogStep {
    /// The log's block, where it differs from the block of the log before.
    pub new_block: Option<u64>,
    /// The transfer to forward: the log decodes and pays a known address.
    pub transfer: Option<TransferLog>,
    /// Whether the subscription ends after this log.
    pub stop: bool,
}

impl LogFilter {
    /// Whether `log` is one that the filter asks for.
    pub fn matches(&self, log: &RawLog) -> (admitted: bool)
        ensures
            admitted == admits(*self, *log),
    {
        if !bytes_eq(log.address.as_slice(), self.address.as_slice()) {
            return false;
        }
        if log.topics.len() < 1 || !bytes_eq(log.topics[0].as_slice(), self.topic0.as_slice()) {
            return false;
        }
        match &self.topic2 {
            Some(word) => {
                if log.topics.len() < 3 || !bytes_eq(log.topics[2].as_slice(), word.as_slice()) {
                    return false;
                }
            },
            None => {},
        }
        let low = match self.from_block {
            Some(BlockBound::Number(first)) => match log.block_number {
                Some(b) => b >= first,
                None => false,
            },
            _ => true,
        };
        let high = match self.to_block {
            Some(BlockBound::Number(last)) => match log.block_number {
                Some(b) => b <= last,
                None => false,
            },
            _ => true,
        };
        low && high
    }
}

/// The query for the transfers that `reciever` received from `contract`
/// between two blocks.
///
/// Without `from_block` the search starts at the earliest block, without
/// `to_block` it ends at the latest. Fails exactly when `reciever` does not
/// spell an address.
pub fn receive_filter(
    contract: &[u8; 20],
    from_block: Option<u64>,
    to_block: Option<u64>,
    reciever: &str,
) -> (filter: Result<LogFilter, ChainError>)
    ensures
        filter is Ok <==> address_of_text(reciever@) is Some,
        filter matches Ok(f) ==> {
            &&& f.address@ == contract@
            &&& f.topic0@ == transfer_topic()
            &&& f.topic2 matches Some(word)
            &&& word@ == topic_of_address(address_of_text(reciever@).unwrap())
            &&& address_of_topic(word@) == address_of_text(reciever@).unwrap()
            &&& f.from_block == Some(
                match from_block {
                    Some(n) => BlockBound::Number(n),
                    None => BlockBound::Earliest,
                },
            )
            &&& f.to_block == Some(
                match to_block {
                    Some(n) => BlockBound::Number(n),
                    None => BlockBound::Latest,
                },
            )
        },
        filter matches Err(e) ==> e == ChainError::InvalidAddress,
{
    let address = match address_from_text(reciever) {
        Some(address) => address,
        None => {
            return Err(ChainError::InvalidAddress);
        },
    };
    let from_block = match from_block {
        Some(n) => BlockBound::Number(n),
        None => BlockBound::Earliest,
    };
    let to_block = match to_block {
        Some(n) => BlockBound::Number(n),
        None => BlockBound::Latest,
    };
    Ok(
        LogFilter {
            address: *contract,
            topic0: transfer_event_topic(),
            topic2: Some(address_to_topic(&address)),
            from_block: Some(from_block),
            to_block: Some(to_block),
        },
    )
}

/// The transfers to report from the node's answer to a query.
///
/// A log of the answer is reported when the filter asks for it and it
/// decodes; the others are skipped. The order of the answer is kept.
pub fn get_receive_logs(filter: &LogFilter, answer: &Vec<RawLog>) -> (transfers: Vec<TransferLog>)
    ensures
        transfer_views(transfers@) == received(*filter, answer@),
{
    let mut transfers: Vec<TransferLog> = Vec::new();
    let mut i: usize = 0;
    assert(answer@.take(0) =~= Seq::<RawLog>::empty());
    assert(transfer_views(transfers@) =~= Seq::<TransferLogView>::empty());
    while i < answer.len()
        invariant
            i <= answer.len(),
            transfer_views(transfers@) == received(*filter, answer@.take(i as int)),
        decreases answer.len() - i,
    {
        proof {
            let next = answer@.take(i + 1);
            assert(next.drop_last() =~= answer@.take(i as int));
            assert(next.last() == answer@[i as int]);
        }
        if filter.matches(&answer[i]) {
            match parse_transfer_event(&answer[i]) {
                Some(transfer) => {
                    assert(transfer_views(transfers@.push(transfer)) =~= transfer_views(
                        transfers@,
                    ).push(transfer@));
                    transfers.push(transfer);
                },
                None => {},
            }
        }
        i += 1;
    }
    assert(answer@.take(i as int) =~= answer@);
    transfers
}

/// Every reported transfer comes from a log of the answer that the filter
/// asks for: it lies within the filter's block numbers, and where the filter
/// names a recipient word, it pays the address of that word.
pub proof fn lemma_received_within_filter(filter: LogFilter, logs: Seq<RawLog>, k: int)
    requires
        0 <= k < received(filter, logs).len(),
    ensures
        exists|i: int|
            0 <= i < logs.len() && admits(filter, #[trigger] logs[i]) && parsed(logs[i]) == Some(
                received(filter, logs)[k],
            ),
        filter.from_block matches Some(BlockBound::Number(first)) ==> received(
            filter,
            logs,
        )[k].block_number >= first,
        filter.to_block matches Some(BlockBound::Number(last)) ==> received(
            filter,
            logs,
        )[k].block_number <= last,
        filter.topic2 matches Some(word) ==> received(filter, logs)[k].to == checksum_text(
            address_of_topic(word@),
        ),
    decreases logs.len(),
{
    let head = logs.drop_last();
    let last = logs.last();
    if admits(filter, last) && decodes(last) && k == received(filter, head).len() {
        assert(logs[logs.len() - 1] == last);
        assert(parsed(last) == Some(received(filter, logs)[k]));
    } else {
        lemma_received_within_filter(filter, head, k);
        let i = choose|i: int|
            0 <= i < head.len() && admits(filter, #[trigger] head[i]) && parsed(head[i]) == Some(
                received(filter, head)[k],
            );
        assert(logs[i] == head[i]);
    }
}

/// Of a query for the transfers that an address received between two block
/// numbers, every reported transfer lies between those numbers and pays that
/// address.
pub proof fn lemma_received_in_range_to_recipient(
    filter: LogFilter,
    logs: Seq<RawLog>,
    first: u64,
    last: u64,
    recipient: Seq<u8>,
    k: int,
)
    requires
        filter.from_block == Some(BlockBound::Number(first)),
        filter.to_block == Some(BlockBound::Number(last)),
        filter.topic2 matches Some(word) && word@ == topic_of_address(recipient),
        recipient.len() == 20,
        0 <= k < received(filter, logs).len(),
    ensures
        first <= received(filter, logs)[k].block_number <= last,
        received(filter, logs)[k].to == checksum_text(recipient),
{
    lemma_received_within_filter(filter, logs, k);
    assert(address_of_topic(topic_of_address(recipient)) =~= recipient);
}

/// A log that the filter does not ask for, or that does not decode, adds
/// nothing to what is reported.
pub proof fn lemma_received_skips(filter: LogFilter, logs: Seq<RawLog>, log: RawLog)
    requires
        !admits(filter, log) || !decodes(log),
    ensures
        received(filter, logs.push(log)) == received(filter, logs),
{
    assert(logs.push(log).drop_last() =~= logs);
}

/// The subscription to every transfer of `contract`: the query to subscribe
/// with, which names no recipient and no block, and the watch's first state.
pub fn subscribe_to_transfer_logs(contract: &[u8; 20]) -> (subscription: (LogFilter, LiveWatch))
    ensures
        subscription.0.address@ == contract@,
        subscription.0.topic0@ == transfer_topic(),
        subscription.0.topic2 is None,
        subscription.0.from_block is None,
        subscription.0.to_block is None,
        subscription.1.last_block() == 0,
        !subscription.1.is_stopped(),
{
    let filter = LogFilter {
        address: *contract,
        topic0: transfer_event_topic(),
        topic2: None,
        from_block: None,
        to_block: None,
    };
    (filter, LiveWatch { block_num: 0, stopped: false })
}

/// The transfer that the deposit filter forwards for `log`: the transfer it
/// decodes to, if that pays an address of the ledger.
pub open spec fn forwarded(log: RawLog, ledger: WalletDatabase) -> Option<TransferLogView> {
    if decodes(log) && holds_address(ledger@, decoded(log).to) {
        Some(decoded(log))
    } else {
        None
    }
}

impl LiveWatch {
    /// The block of the last log that carried one.
    pub closed spec fn last_block(&self) -> u64 {
        self.block_num
    }

    /// Whether the subscription has ended.
    pub closed spec fn is_stopped(&self) -> bool {
        self.stopped
    }

    /// Whether the subscription has ended.
    pub fn stopped(&self) -> (stopped: bool)
        ensures
            stopped == self.is_stopped(),
    {
        self.stopped
    }

    /// The block of the last log that carried one, and 0 before the first.
    pub fn block_number(&self) -> (block: u64)
        ensures
            block == self.last_block(),
    {
        self.block_num
    }

    /// Takes one log from the subscription.
    ///
    /// The log is decoded and forwarded if it pays an address of `db`; any
    /// other log is dropped without error. `stop_requested` tells whether the
    /// cancellation signal has fired: the log at hand is still handled, and
    /// the subscription ends after it. A watch that has ended handles nothing.
    pub fn on_log(&mut self, log: &RawLog, db: &WalletDatabase, stop_requested: bool) -> (step:
        LogStep)
        ensures
            old(self).is_stopped() ==> *final(self) == *old(self) && step.new_block is None
                && step.transfer is None && step.stop,
            !old(self).is_stopped() ==> {
                &&& final(self).is_stopped() == stop_requested
                &&& step.stop == stop_requested
                &&& final(self).last_block() == (match log.block_number {
                    Some(n) => n,
                    None => old(self).last_block(),
                })
                &&& step.new_block == (match log.block_number {
                    Some(n) => if n != old(self).last_block() {
                        Some(n)
                    } else {
                        None
                    },
                    None => None,
                })
                &&& step.transfer is Some <==> forwarded(*log, *db) is Some
                &&& step.transfer matches Some(t) ==> Some(t@) == forwarded(*log, *db)
            },
    {
        if self.stopped {
            return LogStep { new_block: None, transfer: None, stop: true };
        }
        let new_block = match log.block_number {
            Some(n) => if n != self.block_num {
                self.block_num = n;
                Some(n)
            } else {
                None
            },
            None => None,
        };
        let transfer = match parse_transfer_event(log) {
            Some(t) => if db.address_exists(t.to.as_str()) {
                Some(t)
            } else {
                None
            },
            None => None,
        };
        self.stopped = stop_requested;
        LogStep { new_block, transfer, stop: stop_requested }
    }
}

/// The signature of the balance query.
pub open spec fn balance_signature() -> Seq<char> {
    "balanceOf(address)"@
}

/// The data of a call that asks the token contract for the balance of
/// `owner`: the first four bytes of the signature's hash, then the owner as a
/// word.
pub open spec fn balance_call(owner: Seq<u8>) -> Seq<u8> {
    keccak256(encode_utf8(balance_signature())).subrange(0, 4) + topic_of_address(owner)
}

/// The data of the call that asks for the balance of `owner`. Fails exactly
/// when `owner` does not spell an address.
pub fn balance_call_data(owner: &str) -> (data: Result<Vec<u8>, ChainError>)
    ensures
        data is Ok <==> address_of_text(owner@) is Some,
        data matches Ok(d) ==> d@ == balance_call(address_of_text(owner@).unwrap()),
        data matches Err(e) ==> e == ChainError::InvalidAddress,
{
    let address = match address_from_text(owner) {
        Some(address) => address,
        None => {
            return Err(ChainError::InvalidAddress);
        },
    };
    let signature = "balanceOf(address)";
    let hash = keccak256_digest(signature.as_bytes());
    let word = address_to_topic(&address);
    let mut data: Vec<u8> = Vec::new();
    data.push(hash[0]);
    data.push(hash[1]);
    data.push(hash[2]);
    data.push(hash[3]);
    let mut i: usize = 0;
    while i < 32
        invariant
            i <= 32,
            data@ == hash@.subrange(0, 4) + word@.take(i as int),
        decreases 32 - i,
    {
        data.push(word[i]);
        assert(word@.take(i + 1) =~= word@.take(i as int).push(word@[i as int]));
        i += 1;
    }
    assert(word@.take(32) =~= word@);
    Ok(data)
}

/// The balance that the token contract returned: the first word of the
/// call's result, and nothing where the result is shorter than a word.
pub fn get_balance(returned: &Vec<u8>) -> (balance: Option<TokenAmount>)
    ensures
        balance is Some <==> returned@.len() >= 32,
        balance matches Some(amount) ==> amount.be_bytes@ == returned@.subrange(0, 32),
{
    if returned.len() < 32 {
        None
    } else {
        Some(TokenAmount { be_bytes: first_word(returned) })
    }
}

} // verus!
