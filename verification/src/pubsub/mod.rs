//! The event bus: chain events framed for a publish/subscribe channel.
//!
//! An event goes out as one message of two frames, a fixed topic label and
//! the event in its wire form. Sending the frames is the caller's part.

pub mod decode;
pub mod round_trip;
pub mod wire;

use crate::pubsub::wire::{encode_event, event_json};
use vstd::prelude::*;
use vstd::string::*;
use vstd::utf8::encode_utf8;

verus! {

/// Something that happened on the chain or in the wallet.
pub enum ChainEvent {
    /// A transaction was seen.
    NewTransaction { txid: String, amount: i64, confirmations: u32 },
    /// An address was handed out.
    NewAddress { address: String },
    /// A deposit arrived: recipient, amount in decimal, block number,
    /// transaction hash and position of the log in its block.
    NewDeposit { deposit: (String, String, u64, String, u64) },
}

/// The mathematical content of a `ChainEvent`.
pub enum ChainEventView {
    NewTransaction { txid: Seq<char>, amount: i64, confirmations: u32 },
    NewAddress { address: Seq<char> },
    NewDeposit { deposit: (Seq<char>, Seq<char>, u64, Seq<char>, u64) },
}

impl View for ChainEvent {
    type V = ChainEventView;

    open spec fn view(&self) -> ChainEventView {
        match self {
            ChainEvent::NewTransaction { txid, amount, confirmations } => {
                ChainEventView::NewTransaction {
                    txid: txid@,
                    amount: *amount,
                    confirmations: *confirmations,
                }
            },
            ChainEvent::NewAddress { address } => ChainEventView::NewAddress { address: address@ },
            ChainEvent::NewDeposit { deposit } => ChainEventView::NewDeposit {
                deposit: (deposit.0@, deposit.1@, deposit.2, deposit.3@, deposit.4),
            },
        }
    }
}

/// The publishing end of the event bus.
pub struct Publisher {
    bind_address: String,
}

/// The label that the first frame of every message carries.
pub open spec fn topic_label() -> Seq<char> {
    "tx"@
}

/// The address that `create_publisher` binds.
pub open spec fn default_bind_address() -> Seq<char> {
    "tcp://*:5556"@
}

/// The message that carries `event`: the topic label, then the event's wire
/// form.
pub open spec fn message_frames(event: ChainEventView) -> Seq<Seq<u8>> {
    seq![encode_utf8(topic_label()), event_json(event)]
}

/// The frames of `message`, each by its bytes.
pub open spec fn frame_views(message: Seq<Vec<u8>>) -> Seq<Seq<u8>> {
    message.map_values(|frame: Vec<u8>| frame@)
}

impl Publisher {
    /// A publisher for the channel bound at `bind_address`.
    pub fn new(bind_address: &str) -> (publisher: Self)
        ensures
            publisher.address() == bind_address@,
    {
        Publisher { bind_address: String::from_str(bind_address) }
    }

    /// The address the channel is bound at.
    pub closed spec fn address(&self) -> Seq<char> {
        self.bind_address@
    }

    /// The address the channel is bound at.
    pub fn bind_address(&self) -> (address: &str)
        ensures
            address@ == self.address(),
    {
        self.bind_address.as_str()
    }

    /// Frames `event` for sending: two frames, the topic label first and the
    /// event's wire form second. All frames but the last are to be sent with
    /// the more-to-come flag, so that they arrive as one message.
    pub fn publish(&self, event: ChainEvent) -> (message: Vec<Vec<u8>>)
        ensures
            frame_views(message@) == message_frames(event@),
            message@.len() == 2,
            message@[0]@ == encode_utf8(topic_label()),
            message@[1]@ == event_json(event@),
    {
        let topic = "tx";
        let label = topic.as_bytes_vec();
        let payload = encode_event(&event);
        let mut message: Vec<Vec<u8>> = Vec::new();
        message.push(label);
        message.push(payload);
        assert(frame_views(message@) =~= message_frames(event@));
        message
    }
}

/// The publisher of the default channel.
pub fn create_publisher() -> (publisher: Publisher)
    ensures
        publisher.address() == default_bind_address(),
{
    Publisher::new("tcp://*:5556")
}

} // verus!
