//! The answers of the request surface.
//!
//! Routing and transport are the caller's part. This module decides, from the
//! outcome of a wallet operation, which status and which body a request is
//! answered with.

use crate::encoding::decimal;
use crate::pubsub::{frame_views, message_frames, ChainEvent, ChainEventView, Publisher};
use crate::wallet::usdt::contract::{TokenAmount, TransferLog};
use vstd::prelude::*;
use vstd::string::*;

verus! {

/// The status of an answered request.
pub const STATUS_OK: u16 = 200;

/// The status of a request that failed inside the wallet.
pub const STATUS_INTERNAL_SERVER_ERROR: u16 = 500;

/// The body that answers a request for a new address.
pub struct AddressResponse {
    pub success: bool,
    pub address: String,
    pub error: Option<String>,
}

/// The body that answers a request for a balance.
pub struct BalanceResponse {
    pub success: bool,
    pub balance: String,
    pub error: Option<String>,
}

/// The body that answers a request for the deposits of an address.
pub struct AddressDepositsResponse {
    pub deposits: Vec<TransferLog>,
}

/// The body that answers a request to publish test deposits.
pub struct TestPubTxResponse {
    pub success: bool,
    pub error: Option<String>,
}

/// The deposit events that report `actions`, in their order.
pub open spec fn deposit_messages(actions: Seq<(String, String, u64, String, u64)>) -> Seq<
    Seq<Seq<u8>>,
> {
    Seq::new(
        actions.len(),
        |i: int|
            message_frames(
                ChainEventView::NewDeposit {
                    deposit: (
                        actions[i].0@,
                        actions[i].1@,
                        actions[i].2,
                        actions[i].3@,
                        actions[i].4,
                    ),
                },
            ),
    )
}

/// Answers a balance request: the balance in decimal with status 200, or
/// the failure with status 500 and a balance of `0`.
pub fn get_balance_controller(balance: Result<TokenAmount, String>) -> (answer: (
    u16,
    BalanceResponse,
))
    ensures
        match balance {
            Ok(amount) => {
                &&& answer.0 == STATUS_OK
                &&& answer.1.success
                &&& answer.1.balance@ == decimal(amount.value())
                &&& answer.1.error is None
            },
            Err(failure) => {
                &&& answer.0 == STATUS_INTERNAL_SERVER_ERROR
                &&& !answer.1.success
                &&& answer.1.balance@ == "0"@
                &&& answer.1.error matches Some(text)
                &&& text@ == failure@
            },
        },
{
    match balance {
        Ok(amount) => (
            STATUS_OK,
            BalanceResponse { success: true, balance: amount.to_decimal(), error: None },
        ),
        Err(failure) => (
            STATUS_INTERNAL_SERVER_ERROR,
            BalanceResponse { success: false, balance: String::from_str("0"), error: Some(failure) },
        ),
    }
}

/// Answers a request for a new address: the address that was revealed with
/// status 200, or, where none was, a fixed failure text with status 500 and
/// no address.
pub fn get_new_address(revealed: Option<String>) -> (answer: (u16, AddressResponse))
    ensures
        match revealed {
            Some(address) => {
                &&& answer.0 == STATUS_OK
                &&& answer.1.success
                &&& answer.1.address@ == address@
                &&& answer.1.error is None
            },
            None => {
                &&& answer.0 == STATUS_INTERNAL_SERVER_ERROR
                &&& !answer.1.success
                &&& answer.1.address@ == Seq::<char>::empty()
                &&& answer.1.error matches Some(text)
                &&& text@ == "Error getting new address"@
            },
        },
{
    match revealed {
        Some(address) => (STATUS_OK, AddressResponse { success: true, address, error: None }),
        None => (
            STATUS_INTERNAL_SERVER_ERROR,
            AddressResponse {
                success: false,
                address: String::new(),
                error: Some(String::from_str("Error getting new address")),
            },
        ),
    }
}

/// Answers a request for the deposits of an address with the transfers
/// found, and status 200.
pub fn get_address_deposits(transfers: Vec<TransferLog>) -> (answer: (u16, AddressDepositsResponse))
    ensures
        answer.0 == STATUS_OK,
        answer.1.deposits == transfers,
{
    (STATUS_OK, AddressDepositsResponse { deposits: transfers })
}

/// The messages that publish `actions` as deposit events, one for each action
/// and in their order. They are to be sent one after the other, and the first
/// failure to send ends the request; see `test_pub_reply`.
pub fn test_pub_deposits(publisher: &Publisher, actions: Vec<(String, String, u64, String, u64)>) -> (messages:
    Vec<Vec<Vec<u8>>>)
    ensures
        messages@.len() == actions@.len(),
        forall|i: int|
            0 <= i < actions@.len() ==> frame_views((#[trigger] messages@[i])@) == deposit_messages(
                actions@,
            )[i],
{
    let mut messages: Vec<Vec<Vec<u8>>> = Vec::new();
    let mut actions = actions;
    let ghost all = actions@;
    let ghost n = actions@.len();
    while actions.len() > 0
        invariant
            n == all.len(),
            messages@.len() + actions@.len() == n,
            forall|i: int|
                0 <= i < messages@.len() ==> frame_views((#[trigger] messages@[i])@)
                    == deposit_messages(all)[i],
            forall|k: int| 0 <= k < actions@.len() ==> actions@[k] == all[messages@.len() + k],
        decreases actions@.len(),
    {
        let action = actions.remove(0);
        let event = ChainEvent::NewDeposit { deposit: action };
        let message = publisher.publish(event);
        messages.push(message);
    }
    messages
}

/// Answers a request to publish test deposits: status 200 where every
/// message was sent, else status 500 with the failure.
pub fn test_pub_reply(failure: Option<String>) -> (answer: (u16, TestPubTxResponse))
    ensures
        match failure {
            None => answer.0 == STATUS_OK && answer.1.success && answer.1.error is None,
            Some(text) => {
                &&& answer.0 == STATUS_INTERNAL_SERVER_ERROR
                &&& !answer.1.success
                &&& answer.1.error matches Some(e)
                &&& e@ == "Error publishing chain event: "@ + text@
            },
        },
{
    match failure {
        None => (STATUS_OK, TestPubTxResponse { success: true, error: None }),
        Some(text) => {
            let error = String::from_str("Error publishing chain event: ").concat(text.as_str());
            (STATUS_INTERNAL_SERVER_ERROR, TestPubTxResponse { success: false, error: Some(error) })
        },
    }
}

} // verus!
