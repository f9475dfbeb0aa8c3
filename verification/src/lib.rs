//! Custodial watch-wallet core.
//!
//! The crate derives and records receive addresses for a hierarchical
//! deterministic key, picks the token transfers that pay those addresses out
//! of a chain's logs, and frames each deposit as a message for subscribers.
//!
//! * [`wallet::mnemonic`] — the key vault: the mnemonic sealed under a
//!   passphrase, and address derivation.
//! * [`wallet::database`] — the address ledger and its uniqueness rules.
//! * [`wallet::usdt::contract`] — the chain watcher: log queries, decoding,
//!   selection and the live watch.
//! * [`wallet::ethserv`] — the wallet: allocation, the subscription switch
//!   and the deposit filter.
//! * [`pubsub`] — the event bus: events, their wire form and its reader.
//! * [`api`], [`config`], [`wallet::paths`] — answers of the request surface,
//!   settings and file names.
//! * [`derivation`] — the text of derivation paths.
//! * [`crypto`], [`eth`], [`encoding`] — the primitives underneath. What the
//!   crate takes on trust from other crates is stated there, function by
//!   function.
//!
//! Everything that touches a file, a socket or the node is left to the
//! caller, which hands plain values in and takes plain values back.

pub mod api;
pub mod config;
pub mod crypto;
pub mod derivation;
pub mod encoding;
pub mod eth;
pub mod pubsub;
pub mod wallet;

pub use pubsub::Publisher;
pub use wallet::ethserv::EthServWallet;
