//! The wallet: key vault, address ledger and chain watcher.

pub mod database;
pub mod ethserv;
pub mod mnemonic;
pub mod paths;
pub mod usdt;
