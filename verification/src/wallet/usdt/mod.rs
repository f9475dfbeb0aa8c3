//! The watched token contract.

pub mod contract;
