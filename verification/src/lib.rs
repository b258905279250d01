//! A minimal single-chain ledger: blocks are mined under a proof-of-work
//! rule, exchanged between peers as length-prefixed binary messages, and
//! replayed into a per-address balance projection.
//!
//! Amounts are fixed-point numbers with two decimal places: a value of `1`
//! stands for `0.01` currency units.

pub mod balances;
pub mod block;
pub mod blockchain;
pub mod codec;
pub mod p2p;
pub mod storage;
pub mod transaction;
pub mod utils;
pub mod wallet;
