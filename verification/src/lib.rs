//! A reorg-aware indexer core for a single token-transfer event stream.
//!
//! The crate holds the rules of the indexer: the 256-bit balance arithmetic
//! and its padded text form, the transfer table and balance ledger, the
//! forward scanner's window bookkeeping, the finality reconciler and the
//! endpoint pool's retry policy. Network and disk are left to the caller,
//! who feeds what was fetched to the functions here.

pub mod config;
pub mod decimal;
pub mod deployment;
pub mod events;
pub mod finality;
pub mod forward;
pub mod insertion_worker;
pub mod primitives;
pub mod query;
pub mod repository;
pub mod rpc;
pub mod scanner;
pub mod text;
pub mod uint;
