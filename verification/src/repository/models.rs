//! Rows of the store.

use vstd::prelude::*;
use crate::primitives::{Address, B256};
use crate::uint::U256;

verus! {

/// One indexed contract and how far it has been processed.
#[derive(Clone, Debug)]
pub struct Token {
    pub address: Address,
    pub deployment_block: u64,
    pub last_processed_block: Option<u64>,
    pub last_processed_finalized_block: Option<u64>,
    pub name: Option<String>,
    pub symbol: Option<String>,
    pub decimals: Option<u8>,
}

/// One transfer event, keyed by its transaction hash and log index.
#[derive(Clone, Copy, Debug)]
pub struct Transfer {
    pub transaction_hash: B256,
    pub log_index: u64,
    pub token_address: Address,
    pub from_address: Address,
    pub to_address: Address,
    pub value: U256,
    pub block_number: u64,
    pub block_hash: B256,
    pub is_finalized: bool,
}

impl Transfer {
    /// Whether two transfers have the same primary key.
    pub open spec fn same_key(self, other: Transfer) -> bool {
        self.transaction_hash == other.transaction_hash && self.log_index == other.log_index
    }

    /// Whether the transfer lies in the block range `[from, to]`.
    pub open spec fn in_range(self, from: u64, to: u64) -> bool {
        from <= self.block_number && self.block_number <= to
    }

    /// The same transfer, marked as finalized.
    pub open spec fn finalized(self) -> Transfer {
        Transfer { is_finalized: true, ..self }
    }

    /// Compares the primary keys of two transfers.
    pub fn has_same_key(&self, other: &Transfer) -> (r: bool)
        ensures
            r == self.same_key(*other),
    {
        self.log_index == other.log_index && self.transaction_hash == other.transaction_hash
    }
}

} // verus!
