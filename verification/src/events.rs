//! The transfer event: `Transfer(address indexed from, address indexed to,
//! uint256 value)`, read from the topics and data of a log.

use vstd::prelude::*;
use vstd::string::StringSliceAdditionalSpecFns;
use crate::primitives::{be_u256, Address, B256};
use crate::repository::models::Transfer;
use crate::uint::U256;

verus! {

/// A log as the chain reports it. The four positions are absent for a log of
/// a block that is still pending.
#[derive(Clone, Debug)]
pub struct RawLog {
    pub topics: Vec<B256>,
    pub data: Vec<u8>,
    pub block_number: Option<u64>,
    pub block_hash: Option<B256>,
    pub transaction_hash: Option<B256>,
    pub log_index: Option<u64>,
}

/// The three fields of a transfer event.
#[derive(Clone, Copy, Debug)]
pub struct TransferEvent {
    pub from: Address,
    pub to: Address,
    pub value: U256,
}

/// Why a log is no transfer event.
#[derive(Clone, Copy, Debug, PartialEq, Eq, Structural)]
pub enum DecodeError {
    /// The log does not have exactly three topics.
    TopicCount,
    /// The first topic is not the hash of the event's signature.
    Signature,
    /// The data is shorter than one 32-byte word.
    ShortData,
    /// The log lacks its block number, block hash, transaction hash or index.
    MissingPosition,
}

/// The Keccak-256 digest of a byte string.
pub uninterp spec fn keccak256_digest(data: Seq<u8>) -> Seq<u8>;

/// Calls `alloy_primitives::keccak256`. The contract names the digest that
/// the call returns for the given bytes; nothing is proved of its value.
#[verifier::external_body]
fn keccak256(data: &[u8]) -> (r: B256)
    ensures
        r.bytes@ == keccak256_digest(data@),
{
    B256 { bytes: alloy_primitives::keccak256(data).0 }
}

/// The bytes of the first topic of every transfer event: the digest of the
/// event's signature.
pub open spec fn transfer_topic_bytes() -> Seq<u8> {
    keccak256_digest("Transfer(address,address,uint256)".spec_bytes())
}

/// The first topic of every transfer event.
pub fn transfer_topic() -> (r: B256)
    ensures
        r.bytes@ == transfer_topic_bytes(),
{
    keccak256("Transfer(address,address,uint256)".as_bytes())
}

/// Whether a log has the shape of a transfer event under the given first
/// topic, and if not, what is wrong with it first.
pub open spec fn shape_error(log: RawLog, topic: B256) -> Option<DecodeError> {
    if log.topics@.len() != 3 {
        Some(DecodeError::TopicCount)
    } else if log.topics@[0] != topic {
        Some(DecodeError::Signature)
    } else if log.data@.len() < 32 {
        Some(DecodeError::ShortData)
    } else {
        None
    }
}

/// Whether `event` is what a log of the right shape carries: sender and
/// receiver in the last 20 bytes of the second and third topic, the value in
/// the first 32 bytes of the data, most significant byte first.
pub open spec fn carries(log: RawLog, event: TransferEvent) -> bool {
    &&& event.from.bytes@ == log.topics@[1].bytes@.subrange(12, 32)
    &&& event.to.bytes@ == log.topics@[2].bytes@.subrange(12, 32)
    &&& event.value@ == be_u256(log.data@.subrange(0, 32))
}

/// Reads a transfer event from a log, given the first topic that such an
/// event has.
pub fn decode_with_topic(log: &RawLog, topic: &B256) -> (r: Result<TransferEvent, DecodeError>)
    ensures
        r matches Ok(event) ==> shape_error(*log, *topic) is None && carries(*log, event),
        r matches Err(e) ==> shape_error(*log, *topic) == Some(e),
{
    if log.topics.len() != 3 {
        return Err(DecodeError::TopicCount);
    }
    if log.topics[0] != *topic {
        return Err(DecodeError::Signature);
    }
    if log.data.len() < 32 {
        return Err(DecodeError::ShortData);
    }
    let mut word: [u8; 32] = [0u8; 32];
    let mut i: usize = 0;
    while i < 32
        invariant
            i <= 32,
            log.data@.len() >= 32,
            forall|j: int| 0 <= j < i ==> word[j] == log.data@[j],
        decreases 32 - i,
    {
        word[i] = log.data[i];
        i += 1;
    }
    assert(word@ =~= log.data@.subrange(0, 32));
    let value = B256 { bytes: word }.to_u256();
    let from = Address::from_word(&log.topics[1]);
    let to = Address::from_word(&log.topics[2]);
    Ok(TransferEvent { from, to, value })
}

/// Reads a transfer event from a log.
pub fn decode_transfer_event(log: &RawLog) -> (r: Result<TransferEvent, DecodeError>)
    ensures
        r matches Ok(event) ==> exists|topic: B256|
            topic.bytes@ == transfer_topic_bytes() && shape_error(*log, topic) is None && carries(
                *log,
                event,
            ),
        r matches Err(e) ==> exists|topic: B256|
            topic.bytes@ == transfer_topic_bytes() && shape_error(*log, topic) == Some(e),
{
    let topic = transfer_topic();
    decode_with_topic(log, &topic)
}

/// Whether `t` is the row that a decoded log gives for a token, with the
/// given mark of finality.
pub open spec fn is_row_of(t: Transfer, log: RawLog, event: TransferEvent, token: Address, is_finalized: bool) -> bool {
    &&& Some(t.transaction_hash) == log.transaction_hash
    &&& Some(t.log_index) == log.log_index
    &&& t.token_address == token
    &&& t.from_address == event.from
    &&& t.to_address == event.to
    &&& t.value == event.value
    &&& Some(t.block_number) == log.block_number
    &&& Some(t.block_hash) == log.block_hash
    &&& t.is_finalized == is_finalized
}

/// Whether a log carries its four positions.
pub open spec fn has_positions(log: RawLog) -> bool {
    log.block_number is Some && log.block_hash is Some && log.transaction_hash is Some
        && log.log_index is Some
}

/// The row of a decoded event, or `MissingPosition` where the log lacks one
/// of its positions.
pub fn transfer_row(log: &RawLog, event: &TransferEvent, token: &Address, is_finalized: bool) -> (r:
    Result<Transfer, DecodeError>)
    ensures
        r is Ok <==> has_positions(*log),
        r matches Ok(t) ==> is_row_of(t, *log, *event, *token, is_finalized),
        r matches Err(e) ==> e == DecodeError::MissingPosition,
{
    match (log.block_number, log.block_hash, log.transaction_hash, log.log_index) {
        (Some(block_number), Some(block_hash), Some(transaction_hash), Some(log_index)) => Ok(
            Transfer {
                transaction_hash,
                log_index,
                token_address: *token,
                from_address: event.from,
                to_address: event.to,
                value: event.value,
                block_number,
                block_hash,
                is_finalized,
            },
        ),
        _ => Err(DecodeError::MissingPosition),
    }
}

} // verus!
