//! The insertion worker: takes the scanner's batches in order, inserts their
//! transfers and moves the processed watermark.

use vstd::prelude::*;
use crate::primitives::Address;
use crate::repository::database::Database;
use crate::repository::models::Transfer;
use crate::repository::token_repository::{finalized_block_of, has_token, processed_block_of};
use crate::repository::transfer_repository::insert_rows;

verus! {

/// How many batches may wait between the scanner and the worker.
pub const CHANNEL_DEPTH: usize = 10;

/// The transfers of one fetched window and the last block of that window.
#[derive(Clone, Debug)]
pub struct TransferBatch {
    pub transfers: Vec<Transfer>,
    pub end_block: u64,
}

/// Ingests one batch: inserts its transfers, but for those whose key is
/// taken, then sets the processed watermark of the token to the end of the
/// batch. The ledger and the finalized watermark stay as they are. Returns
/// how many rows went in.
pub fn process_batch(db: &mut Database, contract_address: &Address, batch: &TransferBatch) -> (inserted:
    usize)
    requires
        old(db).wf(),
    ensures
        final(db).wf(),
        final(db).transfers@ == insert_rows(old(db).transfers@, batch.transfers@),
        inserted == final(db).transfers@.len() - old(db).transfers@.len(),
        final(db).balances@ == old(db).balances@,
        has_token(final(db).tokens@, *contract_address) == has_token(
            old(db).tokens@,
            *contract_address,
        ),
        has_token(old(db).tokens@, *contract_address) ==> processed_block_of(
            final(db).tokens@,
            *contract_address,
        ) == Some(batch.end_block),
        forall|a: Address| #[trigger]
            finalized_block_of(final(db).tokens@, a) == finalized_block_of(old(db).tokens@, a),
        forall|a: Address|
            a != *contract_address ==> #[trigger] processed_block_of(final(db).tokens@, a)
                == processed_block_of(old(db).tokens@, a),
{
    let mut inserted: usize = 0;
    if batch.transfers.len() > 0 {
        inserted = db.transfers.insert_batch(&batch.transfers);
    } else {
        assert(batch.transfers@ =~= Seq::<Transfer>::empty());
    }
    db.tokens.update_last_processed_block(contract_address, batch.end_block);
    inserted
}

/// The table after each batch of a queue was ingested, in order.
pub open spec fn ingest_all(rows: Seq<Transfer>, batches: Seq<TransferBatch>) -> Seq<Transfer>
    decreases batches.len(),
{
    if batches.len() == 0 {
        rows
    } else {
        insert_rows(ingest_all(rows, batches.drop_last()), batches.last().transfers@)
    }
}

/// Ingests every batch of a queue, oldest first. The processed watermark
/// ends at the end of the last batch.
pub fn run_insertion_worker(db: &mut Database, contract_address: &Address, batches: &Vec<TransferBatch>)
    requires
        old(db).wf(),
    ensures
        final(db).wf(),
        final(db).transfers@ == ingest_all(old(db).transfers@, batches@),
        final(db).balances@ == old(db).balances@,
        has_token(old(db).tokens@, *contract_address) && batches@.len() > 0 ==> processed_block_of(
            final(db).tokens@,
            *contract_address,
        ) == Some(batches@.last().end_block),
        finalized_block_of(final(db).tokens@, *contract_address) == finalized_block_of(
            old(db).tokens@,
            *contract_address,
        ),
{
    let mut i: usize = 0;
    while i < batches.len()
        invariant
            i <= batches.len(),
            db.wf(),
            db.transfers@ == ingest_all(old(db).transfers@, batches@.take(i as int)),
            db.balances@ == old(db).balances@,
            has_token(db.tokens@, *contract_address) == has_token(old(db).tokens@, *contract_address),
            has_token(old(db).tokens@, *contract_address) && i > 0 ==> processed_block_of(
                db.tokens@,
                *contract_address,
            ) == Some(batches@[i - 1].end_block),
            finalized_block_of(db.tokens@, *contract_address) == finalized_block_of(
                old(db).tokens@,
                *contract_address,
            ),
        decreases batches.len() - i,
    {
        assert(batches@.take(i + 1).drop_last() =~= batches@.take(i as int));
        assert(batches@.take(i + 1).last() == batches@[i as int]);
        process_batch(db, contract_address, &batches[i]);
        i += 1;
    }
    assert(batches@.take(i as int) =~= batches@);
}

} // verus!
