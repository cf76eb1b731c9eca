//! The finality reconciler: compares what the store holds for a window of
//! blocks with what the finalized chain reports, replaces the transfers of
//! blocks that differ, marks the window as finalized and updates the ledger.

use vstd::prelude::*;
use std::collections::{HashMap, HashSet};
use vstd::std_specs::iter::IteratorSpec;
use crate::events::{
    carries, decode_with_topic, has_positions, is_row_of, shape_error, transfer_row, DecodeError, RawLog,
    TransferEvent,
};
use crate::primitives::{Address, B256};
use crate::repository::balance_repository::{credit_sum, debit_sum, next_balance};
use crate::repository::database::Database;
use crate::repository::models::Transfer;
use crate::repository::transfer_repository::{
    count_in_range, delete_blocks, finality_batch, finalize_range, hash_conflict, insert_rows, is_hash_map_of,
    records_hash,
    vec_contains_u64, StoreCorruption,
};
use crate::uint::u256_modulus;

verus! {

/// The hash that the chain reports for block `b`: that of the last of its
/// transfers in the list, or `None` where the list has none of that block.
pub open spec fn chain_hash_of(chain: Seq<Transfer>, b: u64) -> Option<B256>
    decreases chain.len(),
{
    if chain.len() == 0 {
        None
    } else if chain.last().block_number == b {
        Some(chain.last().block_hash)
    } else {
        chain_hash_of(chain.drop_last(), b)
    }
}

/// Whether the store holds a transfer of block `b` within `[from, to]`.
pub open spec fn stored_has(rows: Seq<Transfer>, from: u64, to: u64, b: u64) -> bool {
    exists|i: int|
        0 <= i < rows.len() && (#[trigger] rows[i]).in_range(from, to) && rows[i].block_number == b
}

/// Whether block `b` has to be processed again: the chain reports it with a
/// hash that the store does not record for it, or the store holds transfers
/// of it and the chain reports none.
pub open spec fn is_reorged(chain: Seq<Transfer>, rows: Seq<Transfer>, from: u64, to: u64, b: u64) -> bool {
    match chain_hash_of(chain, b) {
        Some(h) => !records_hash(rows, from, to, b, h),
        None => stored_has(rows, from, to, b),
    }
}

/// The blocks of a window that have to be processed again.
pub open spec fn reorg_set(chain: Seq<Transfer>, rows: Seq<Transfer>, from: u64, to: u64) -> Set<u64> {
    Set::new(|b: u64| is_reorged(chain, rows, from, to, b))
}

/// The same decision as `is_reorged`, taken against the map of stored
/// hashes.
pub open spec fn differs_from_stored(chain: Seq<Transfer>, stored: Map<u64, B256>, b: u64) -> bool {
    match chain_hash_of(chain, b) {
        Some(h) => !(stored.contains_key(b) && stored[b] == h),
        None => stored.contains_key(b),
    }
}

/// The transfers whose block is among `blocks`, in their order.
pub open spec fn keep_blocks(chain: Seq<Transfer>, blocks: Set<u64>) -> Seq<Transfer>
    decreases chain.len(),
{
    if chain.len() == 0 {
        chain
    } else if blocks.contains(chain.last().block_number) {
        keep_blocks(chain.drop_last(), blocks).push(chain.last())
    } else {
        keep_blocks(chain.drop_last(), blocks)
    }
}

/// The chain reports a hash for exactly the blocks of which it lists a
/// transfer, and that hash is the hash of one of them.
pub proof fn lemma_chain_hash(chain: Seq<Transfer>, b: u64)
    ensures
        chain_hash_of(chain, b) is Some <==> exists|i: int|
            0 <= i < chain.len() && (#[trigger] chain[i]).block_number == b,
        chain_hash_of(chain, b) matches Some(h) ==> exists|i: int|
            0 <= i < chain.len() && (#[trigger] chain[i]).block_number == b && chain[i].block_hash == h,
    decreases chain.len(),
{
    if chain.len() > 0 {
        let head = chain.drop_last();
        lemma_chain_hash(head, b);
        if chain.last().block_number == b {
            assert(chain[chain.len() - 1].block_number == b);
        } else {
            if chain_hash_of(head, b) is Some {
                let i = choose|i: int|
                    0 <= i < head.len() && (#[trigger] head[i]).block_number == b && head[i].block_hash
                        == chain_hash_of(head, b)->0;
                assert(chain[i].block_number == b);
            }
            if exists|i: int| 0 <= i < chain.len() && (#[trigger] chain[i]).block_number == b {
                let i = choose|i: int| 0 <= i < chain.len() && (#[trigger] chain[i]).block_number == b;
                assert(head[i].block_number == b);
            }
        }
    }
}

/// The hash that the chain reports for each block of which it reports a
/// transfer.
pub fn chain_block_hashes(chain: &Vec<Transfer>) -> (hashes: HashMap<u64, B256>)
    ensures
        forall|b: u64| hashes@.contains_key(b) <==> chain_hash_of(chain@, b) is Some,
        forall|b: u64| hashes@.contains_key(b) ==> Some(#[trigger] hashes@[b]) == chain_hash_of(chain@, b),
{
    broadcast use vstd::std_specs::hash::group_hash_axioms;
    let mut hashes: HashMap<u64, B256> = HashMap::new();
    let mut i: usize = 0;
    assert(chain@.take(0) =~= Seq::<Transfer>::empty());
    while i < chain.len()
        invariant
            i <= chain.len(),
            forall|b: u64| hashes@.contains_key(b) <==> chain_hash_of(chain@.take(i as int), b) is Some,
            forall|b: u64|
                hashes@.contains_key(b) ==> Some(#[trigger] hashes@[b]) == chain_hash_of(
                    chain@.take(i as int),
                    b,
                ),
        decreases chain.len() - i,
    {
        let t = chain[i];
        proof {
            assert(chain@.take(i + 1).drop_last() =~= chain@.take(i as int));
            assert(chain@.take(i + 1).last() == t);
        }
        hashes.insert(t.block_number, t.block_hash);
        i += 1;
    }
    assert(chain@.take(i as int) =~= chain@);
    hashes
}

/// The blocks of a window that have to be processed again, each once: those
/// that the chain reports with a hash that the store does not record for
/// them, and those that the store records and the chain does not report.
pub fn blocks_to_reprocess(chain: &Vec<Transfer>, stored: &HashMap<u64, B256>) -> (blocks: Vec<u64>)
    ensures
        blocks@.no_duplicates(),
        forall|b: u64| blocks@.contains(b) <==> differs_from_stored(chain@, stored@, b),
{
    broadcast use vstd::std_specs::hash::group_hash_axioms;
    let chain_hashes = chain_block_hashes(chain);
    let mut differing: HashSet<u64> = HashSet::new();
    let mut i: usize = 0;
    while i < chain.len()
        invariant
            i <= chain.len(),
            forall|b: u64| chain_hashes@.contains_key(b) <==> chain_hash_of(chain@, b) is Some,
            forall|b: u64|
                chain_hashes@.contains_key(b) ==> Some(#[trigger] chain_hashes@[b]) == chain_hash_of(
                    chain@,
                    b,
                ),
            forall|b: u64|
                differing@.contains(b) <==> differs_from_stored(chain@, stored@, b) && exists|j: int|
                    0 <= j < i && (#[trigger] chain@[j]).block_number == b,
        decreases chain.len() - i,
    {
        let b = chain[i].block_number;
        let ghost before = differing@;
        proof {
            lemma_chain_hash(chain@, b);
            assert(chain@[i as int].block_number == b);
            assert(chain_hashes@.contains_key(b));
        }
        let differs = match (chain_hashes.get(&b), stored.get(&b)) {
            (Some(h), Some(known)) => *known != *h,
            (Some(_), None) => true,
            (None, _) => false,
        };
        assert(differs == differs_from_stored(chain@, stored@, b));
        if differs {
            differing.insert(b);
        }
        proof {
            assert forall|x: u64|
                differing@.contains(x) <==> differs_from_stored(chain@, stored@, x) && exists|j: int|
                    0 <= j < i + 1 && (#[trigger] chain@[j]).block_number == x by {
                if before.contains(x) {
                    let j = choose|j: int| 0 <= j < i && (#[trigger] chain@[j]).block_number == x;
                    assert(chain@[j].block_number == x);
                }
                if differing@.contains(x) && !before.contains(x) {
                    assert(x == b);
                    assert(chain@[i as int].block_number == x);
                }
                if differs_from_stored(chain@, stored@, x) && exists|j: int|
                    0 <= j < i + 1 && (#[trigger] chain@[j]).block_number == x {
                    let j = choose|j: int| 0 <= j < i + 1 && (#[trigger] chain@[j]).block_number == x;
                    if j < i {
                        assert(before.contains(x));
                    } else {
                        assert(x == b);
                    }
                }
            }
        }
        i += 1;
    }
    let keys = stored_blocks(stored);
    proof {
        assert forall|b: u64|
            differing@.contains(b) <==> differs_from_stored(chain@, stored@, b) && (chain_hash_of(
                chain@,
                b,
            ) is Some || exists|j: int| 0 <= j < 0 && (#[trigger] keys@[j]) == b) by {
            lemma_chain_hash(chain@, b);
            if differing@.contains(b) {
                let j = choose|j: int| 0 <= j < i && (#[trigger] chain@[j]).block_number == b;
                assert(chain@[j].block_number == b);
            }
        }
    }
    let mut k: usize = 0;
    while k < keys.len()
        invariant
            k <= keys.len(),
            forall|b: u64| chain_hashes@.contains_key(b) <==> chain_hash_of(chain@, b) is Some,
            forall|b: u64| keys@.contains(b) <==> stored@.contains_key(b),
            forall|b: u64|
                differing@.contains(b) <==> differs_from_stored(chain@, stored@, b) && (chain_hash_of(
                    chain@,
                    b,
                ) is Some || exists|j: int| 0 <= j < k && (#[trigger] keys@[j]) == b),
        decreases keys.len() - k,
    {
        let b = keys[k];
        let ghost before = differing@;
        proof {
            lemma_chain_hash(chain@, b);
            assert(keys@.contains(keys@[k as int]));
        }
        if !chain_hashes.contains_key(&b) {
            differing.insert(b);
        }
        proof {
            assert forall|x: u64|
                differing@.contains(x) <==> differs_from_stored(chain@, stored@, x) && (chain_hash_of(
                    chain@,
                    x,
                ) is Some || exists|j: int| 0 <= j < k + 1 && (#[trigger] keys@[j]) == x) by {
                if before.contains(x) && chain_hash_of(chain@, x) is None {
                    let j = choose|j: int| 0 <= j < k && (#[trigger] keys@[j]) == x;
                    assert(keys@[j] == x);
                }
                if differing@.contains(x) && !before.contains(x) {
                    assert(x == b);
                    assert(keys@[k as int] == x);
                }
                if differs_from_stored(chain@, stored@, x) && chain_hash_of(chain@, x) is None && exists|j: int|
                    0 <= j < k + 1 && (#[trigger] keys@[j]) == x {
                    let j = choose|j: int| 0 <= j < k + 1 && (#[trigger] keys@[j]) == x;
                    if j < k {
                        assert(before.contains(x));
                    } else {
                        assert(x == b);
                    }
                }
            }
        }
        k += 1;
    }
    proof {
        assert forall|b: u64| differing@.contains(b) <==> differs_from_stored(chain@, stored@, b) by {
            lemma_chain_hash(chain@, b);
            if differs_from_stored(chain@, stored@, b) && chain_hash_of(chain@, b) is None {
                assert(keys@.contains(b));
                let j = choose|j: int| 0 <= j < keys@.len() && keys@[j] == b;
                assert(keys@[j] == b);
            }
        }
    }
    blocks_of(&differing)
}

/// The blocks of a set, each once.
pub fn blocks_of(set: &HashSet<u64>) -> (r: Vec<u64>)
    ensures
        r@.no_duplicates(),
        forall|b: u64| r@.contains(b) <==> set@.contains(b),
{
    broadcast use vstd::std_specs::hash::group_hash_axioms;
    let ghost items = vstd::std_specs::hash::spec_hash_keys_iter(set).remaining().unref();
    let mut out: Vec<u64> = Vec::new();
    for b in it: set.iter()
        invariant
            it.seq().unref() == items,
            out@ == items.take(it.index() as int),
    {
        assert(items.take(it.index() + 1) =~= items.take(it.index() as int).push(*b));
        out.push(*b);
    }
    proof {
        assert(out@ =~= items);
        assert(items.to_set() == set@);
        assert forall|b: u64| out@.contains(b) <==> set@.contains(b) by {
            assert(items.to_set().contains(b) <==> items.contains(b));
        }
    }
    out
}

/// The blocks for which a map of stored hashes has an entry, each once.
pub fn stored_blocks(stored: &HashMap<u64, B256>) -> (r: Vec<u64>)
    ensures
        r@.no_duplicates(),
        forall|b: u64| r@.contains(b) <==> stored@.contains_key(b),
{
    broadcast use vstd::std_specs::hash::group_hash_axioms;
    let ghost keys = vstd::std_specs::hash::spec_keys_iter(stored).remaining().unref();
    let mut out: Vec<u64> = Vec::new();
    for b in it: stored.keys()
        invariant
            it.seq().unref() == keys,
            out@ == keys.take(it.index() as int),
    {
        assert(keys.take(it.index() + 1) =~= keys.take(it.index() as int).push(*b));
        out.push(*b);
    }
    proof {
        assert(out@ =~= keys);
        assert(keys.to_set() == stored@.dom());
        assert forall|b: u64| out@.contains(b) <==> stored@.contains_key(b) by {
            assert(keys.to_set().contains(b) <==> keys.contains(b));
        }
    }
    out
}

/// The transfers that the chain reports for the given blocks, in the order
/// in which it reports them.
pub fn replacement_transfers(chain: &Vec<Transfer>, blocks: &Vec<u64>) -> (r: Vec<Transfer>)
    ensures
        r@ == keep_blocks(chain@, blocks@.to_set()),
{
    let mut kept: Vec<Transfer> = Vec::new();
    let mut i: usize = 0;
    while i < chain.len()
        invariant
            i <= chain.len(),
            kept@ == keep_blocks(chain@.take(i as int), blocks@.to_set()),
        decreases chain.len() - i,
    {
        assert(chain@.take(i + 1).drop_last() =~= chain@.take(i as int));
        let t = chain[i];
        if vec_contains_u64(blocks, t.block_number) {
            kept.push(t);
        }
        i += 1;
    }
    assert(chain@.take(i as int) =~= chain@);
    kept
}

/// The blocks that differ from the map of stored hashes are the blocks that
/// have to be processed again in the table that the map was read from.
pub proof fn lemma_plan_matches_rows(
    rows: Seq<Transfer>,
    stored: Map<u64, B256>,
    chain: Seq<Transfer>,
    blocks: Seq<u64>,
    from: u64,
    to: u64,
)
    requires
        is_hash_map_of(stored, rows, from, to),
        forall|b: u64| blocks.contains(b) <==> differs_from_stored(chain, stored, b),
    ensures
        blocks.to_set() == reorg_set(chain, rows, from, to),
{
    assert forall|b: u64| blocks.to_set().contains(b) <==> reorg_set(chain, rows, from, to).contains(b) by {
        if stored.contains_key(b) {
            assert(records_hash(rows, from, to, b, stored[b]));
            let i = choose|i: int|
                0 <= i < rows.len() && (#[trigger] rows[i]).in_range(from, to) && rows[i].block_number == b
                    && rows[i].block_hash == stored[b];
            assert(rows[i].in_range(from, to));
        }
        if stored_has(rows, from, to, b) {
            let i = choose|i: int|
                0 <= i < rows.len() && (#[trigger] rows[i]).in_range(from, to) && rows[i].block_number == b;
            assert(records_hash(rows, from, to, b, rows[i].block_hash));
        }
        if chain_hash_of(chain, b) is Some {
            let h = chain_hash_of(chain, b)->0;
            assert((stored.contains_key(b) && stored[b] == h) <==> records_hash(rows, from, to, b, h));
        }
    }
    assert(blocks.to_set() =~= reorg_set(chain, rows, from, to));
}

/// Reconciles one window of blocks with the transfers that the finalized
/// chain reports for it. The transfers of every block that differs are
/// deleted and those that the chain reports for it inserted; the window is
/// marked as finalized; the ledger takes in every reported transfer that is
/// marked as finalized. Returns how many rows were deleted, inserted and
/// marked, or what makes the store corrupt, in which case nothing changes.
pub fn reconcile_window(db: &mut Database, from: u64, to: u64, chain_transfers: &Vec<Transfer>) -> (r:
    Result<(usize, usize, usize), StoreCorruption>)
    requires
        old(db).wf(),
    ensures
        final(db).wf(),
        r is Err <==> hash_conflict(old(db).transfers@, from, to),
        r is Err ==> *final(db) == *old(db),
        final(db).tokens == old(db).tokens,
        final(db).db_path == old(db).db_path,
        final(db).applied_migrations == old(db).applied_migrations,
        r matches Ok(counts) ==> {
            let before = old(db).transfers@;
            let blocks = reorg_set(chain_transfers@, before, from, to);
            let kept = delete_blocks(before, blocks);
            let replaced = insert_rows(kept, keep_blocks(chain_transfers@, blocks));
            &&& final(db).transfers@ == finality_batch(
                before,
                blocks,
                keep_blocks(chain_transfers@, blocks),
                from,
                to,
            )
            &&& counts.0 == before.len() - kept.len()
            &&& counts.1 == replaced.len() - kept.len()
            &&& counts.2 == count_in_range(final(db).transfers@, from, to)
            &&& forall|a: Address|
                #[trigger] final(db).balances.balance(a) == next_balance(
                    old(db).balances.balance(a),
                    credit_sum(chain_transfers@, a) % u256_modulus(),
                    debit_sum(chain_transfers@, a) % u256_modulus(),
                )
        },
{
    let stored = match db.transfers.get_block_hashes_in_range(from, to) {
        Ok(pairs) => pairs,
        Err(e) => {
            return Err(e);
        },
    };
    let blocks = blocks_to_reprocess(chain_transfers, &stored);
    let replacements = replacement_transfers(chain_transfers, &blocks);
    proof {
        lemma_plan_matches_rows(db.transfers@, stored@, chain_transfers@, blocks@, from, to);
    }
    let counts = db.transfers.process_finality_batch(&blocks, &replacements, from, to);
    db.balances.apply_transfers(chain_transfers);
    Ok(counts)
}

/// The transfers kept for a set of blocks are the reported transfers of
/// those blocks, all of them.
pub proof fn lemma_keep_blocks(chain: Seq<Transfer>, blocks: Set<u64>)
    ensures
        forall|i: int|
            0 <= i < keep_blocks(chain, blocks).len() ==> chain.contains(
                #[trigger] keep_blocks(chain, blocks)[i],
            ) && blocks.contains(keep_blocks(chain, blocks)[i].block_number),
        forall|j: int|
            0 <= j < chain.len() && blocks.contains((#[trigger] chain[j]).block_number) ==> keep_blocks(
                chain,
                blocks,
            ).contains(chain[j]),
    decreases chain.len(),
{
    let out = keep_blocks(chain, blocks);
    if chain.len() > 0 {
        let head = chain.drop_last();
        let sub = keep_blocks(head, blocks);
        lemma_keep_blocks(head, blocks);
        assert forall|i: int| 0 <= i < out.len() implies chain.contains(#[trigger] out[i])
            && blocks.contains(out[i].block_number) by {
            if i < sub.len() {
                assert(out[i] == sub[i]);
                let j = choose|j: int| 0 <= j < head.len() && head[j] == sub[i];
                assert(chain[j] == sub[i]);
            } else {
                assert(chain[chain.len() - 1] == out[i]);
            }
        }
        assert forall|j: int|
            0 <= j < chain.len() && blocks.contains((#[trigger] chain[j]).block_number) implies out.contains(
            chain[j],
        ) by {
            if j < head.len() {
                assert(head[j] == chain[j]);
                let k = choose|k: int| 0 <= k < sub.len() && sub[k] == head[j];
                assert(out[k] == chain[j]);
            } else {
                assert(out[sub.len() as int] == chain[j]);
            }
        }
    }
}

/// Whether no transfer at or below block `w` is left unfinalized.
pub open spec fn finalized_up_to(rows: Seq<Transfer>, w: u64) -> bool {
    forall|i: int| 0 <= i < rows.len() && (#[trigger] rows[i]).block_number <= w ==> rows[i].is_finalized
}

/// Whether every transfer of the list is marked as finalized.
pub open spec fn all_finalized(ts: Seq<Transfer>) -> bool {
    forall|i: int| 0 <= i < ts.len() ==> (#[trigger] ts[i]).is_finalized
}

/// Whether every transfer of the list lies in `[from, to]`.
pub open spec fn all_in_range(ts: Seq<Transfer>, from: u64, to: u64) -> bool {
    forall|i: int| 0 <= i < ts.len() ==> (#[trigger] ts[i]).in_range(from, to)
}

/// Whether the list gives each block one hash.
pub open spec fn one_hash_per_block(ts: Seq<Transfer>) -> bool {
    forall|i: int, j: int|
        0 <= i < ts.len() && 0 <= j < ts.len() && (#[trigger] ts[i]).block_number == (
        #[trigger] ts[j]).block_number ==> ts[i].block_hash == ts[j].block_hash
}

/// A finality batch leaves no unfinalized transfer at or below the end of
/// its window, where none was left below the start of the window and the
/// replacements are marked as finalized.
pub proof fn lemma_window_finalizes(
    rows: Seq<Transfer>,
    blocks: Set<u64>,
    replacements: Seq<Transfer>,
    from: u64,
    to: u64,
)
    requires
        forall|i: int|
            0 <= i < rows.len() && (#[trigger] rows[i]).block_number < from ==> rows[i].is_finalized,
        all_finalized(replacements),
    ensures
        finalized_up_to(finality_batch(rows, blocks, replacements, from, to), to),
{
    let kept = delete_blocks(rows, blocks);
    let replaced = insert_rows(kept, replacements);
    let out = finality_batch(rows, blocks, replacements, from, to);
    crate::repository::transfer_repository::lemma_delete_blocks_subseq(rows, blocks);
    crate::repository::transfer_repository::lemma_insert_rows(kept, replacements);
    assert forall|i: int| 0 <= i < out.len() && (#[trigger] out[i]).block_number <= to implies out[i].is_finalized by {
        let r = replaced[i];
        if r.in_range(from, to) {
        } else {
            assert(out[i] == r);
            assert(r.block_number < from);
            if kept.contains(r) {
                let k = choose|k: int| 0 <= k < kept.len() && kept[k] == r;
                assert(rows.contains(kept[k]));
                let j = choose|j: int| 0 <= j < rows.len() && rows[j] == r;
                assert(rows[j].is_finalized);
            } else {
                let k = choose|k: int| 0 <= k < replacements.len() && replacements[k] == r;
                assert(replacements[k].is_finalized);
            }
        }
    }
}

/// Reconciling a window a second time against the same report of the chain
/// deletes nothing and inserts nothing. The report has to lie within the
/// window and give each block one hash, and the store must not record two
/// hashes for a block of the window.
pub proof fn lemma_reconcile_twice(rows: Seq<Transfer>, chain: Seq<Transfer>, from: u64, to: u64)
    requires
        !hash_conflict(rows, from, to),
        one_hash_per_block(chain),
        all_in_range(chain, from, to),
    ensures
        ({
            let first = reorg_set(chain, rows, from, to);
            let after = finality_batch(rows, first, keep_blocks(chain, first), from, to);
            let second = reorg_set(chain, after, from, to);
            &&& !hash_conflict(after, from, to)
            &&& delete_blocks(after, second) == after
            &&& insert_rows(after, keep_blocks(chain, second)) == after
        }),
{
    let s1 = reorg_set(chain, rows, from, to);
    let kept = delete_blocks(rows, s1);
    let r1 = keep_blocks(chain, s1);
    let ins = insert_rows(kept, r1);
    let after = finality_batch(rows, s1, r1, from, to);
    let s2 = reorg_set(chain, after, from, to);
    let r2 = keep_blocks(chain, s2);
    crate::repository::transfer_repository::lemma_delete_blocks_subseq(rows, s1);
    crate::repository::transfer_repository::lemma_insert_rows(kept, r1);
    crate::repository::transfer_repository::lemma_finalize_keeps_keys(ins, from, to);
    lemma_keep_blocks(chain, s1);
    lemma_keep_blocks(chain, s2);
    // Every row of the window carries the hash that the chain reports for its block.
    assert forall|i: int| 0 <= i < after.len() && (#[trigger] after[i]).in_range(from, to) implies chain_hash_of(
        chain,
        after[i].block_number,
    ) == Some(after[i].block_hash) by {
        let r = ins[i];
        let b = r.block_number;
        assert(after[i].block_number == b && after[i].block_hash == r.block_hash);
        lemma_chain_hash(chain, b);
        if kept.contains(r) {
            let k = choose|k: int| 0 <= k < kept.len() && kept[k] == r;
            assert(rows.contains(kept[k]) && !s1.contains(kept[k].block_number));
            let j = choose|j: int| 0 <= j < rows.len() && rows[j] == r;
            assert(rows[j].in_range(from, to));
            assert(!is_reorged(chain, rows, from, to, b));
            assert(stored_has(rows, from, to, b));
            let hc = chain_hash_of(chain, b)->0;
            let w = choose|w: int|
                0 <= w < rows.len() && (#[trigger] rows[w]).in_range(from, to) && rows[w].block_number
                    == b && rows[w].block_hash == hc;
            assert(rows[w].block_number == rows[j].block_number);
        } else {
            let k = choose|k: int| 0 <= k < r1.len() && r1[k] == r;
            assert(chain.contains(r1[k]));
            let j = choose|j: int| 0 <= j < chain.len() && chain[j] == r;
            assert(chain[j].block_number == b);
            let hc = chain_hash_of(chain, b)->0;
            let w = choose|w: int|
                0 <= w < chain.len() && (#[trigger] chain[w]).block_number == b && chain[w].block_hash
                    == hc;
            assert(chain[w].block_number == chain[j].block_number);
        }
    }
    assert(!hash_conflict(after, from, to)) by {
        if hash_conflict(after, from, to) {
            let (x, y) = choose|x: int, y: int|
                0 <= x < after.len() && 0 <= y < after.len() && (#[trigger] after[x]).in_range(from, to)
                    && after[x].block_number == (#[trigger] after[y]).block_number
                    && after[x].block_hash != after[y].block_hash;
            assert(after[y].in_range(from, to));
        }
    }
    // A block of the second round is one that the chain reports and of which the store has no row.
    assert forall|b: u64| s2.contains(b) implies chain_hash_of(chain, b) is Some && !stored_has(
        after,
        from,
        to,
        b,
    ) by {
        if stored_has(after, from, to, b) {
            let i = choose|i: int|
                0 <= i < after.len() && (#[trigger] after[i]).in_range(from, to) && after[i].block_number
                    == b;
            assert(chain_hash_of(chain, b) == Some(after[i].block_hash));
            assert(records_hash(after, from, to, b, after[i].block_hash));
        }
    }
    assert forall|i: int| 0 <= i < after.len() implies !s2.contains((#[trigger] after[i]).block_number) by {
        let b = after[i].block_number;
        if s2.contains(b) {
            lemma_chain_hash(chain, b);
            let w = choose|w: int| 0 <= w < chain.len() && (#[trigger] chain[w]).block_number == b;
            assert(chain[w].in_range(from, to));
            assert(after[i].in_range(from, to));
        }
    }
    crate::repository::transfer_repository::lemma_delete_nothing(after, s2);
    assert forall|j: int| 0 <= j < r2.len() implies crate::repository::transfer_repository::has_key(
        after,
        #[trigger] r2[j],
    ) by {
        let t = r2[j];
        let b = t.block_number;
        assert(chain.contains(t) && s2.contains(b));
        let c = choose|c: int| 0 <= c < chain.len() && chain[c] == t;
        lemma_chain_hash(chain, b);
        assert(chain[c].block_number == b);
        if !s1.contains(b) {
            assert(!is_reorged(chain, rows, from, to, b));
            let hc = chain_hash_of(chain, b)->0;
            let w = choose|w: int|
                0 <= w < rows.len() && (#[trigger] rows[w]).in_range(from, to) && rows[w].block_number
                    == b && rows[w].block_hash == hc;
            crate::repository::transfer_repository::lemma_delete_keeps(rows, s1, w);
            let k = choose|k: int| 0 <= k < kept.len() && kept[k] == rows[w];
            assert(ins[k] == kept[k]);
            assert(after[k].in_range(from, to) && after[k].block_number == b);
            assert(false);
        }
        assert(r1.contains(chain[c]));
        let k = choose|k: int| 0 <= k < r1.len() && r1[k] == t;
        assert(crate::repository::transfer_repository::has_key(ins, r1[k]));
    }
    crate::repository::transfer_repository::lemma_insert_nothing(after, r2);
}

/// The mark of finality that a transfer of block `block` gets when it is
/// ingested: whether the block is at or below the finalized watermark.
pub open spec fn finalized_tag(watermark: Option<u64>, block: u64) -> bool {
    match watermark {
        Some(w) => block <= w,
        None => false,
    }
}

/// What is wrong with a log, if anything: its shape first, then a missing
/// position.
pub open spec fn log_error(log: RawLog, topic: B256) -> Option<DecodeError> {
    match shape_error(log, topic) {
        Some(e) => Some(e),
        None => if has_positions(log) {
            None
        } else {
            Some(DecodeError::MissingPosition)
        },
    }
}

/// Whether `t` is the row that a log gives for a token under a finalized
/// watermark.
pub open spec fn decodes_to(log: RawLog, topic: B256, token: Address, watermark: Option<u64>, t: Transfer) -> bool {
    let event = TransferEvent { from: t.from_address, to: t.to_address, value: t.value };
    &&& log_error(log, topic) is None
    &&& carries(log, event)
    &&& is_row_of(t, log, event, token, finalized_tag(watermark, t.block_number))
}

/// What is wrong with the first log of a list that has something wrong, if
/// any has.
pub open spec fn first_log_error(logs: Seq<RawLog>, topic: B256) -> Option<DecodeError>
    decreases logs.len(),
{
    if logs.len() == 0 {
        None
    } else {
        match first_log_error(logs.drop_last(), topic) {
            Some(e) => Some(e),
            None => log_error(logs.last(), topic),
        }
    }
}

/// The row that a log gives for a token under a finalized watermark;
/// meaningful for a log with nothing wrong.
pub open spec fn decoded_row(log: RawLog, topic: B256, token: Address, watermark: Option<u64>) -> Transfer {
    choose|t: Transfer| decodes_to(log, topic, token, watermark, t)
}

/// The rows that the logs of a list give, log by log.
pub open spec fn decoded_chain(
    logs: Seq<RawLog>,
    topic: B256,
    token: Address,
    watermark: Option<u64>,
) -> Seq<Transfer> {
    Seq::new(logs.len(), |i: int| decoded_row(logs[i], topic, token, watermark))
}

/// Whether each row of what the logs decode to is the row that its log
/// gives.
pub open spec fn rows_decode(logs: Seq<RawLog>, topic: B256, token: Address, watermark: Option<u64>) -> bool {
    forall|i: int|
        0 <= i < logs.len() ==> decodes_to(
            #[trigger] logs[i],
            topic,
            token,
            watermark,
            decoded_chain(logs, topic, token, watermark)[i],
        )
}

/// A log gives one row only.
pub proof fn lemma_decodes_unique(
    log: RawLog,
    topic: B256,
    token: Address,
    watermark: Option<u64>,
    t1: Transfer,
    t2: Transfer,
)
    requires
        decodes_to(log, topic, token, watermark, t1),
        decodes_to(log, topic, token, watermark, t2),
    ensures
        t1 == t2,
        t1 == decoded_row(log, topic, token, watermark),
{
    crate::uint::lemma_view_injective(t1.value, t2.value);
    assert(t1.from_address.bytes =~= t2.from_address.bytes);
    assert(t1.to_address.bytes =~= t2.to_address.bytes);
    let c = decoded_row(log, topic, token, watermark);
    crate::uint::lemma_view_injective(t1.value, c.value);
    assert(t1.from_address.bytes =~= c.from_address.bytes);
    assert(t1.to_address.bytes =~= c.to_address.bytes);
}

/// No log of a list has something wrong exactly where the list has no
/// first error.
pub proof fn lemma_first_log_error(logs: Seq<RawLog>, topic: B256)
    ensures
        first_log_error(logs, topic) is None <==> forall|i: int|
            0 <= i < logs.len() ==> log_error(#[trigger] logs[i], topic) is None,
        first_log_error(logs, topic) matches Some(e) ==> exists|i: int|
            0 <= i < logs.len() && log_error(#[trigger] logs[i], topic) == Some(e),
    decreases logs.len(),
{
    if logs.len() > 0 {
        let head = logs.drop_last();
        lemma_first_log_error(head, topic);
        if first_log_error(head, topic) is Some {
            let e = first_log_error(head, topic)->0;
            let i = choose|i: int| 0 <= i < head.len() && log_error(#[trigger] head[i], topic) == Some(e);
            assert(log_error(logs[i], topic) == Some(e));
        } else {
            assert forall|i: int| 0 <= i < head.len() implies log_error(#[trigger] logs[i], topic) is None by {
                assert(head[i] == logs[i]);
            }
            if log_error(logs.last(), topic) is Some {
                assert(log_error(logs[logs.len() - 1], topic) is Some);
            } else {
                assert forall|i: int| 0 <= i < logs.len() implies log_error(#[trigger] logs[i], topic) is None by {
                    if i < head.len() {
                        assert(head[i] == logs[i]);
                    }
                }
            }
        }
    }
}

/// Decodes the logs of one fetch into rows, in order. Each row is marked as
/// finalized where its block is at or below the watermark. The first log
/// that is no transfer event, or lacks a position, fails the whole list
/// with what is wrong with it.
pub fn decode_logs(logs: &Vec<RawLog>, topic: &B256, token: &Address, watermark: Option<u64>) -> (r:
    Result<Vec<Transfer>, DecodeError>)
    ensures
        r matches Ok(ts) ==> first_log_error(logs@, *topic) is None && ts@ == decoded_chain(
            logs@,
            *topic,
            *token,
            watermark,
        ) && rows_decode(logs@, *topic, *token, watermark),
        r matches Err(e) ==> first_log_error(logs@, *topic) == Some(e),
{
    let mut rows: Vec<Transfer> = Vec::new();
    let mut i: usize = 0;
    assert(logs@.take(0) =~= Seq::<RawLog>::empty());
    while i < logs.len()
        invariant
            i <= logs.len(),
            rows@.len() == i,
            first_log_error(logs@.take(i as int), *topic) is None,
            forall|j: int|
                0 <= j < i ==> decodes_to(#[trigger] logs@[j], *topic, *token, watermark, rows@[j]),
        decreases logs.len() - i,
    {
        let log = &logs[i];
        proof {
            assert(logs@.take(i + 1).drop_last() =~= logs@.take(i as int));
            assert(logs@.take(i + 1).last() == logs@[i as int]);
        }
        let event = match decode_with_topic(log, topic) {
            Ok(event) => event,
            Err(e) => {
                proof {
                    assert(log_error(logs@[i as int], *topic) == Some(e));
                    assert(first_log_error(logs@.take(i + 1), *topic) == Some(e));
                    lemma_first_error_of_prefix(logs@, *topic, i + 1);
                }
                return Err(e);
            },
        };
        let tag = match (log.block_number, watermark) {
            (Some(b), Some(w)) => b <= w,
            _ => false,
        };
        let row = match transfer_row(log, &event, token, tag) {
            Ok(row) => row,
            Err(e) => {
                proof {
                    assert(log_error(logs@[i as int], *topic) == Some(e));
                    assert(first_log_error(logs@.take(i + 1), *topic) == Some(e));
                    lemma_first_error_of_prefix(logs@, *topic, i + 1);
                }
                return Err(e);
            },
        };
        assert(log_error(logs@[i as int], *topic) is None);
        assert(first_log_error(logs@.take(i + 1), *topic) is None);
        rows.push(row);
        i += 1;
    }
    proof {
        assert(logs@.take(i as int) =~= logs@);
        assert(rows@ =~= decoded_chain(logs@, *topic, *token, watermark)) by {
            assert forall|j: int| 0 <= j < rows@.len() implies rows@[j] == decoded_chain(
                logs@,
                *topic,
                *token,
                watermark,
            )[j] by {
                lemma_decodes_unique(logs@[j], *topic, *token, watermark, rows@[j], rows@[j]);
            }
        }
    }
    Ok(rows)
}

/// The first error of a list is that of its first part that has one.
pub proof fn lemma_first_error_of_prefix(logs: Seq<RawLog>, topic: B256, k: int)
    requires
        0 <= k <= logs.len(),
        first_log_error(logs.take(k), topic) is Some,
    ensures
        first_log_error(logs, topic) == first_log_error(logs.take(k), topic),
    decreases logs.len() - k,
{
    if k < logs.len() {
        assert(logs.take(k + 1).drop_last() =~= logs.take(k));
        lemma_first_error_of_prefix(logs, topic, k + 1);
    } else {
        assert(logs.take(k) =~= logs);
    }
}

/// The block up to which a tick of the reconciler works: the smaller of the
/// chain's finalized block and the last processed block, or `None` where
/// that is not beyond the finalized watermark.
pub fn finality_target(last_finalized: u64, last_processed: u64, chain_finalized: u64) -> (r: Option<u64>)
    ensures
        r == (if chain_finalized <= last_processed {
            if chain_finalized > last_finalized {
                Some(chain_finalized)
            } else {
                None
            }
        } else {
            if last_processed > last_finalized {
                Some(last_processed)
            } else {
                None
            }
        }),
{
    let target = if chain_finalized <= last_processed {
        chain_finalized
    } else {
        last_processed
    };
    if target <= last_finalized {
        None
    } else {
        Some(target)
    }
}

/// The last block of the chunk that starts at `from`: `batch_size` blocks
/// on, but no further than `target`.
pub fn window_end(from: u64, batch_size: u64, target: u64) -> (to: u64)
    requires
        batch_size >= 1,
        from <= target,
    ensures
        to == (if from + batch_size - 1 <= target {
            (from + batch_size - 1) as u64
        } else {
            target
        }),
        from <= to <= target,
{
    if batch_size - 1 <= target - from {
        from + (batch_size - 1)
    } else {
        target
    }
}

/// One tick of the reconciler in progress: the window that it walks and
/// how far it has come.
#[derive(Clone, Copy, Debug)]
pub struct FinalityRun {
    /// Whether this is the tick at startup, before any forward scan.
    pub is_initial: bool,
    /// The chain's finalized block when the tick began.
    pub chain_finalized: u64,
    /// The last block that the tick reconciles.
    pub target: u64,
    /// The first block of the next chunk, or `None` when every chunk is done.
    pub next_from: Option<u64>,
}

impl FinalityRun {
    /// Whether the run is well formed: what is left to do lies within the
    /// window.
    pub open spec fn wf(&self) -> bool {
        self.next_from matches Some(f) ==> f <= self.target
    }

    /// Begins a tick. A watermark that the store does not have counts as
    /// zero. Returns `None` where there is nothing to reconcile.
    pub fn start(
        last_finalized: Option<u64>,
        last_processed: Option<u64>,
        chain_finalized: u64,
        is_initial: bool,
    ) -> (r: Option<FinalityRun>)
        ensures
            ({
                let finalized = match last_finalized {
                    Some(b) => b,
                    None => 0,
                };
                let processed = match last_processed {
                    Some(b) => b,
                    None => 0,
                };
                let target = if chain_finalized <= processed {
                    chain_finalized
                } else {
                    processed
                };
                r == (if target <= finalized {
                    None
                } else {
                    Some(
                        FinalityRun {
                            is_initial,
                            chain_finalized,
                            target,
                            next_from: Some((finalized + 1) as u64),
                        },
                    )
                })
            }),
            r matches Some(run) ==> run.wf(),
    {
        let finalized = match last_finalized {
            Some(b) => b,
            None => 0,
        };
        let processed = match last_processed {
            Some(b) => b,
            None => 0,
        };
        match finality_target(finalized, processed, chain_finalized) {
            Some(target) => Some(
                FinalityRun { is_initial, chain_finalized, target, next_from: Some(finalized + 1) },
            ),
            None => None,
        }
    }

    /// The next chunk to fetch and reconcile, or `None` when the window is
    /// done.
    pub fn next_window(&self, batch_size: u64) -> (r: Option<(u64, u64)>)
        requires
            self.wf(),
            batch_size >= 1,
        ensures
            r is Some <==> self.next_from is Some,
            r matches Some(w) ==> Some(w.0) == self.next_from && w.0 <= w.1 <= self.target && w.1 == (
            if w.0 + batch_size - 1 <= self.target {
                (w.0 + batch_size - 1) as u64
            } else {
                self.target
            }),
    {
        match self.next_from {
            Some(from) => Some((from, window_end(from, batch_size, self.target))),
            None => None,
        }
    }

    /// Records that the chunk ending at `window_to` is reconciled.
    pub fn advance(&mut self, window_to: u64)
        requires
            old(self).wf(),
            old(self).next_from matches Some(f) && f <= window_to <= old(self).target,
        ensures
            final(self).wf(),
            final(self).next_from == (if window_to == old(self).target {
                None
            } else {
                Some((window_to + 1) as u64)
            }),
            final(self).is_initial == old(self).is_initial,
            final(self).chain_finalized == old(self).chain_finalized,
            final(self).target == old(self).target,
    {
        if window_to == self.target {
            self.next_from = None;
        } else {
            self.next_from = Some(window_to + 1);
        }
    }

    /// The finalized watermark to write when every chunk is done: the
    /// chain's finalized block at startup, the target of the tick otherwise.
    pub fn watermark(&self) -> (w: u64)
        ensures
            w == (if self.is_initial {
                self.chain_finalized
            } else {
                self.target
            }),
    {
        if self.is_initial {
            self.chain_finalized
        } else {
            self.target
        }
    }
}

/// The table after one window was reconciled with what the chain reports
/// for it.
pub open spec fn window_rows(rows: Seq<Transfer>, chain: Seq<Transfer>, from: u64, to: u64) -> Seq<Transfer> {
    let blocks = reorg_set(chain, rows, from, to);
    finality_batch(rows, blocks, keep_blocks(chain, blocks), from, to)
}

/// The balance of an address after the ledger took in what the chain
/// reports for one window.
pub open spec fn window_balance(balance: nat, chain: Seq<Transfer>, a: Address) -> nat {
    next_balance(balance, credit_sum(chain, a) % u256_modulus(), debit_sum(chain, a) % u256_modulus())
}

/// The last block of the chunk that starts at `from`.
pub open spec fn chunk_end(from: u64, batch_size: u64, target: u64) -> u64 {
    if from + batch_size - 1 <= target {
        (from + batch_size - 1) as u64
    } else {
        target
    }
}

/// How many chunks of `batch_size` blocks the window from `first` to
/// `target` has.
pub open spec fn windows_needed(first: u64, batch_size: u64, target: u64) -> nat {
    ((target - first) / (batch_size as int) + 1) as nat
}

/// The table after the chunks of a window were reconciled in order, each
/// with what the chain reports for it. Chunk `k` starts `k` batches after
/// `first`.
pub open spec fn rows_after_windows(
    rows: Seq<Transfer>,
    chains: Seq<Seq<Transfer>>,
    first: u64,
    batch_size: u64,
    target: u64,
) -> Seq<Transfer>
    decreases chains.len(),
{
    if chains.len() == 0 {
        rows
    } else {
        let before = rows_after_windows(rows, chains.drop_last(), first, batch_size, target);
        let from = (first + (chains.len() - 1) * batch_size) as u64;
        window_rows(before, chains.last(), from, chunk_end(from, batch_size, target))
    }
}

/// The balance of an address after the ledger took in what the chain
/// reports for each chunk, in order.
pub open spec fn balance_after_windows(balance: nat, chains: Seq<Seq<Transfer>>, a: Address) -> nat
    decreases chains.len(),
{
    if chains.len() == 0 {
        balance
    } else {
        window_balance(balance_after_windows(balance, chains.drop_last(), a), chains.last(), a)
    }
}

/// The first block of chunk `k` of a window that starts at `first`.
pub open spec fn window_from(first: u64, batch_size: u64, k: int) -> u64 {
    (first + k * batch_size) as u64
}

/// What the logs handed in for the chunks of a tick decode to, chunk by
/// chunk, as finalized transfers.
pub open spec fn tick_chains(fetched: Seq<Vec<RawLog>>, topic: B256, token: Address) -> Seq<Seq<Transfer>> {
    Seq::new(fetched.len(), |k: int| decoded_chain(fetched[k]@, topic, token, Some(u64::MAX)))
}

/// The table as it stands when chunk `k` of a tick is reached: after the
/// chunks before it were reconciled.
pub open spec fn rows_at_window(
    rows: Seq<Transfer>,
    fetched: Seq<Vec<RawLog>>,
    topic: B256,
    token: Address,
    first: u64,
    batch_size: u64,
    target: u64,
    k: int,
) -> Seq<Transfer> {
    rows_after_windows(rows, tick_chains(fetched, topic, token).take(k), first, batch_size, target)
}

/// The balance of an address when chunk `k` of a tick is reached.
pub open spec fn balance_at_window(
    balance: nat,
    fetched: Seq<Vec<RawLog>>,
    topic: B256,
    token: Address,
    k: int,
    a: Address,
) -> nat {
    balance_after_windows(balance, tick_chains(fetched, topic, token).take(k), a)
}

/// Whether chunk `k` of a tick goes through: its logs were handed in, the
/// store, as it stands when the chunk is reached, records one hash for each
/// block of the chunk, and every log decodes.
pub open spec fn window_passes(
    rows: Seq<Transfer>,
    fetched: Seq<Vec<RawLog>>,
    topic: B256,
    token: Address,
    first: u64,
    batch_size: u64,
    target: u64,
    k: int,
) -> bool {
    let from = window_from(first, batch_size, k);
    &&& k < fetched.len()
    &&& !hash_conflict(
        rows_at_window(rows, fetched, topic, token, first, batch_size, target, k),
        from,
        chunk_end(from, batch_size, target),
    )
    &&& first_log_error(fetched[k]@, topic) is None
}

/// Whether the first `n` chunks of a tick go through.
pub open spec fn windows_pass(
    rows: Seq<Transfer>,
    fetched: Seq<Vec<RawLog>>,
    topic: B256,
    token: Address,
    first: u64,
    batch_size: u64,
    target: u64,
    n: int,
) -> bool {
    forall|k: int|
        0 <= k < n ==> #[trigger] window_passes(rows, fetched, topic, token, first, batch_size, target, k)
}

/// A chunk that starts at or before the target is one of the chunks of the
/// window.
pub proof fn lemma_window_is_needed(first: u64, batch_size: u64, target: u64, k: int)
    requires
        batch_size >= 1,
        k >= 0,
        first + k * batch_size <= target,
    ensures
        k < windows_needed(first, batch_size, target),
{
    let span = target - first;
    let b = batch_size as int;
    assert(k <= span / b) by (nonlinear_arith)
        requires
            k * b <= span,
            b > 0,
            k >= 0,
    ;
}

/// The chunk that ends at the target is the last chunk of the window.
pub proof fn lemma_last_window(first: u64, batch_size: u64, target: u64, k: int)
    requires
        batch_size >= 1,
        k >= 0,
        first + k * batch_size <= target,
        target <= first + k * batch_size + batch_size - 1,
    ensures
        k + 1 == windows_needed(first, batch_size, target),
{
    let span = target - first;
    let b = batch_size as int;
    assert(span / b == k) by (nonlinear_arith)
        requires
            k * b <= span,
            span < k * b + b,
            b > 0,
            k >= 0,
    ;
}

/// Rows that the logs of a list give, log by log, are what the list decodes
/// to, and no log of the list has something wrong.
pub proof fn lemma_decoded_chain(
    logs: Seq<RawLog>,
    topic: B256,
    token: Address,
    watermark: Option<u64>,
    ts: Seq<Transfer>,
)
    requires
        ts.len() == logs.len(),
        forall|i: int| 0 <= i < logs.len() ==> decodes_to(#[trigger] logs[i], topic, token, watermark, ts[i]),
    ensures
        first_log_error(logs, topic) is None,
        decoded_chain(logs, topic, token, watermark) == ts,
{
    lemma_first_log_error(logs, topic);
    let chain = decoded_chain(logs, topic, token, watermark);
    assert forall|i: int| 0 <= i < logs.len() implies chain[i] == ts[i] by {
        assert(decodes_to(logs[i], topic, token, watermark, ts[i]));
        lemma_decodes_unique(logs[i], topic, token, watermark, ts[i], ts[i]);
    }
    assert(chain =~= ts);
}

/// A tick whose window fits one chunk goes through exactly where that chunk
/// does, and leaves what one reconciliation of the whole window leaves.
pub proof fn lemma_one_chunk(
    rows: Seq<Transfer>,
    fetched: Seq<Vec<RawLog>>,
    topic: B256,
    token: Address,
    first: u64,
    batch_size: u64,
    target: u64,
)
    requires
        first <= target,
        target - first < batch_size,
    ensures
        windows_needed(first, batch_size, target) == 1,
        windows_pass(rows, fetched, topic, token, first, batch_size, target, 1) <==> (fetched.len() >= 1
            && !hash_conflict(rows, first, target) && first_log_error(fetched[0]@, topic) is None),
        fetched.len() >= 1 ==> rows_at_window(rows, fetched, topic, token, first, batch_size, target, 1)
            == window_rows(rows, decoded_chain(fetched[0]@, topic, token, Some(u64::MAX)), first, target),
        fetched.len() >= 1 ==> forall|balance: nat, a: Address| #[trigger]
            balance_at_window(balance, fetched, topic, token, 1, a) == window_balance(
                balance,
                decoded_chain(fetched[0]@, topic, token, Some(u64::MAX)),
                a,
            ),
{
    lemma_last_window(first, batch_size, target, 0);
    let chains = tick_chains(fetched, topic, token);
    assert(chains.take(0) =~= Seq::<Seq<Transfer>>::empty());
    assert(rows_at_window(rows, fetched, topic, token, first, batch_size, target, 0) == rows);
    assert(window_from(first, batch_size, 0) == first);
    assert(chunk_end(first, batch_size, target) == target);
    if windows_pass(rows, fetched, topic, token, first, batch_size, target, 1) {
        assert(window_passes(rows, fetched, topic, token, first, batch_size, target, 0));
    }
    if fetched.len() >= 1 {
        let chain = decoded_chain(fetched[0]@, topic, token, Some(u64::MAX));
        assert(chains.take(1) =~= seq![chain]);
        assert(chains.take(1).drop_last() =~= Seq::<Seq<Transfer>>::empty());
        assert(chains.take(1).last() == chain);
        assert(rows_after_windows(rows, chains.take(1).drop_last(), first, batch_size, target) == rows);
        assert forall|balance: nat, a: Address| #[trigger]
            balance_at_window(balance, fetched, topic, token, 1, a) == window_balance(balance, chain, a) by {
            assert(balance_after_windows(balance, chains.take(1).drop_last(), a) == balance);
        }
    }
}

/// Keeping the blocks of every transfer of a list keeps the list.
proof fn lemma_keep_all(chain: Seq<Transfer>, blocks: Set<u64>)
    requires
        forall|j: int| 0 <= j < chain.len() ==> blocks.contains((#[trigger] chain[j]).block_number),
    ensures
        keep_blocks(chain, blocks) == chain,
    decreases chain.len(),
{
    if chain.len() > 0 {
        let head = chain.drop_last();
        assert forall|j: int| 0 <= j < head.len() implies blocks.contains((#[trigger] head[j]).block_number) by {
            assert(head[j] == chain[j]);
        }
        lemma_keep_all(head, blocks);
        assert(blocks.contains(chain[chain.len() - 1].block_number));
        assert(head.push(chain.last()) =~= chain);
    }
}

/// Keeping no block of a list keeps nothing.
proof fn lemma_keep_none(chain: Seq<Transfer>, blocks: Set<u64>)
    requires
        forall|j: int| 0 <= j < chain.len() ==> !blocks.contains((#[trigger] chain[j]).block_number),
    ensures
        keep_blocks(chain, blocks) == Seq::<Transfer>::empty(),
    decreases chain.len(),
{
    if chain.len() > 0 {
        let head = chain.drop_last();
        assert forall|j: int| 0 <= j < head.len() implies !blocks.contains((#[trigger] head[j]).block_number) by {
            assert(head[j] == chain[j]);
        }
        lemma_keep_none(head, blocks);
        assert(!blocks.contains(chain[chain.len() - 1].block_number));
    } else {
        assert(chain =~= Seq::<Transfer>::empty());
    }
}

/// Two sets of blocks that agree on the blocks of the table delete the same
/// rows.
proof fn lemma_delete_same(rows: Seq<Transfer>, one: Set<u64>, other: Set<u64>)
    requires
        forall|i: int|
            0 <= i < rows.len() ==> (one.contains((#[trigger] rows[i]).block_number) <==> other.contains(
                rows[i].block_number,
            )),
    ensures
        delete_blocks(rows, one) == delete_blocks(rows, other),
    decreases rows.len(),
{
    if rows.len() > 0 {
        let head = rows.drop_last();
        assert forall|i: int| 0 <= i < head.len() implies (one.contains((#[trigger] head[i]).block_number)
            <==> other.contains(head[i].block_number)) by {
            assert(head[i] == rows[i]);
        }
        lemma_delete_same(head, one, other);
        assert(one.contains(rows[rows.len() - 1].block_number) <==> other.contains(
            rows[rows.len() - 1].block_number,
        ));
    }
}

/// A window in which the chain reports each block with the hash that the
/// store records for it, and every block that the store holds there, is
/// only marked: nothing is deleted and nothing inserted.
pub proof fn lemma_window_confirms(rows: Seq<Transfer>, chain: Seq<Transfer>, from: u64, to: u64)
    requires
        forall|j: int|
            0 <= j < chain.len() ==> records_hash(
                rows,
                from,
                to,
                (#[trigger] chain[j]).block_number,
                chain[j].block_hash,
            ),
        forall|i: int|
            0 <= i < rows.len() && (#[trigger] rows[i]).in_range(from, to) ==> chain_hash_of(
                chain,
                rows[i].block_number,
            ) is Some,
    ensures
        reorg_set(chain, rows, from, to) == Set::<u64>::empty(),
        window_rows(rows, chain, from, to) == finalize_range(rows, from, to),
{
    let blocks = reorg_set(chain, rows, from, to);
    assert forall|b: u64| !is_reorged(chain, rows, from, to, b) by {
        lemma_chain_hash(chain, b);
        match chain_hash_of(chain, b) {
            Some(h) => {
                let j = choose|j: int|
                    0 <= j < chain.len() && (#[trigger] chain[j]).block_number == b && chain[j].block_hash == h;
                assert(records_hash(rows, from, to, chain[j].block_number, chain[j].block_hash));
            },
            None => {
                if stored_has(rows, from, to, b) {
                    let i = choose|i: int|
                        0 <= i < rows.len() && (#[trigger] rows[i]).in_range(from, to) && rows[i].block_number
                            == b;
                    assert(chain_hash_of(chain, rows[i].block_number) is Some);
                }
            },
        }
    }
    assert(blocks =~= Set::<u64>::empty());
    lemma_keep_none(chain, blocks);
    crate::repository::transfer_repository::lemma_delete_nothing(rows, blocks);
    assert(insert_rows(rows, Seq::<Transfer>::empty()) == rows);
}

/// A window in which the chain reports no block with the hash that the
/// store records for it is replaced: every stored row of the window is
/// deleted, and what the chain reports is inserted and marked. The report
/// has to lie within the window and give each block one hash.
pub proof fn lemma_window_replaces(rows: Seq<Transfer>, chain: Seq<Transfer>, from: u64, to: u64)
    requires
        all_in_range(chain, from, to),
        one_hash_per_block(chain),
        forall|j: int|
            0 <= j < chain.len() ==> !records_hash(
                rows,
                from,
                to,
                (#[trigger] chain[j]).block_number,
                chain[j].block_hash,
            ),
    ensures
        window_rows(rows, chain, from, to) == finalize_range(
            insert_rows(delete_blocks(rows, Set::new(|b: u64| from <= b <= to)), chain),
            from,
            to,
        ),
{
    let blocks = reorg_set(chain, rows, from, to);
    let window = Set::new(|b: u64| from <= b <= to);
    assert forall|j: int| 0 <= j < chain.len() implies blocks.contains((#[trigger] chain[j]).block_number) by {
        let b = chain[j].block_number;
        lemma_chain_hash(chain, b);
        let h = chain_hash_of(chain, b)->0;
        let k = choose|k: int|
            0 <= k < chain.len() && (#[trigger] chain[k]).block_number == b && chain[k].block_hash == h;
        assert(chain[k].block_hash == chain[j].block_hash);
        assert(is_reorged(chain, rows, from, to, b));
    }
    lemma_keep_all(chain, blocks);
    assert forall|i: int| 0 <= i < rows.len() implies (blocks.contains((#[trigger] rows[i]).block_number)
        <==> window.contains(rows[i].block_number)) by {
        let b = rows[i].block_number;
        lemma_chain_hash(chain, b);
        if rows[i].in_range(from, to) {
            match chain_hash_of(chain, b) {
                Some(h) => {
                    let k = choose|k: int|
                        0 <= k < chain.len() && (#[trigger] chain[k]).block_number == b && chain[k].block_hash
                            == h;
                    assert(!records_hash(rows, from, to, chain[k].block_number, chain[k].block_hash));
                },
                None => {
                    assert(stored_has(rows, from, to, b));
                },
            }
            assert(is_reorged(chain, rows, from, to, b));
        } else {
            if chain_hash_of(chain, b) is Some {
                let k = choose|k: int| 0 <= k < chain.len() && (#[trigger] chain[k]).block_number == b;
                assert(chain[k].in_range(from, to));
            }
            if stored_has(rows, from, to, b) {
                let k = choose|k: int|
                    0 <= k < rows.len() && (#[trigger] rows[k]).in_range(from, to) && rows[k].block_number == b;
            }
            assert(!is_reorged(chain, rows, from, to, b));
        }
    }
    lemma_delete_same(rows, blocks, window);
}

/// What to do with one window of blocks, given what the chain reports for
/// it and what the store records.
pub struct WindowPlan {
    /// The transfers that the chain reports, all marked as finalized.
    pub chain_transfers: Vec<Transfer>,
    /// The blocks whose transfers are deleted.
    pub blocks_to_delete: Vec<u64>,
    /// The reported transfers of those blocks, to insert in their place.
    pub replacements: Vec<Transfer>,
}

/// Plans the reconciliation of one window: decodes the logs that the chain
/// reports as finalized transfers, finds the blocks that differ from the
/// hashes that the store records, and picks the reported transfers of those
/// blocks. A log that does not decode fails the plan with what is wrong
/// with it.
pub fn plan_window(logs: &Vec<RawLog>, stored: &HashMap<u64, B256>, topic: &B256, token: &Address) -> (r:
    Result<WindowPlan, DecodeError>)
    ensures
        r matches Err(e) ==> first_log_error(logs@, *topic) == Some(e),
        r matches Ok(plan) ==> {
            let chain = decoded_chain(logs@, *topic, *token, Some(u64::MAX));
            &&& first_log_error(logs@, *topic) is None
            &&& plan.chain_transfers@ == chain
            &&& rows_decode(logs@, *topic, *token, Some(u64::MAX))
            &&& all_finalized(chain)
            &&& plan.blocks_to_delete@.no_duplicates()
            &&& forall|b: u64| plan.blocks_to_delete@.contains(b) <==> differs_from_stored(chain, stored@, b)
            &&& plan.replacements@ == keep_blocks(chain, plan.blocks_to_delete@.to_set())
        },
{
    let chain_transfers = match decode_logs(logs, topic, token, Some(u64::MAX)) {
        Ok(chain) => chain,
        Err(e) => {
            return Err(e);
        },
    };
    proof {
        assert forall|i: int| 0 <= i < chain_transfers@.len() implies (#[trigger] chain_transfers@[i]).is_finalized by {
            assert(decodes_to(
                logs@[i],
                *topic,
                *token,
                Some(u64::MAX),
                decoded_chain(logs@, *topic, *token, Some(u64::MAX))[i],
            ));
        }
    }
    let blocks_to_delete = blocks_to_reprocess(&chain_transfers, stored);
    let replacements = replacement_transfers(&chain_transfers, &blocks_to_delete);
    Ok(WindowPlan { chain_transfers, blocks_to_delete, replacements })
}

} // verus!
