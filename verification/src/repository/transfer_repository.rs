//! The table of transfers.

use vstd::prelude::*;
use std::collections::HashMap;
use crate::primitives::{Address, B256};
use crate::repository::models::Transfer;
use crate::repository::balance_repository::{ledger_wf, top_rows, vec_contains_address, BalanceRow};
use crate::uint::{u256_modulus, U256};

verus! {

/// Whether some row has the primary key of `t`.
pub open spec fn has_key(rows: Seq<Transfer>, t: Transfer) -> bool {
    exists|i: int| 0 <= i < rows.len() && (#[trigger] rows[i]).same_key(t)
}

/// Whether no two rows share a primary key.
pub open spec fn keys_unique(rows: Seq<Transfer>) -> bool {
    forall|i: int, j: int|
        0 <= i < j < rows.len() ==> !(#[trigger] rows[i]).same_key(#[trigger] rows[j])
}

/// The table after one insert that leaves a row with the same key alone.
pub open spec fn insert_row(rows: Seq<Transfer>, t: Transfer) -> Seq<Transfer> {
    if has_key(rows, t) {
        rows
    } else {
        rows.push(t)
    }
}

/// The table after such an insert of each of `ts`, in order.
pub open spec fn insert_rows(rows: Seq<Transfer>, ts: Seq<Transfer>) -> Seq<Transfer>
    decreases ts.len(),
{
    if ts.len() == 0 {
        rows
    } else {
        insert_row(insert_rows(rows, ts.drop_last()), ts.last())
    }
}

/// The rows whose block number is not among `blocks`, in their order.
pub open spec fn delete_blocks(rows: Seq<Transfer>, blocks: Set<u64>) -> Seq<Transfer>
    decreases rows.len(),
{
    if rows.len() == 0 {
        rows
    } else if blocks.contains(rows.last().block_number) {
        delete_blocks(rows.drop_last(), blocks)
    } else {
        delete_blocks(rows.drop_last(), blocks).push(rows.last())
    }
}

/// The rows, each one in `[from, to]` marked as finalized.
pub open spec fn finalize_range(rows: Seq<Transfer>, from: u64, to: u64) -> Seq<Transfer> {
    Seq::new(
        rows.len(),
        |i: int|
            if rows[i].in_range(from, to) {
                rows[i].finalized()
            } else {
                rows[i]
            },
    )
}

/// How many rows lie in `[from, to]`.
pub open spec fn count_in_range(rows: Seq<Transfer>, from: u64, to: u64) -> nat
    decreases rows.len(),
{
    if rows.len() == 0 {
        0
    } else {
        count_in_range(rows.drop_last(), from, to) + (if rows.last().in_range(from, to) {
            1nat
        } else {
            0nat
        })
    }
}

/// The table after a finality batch: the rows of the deleted blocks gone, the
/// replacements inserted, the window marked.
pub open spec fn finality_batch(
    rows: Seq<Transfer>,
    blocks: Set<u64>,
    ts: Seq<Transfer>,
    from: u64,
    to: u64,
) -> Seq<Transfer> {
    finalize_range(insert_rows(delete_blocks(rows, blocks), ts), from, to)
}

/// Whether the table records `hash` for `block`: some row of that block in
/// `[from, to]` carries it.
pub open spec fn records_hash(rows: Seq<Transfer>, from: u64, to: u64, block: u64, hash: B256) -> bool {
    exists|i: int|
        0 <= i < rows.len() && (#[trigger] rows[i]).in_range(from, to) && rows[i].block_number
            == block && rows[i].block_hash == hash
}

/// Whether some block in `[from, to]` is recorded with two different hashes.
pub open spec fn hash_conflict(rows: Seq<Transfer>, from: u64, to: u64) -> bool {
    exists|i: int, j: int|
        0 <= i < rows.len() && 0 <= j < rows.len() && (#[trigger] rows[i]).in_range(from, to)
            && rows[i].block_number == (#[trigger] rows[j]).block_number && rows[i].block_hash
            != rows[j].block_hash
}

/// Whether `stored` maps each block of `[from, to]` that has a transfer in
/// the table to the hash that the table records for it, and no other block.
pub open spec fn is_hash_map_of(stored: Map<u64, B256>, rows: Seq<Transfer>, from: u64, to: u64) -> bool {
    forall|b: u64, h: B256|
        (stored.contains_key(b) && stored[b] == h) <==> #[trigger] records_hash(rows, from, to, b, h)
}

/// Two hashes found for one block of the table.
#[derive(Clone, Copy, Debug)]
pub struct StoreCorruption {
    pub block_number: u64,
    pub first_hash: B256,
    pub second_hash: B256,
}

/// One transfer as the queries show it.
#[derive(Clone, Copy, Debug)]
pub struct TransferView {
    pub transaction_hash: B256,
    pub from_address: Address,
    pub to_address: Address,
    pub value: U256,
    pub block_number: u64,
}

/// Counts over the whole table.
#[derive(Clone, Copy, Debug)]
pub struct TransferStats {
    pub total_transfers: usize,
    pub unique_addresses: usize,
    pub earliest_block: Option<u64>,
    pub latest_block: Option<u64>,
}

/// The balance of one address with the two sums it comes from.
#[derive(Clone, Copy, Debug)]
pub struct BalanceInfo {
    pub balance: U256,
    pub total_incoming: U256,
    pub total_outgoing: U256,
}

/// One holder with its balance.
#[derive(Clone, Copy, Debug)]
pub struct TokenHolder {
    pub address: Address,
    pub balance: U256,
}

/// The transfers that were ingested, in the order in which they came.
pub struct TransferRepository {
    pub rows: Vec<Transfer>,
}

impl View for TransferRepository {
    type V = Seq<Transfer>;

    open spec fn view(&self) -> Seq<Transfer> {
        self.rows@
    }
}

impl TransferRepository {
    /// Whether the table is well formed: no primary key occurs twice.
    pub open spec fn wf(&self) -> bool {
        keys_unique(self@)
    }

    /// An empty table.
    pub fn new() -> (r: TransferRepository)
        ensures
            r@ == Seq::<Transfer>::empty(),
            r.wf(),
    {
        TransferRepository { rows: Vec::new() }
    }

    /// Whether a row with the key of `t` is in the table.
    pub fn contains_key(&self, t: &Transfer) -> (r: bool)
        ensures
            r == has_key(self@, *t),
    {
        let mut i: usize = 0;
        while i < self.rows.len()
            invariant
                i <= self.rows.len(),
                forall|j: int| 0 <= j < i ==> !(#[trigger] self.rows@[j]).same_key(*t),
            decreases self.rows.len() - i,
        {
            if self.rows[i].has_same_key(t) {
                return true;
            }
            i += 1;
        }
        false
    }

    /// Inserts one transfer unless its key is taken; says whether it went in.
    pub fn insert(&mut self, transfer: &Transfer) -> (inserted: bool)
        requires
            old(self).wf(),
        ensures
            final(self).wf(),
            final(self)@ == insert_row(old(self)@, *transfer),
            inserted == !has_key(old(self)@, *transfer),
    {
        if self.contains_key(transfer) {
            false
        } else {
            self.rows.push(*transfer);
            true
        }
    }

    /// Inserts each transfer whose key is not taken yet, in order, and
    /// returns how many went in.
    pub fn insert_batch(&mut self, transfers: &Vec<Transfer>) -> (count: usize)
        requires
            old(self).wf(),
        ensures
            final(self).wf(),
            final(self)@ == insert_rows(old(self)@, transfers@),
            count == final(self)@.len() - old(self)@.len(),
    {
        let mut count: usize = 0;
        let mut i: usize = 0;
        while i < transfers.len()
            invariant
                i <= transfers.len(),
                self.wf(),
                self@ == insert_rows(old(self)@, transfers@.take(i as int)),
                count == self@.len() - old(self)@.len(),
                count <= i,
            decreases transfers.len() - i,
        {
            assert(transfers@.take(i + 1).drop_last() =~= transfers@.take(i as int));
            if self.insert(&transfers[i]) {
                count += 1;
            }
            i += 1;
        }
        assert(transfers@.take(i as int) =~= transfers@);
        count
    }

    /// Removes the rows of the given blocks and returns how many went.
    pub fn delete_blocks(&mut self, blocks: &Vec<u64>) -> (deleted: usize)
        requires
            old(self).wf(),
        ensures
            final(self).wf(),
            final(self)@ == delete_blocks(old(self)@, blocks@.to_set()),
            deleted == old(self)@.len() - final(self)@.len(),
    {
        let mut kept: Vec<Transfer> = Vec::new();
        let mut i: usize = 0;
        while i < self.rows.len()
            invariant
                i <= self.rows.len(),
                kept@ == delete_blocks(self@.take(i as int), blocks@.to_set()),
                kept@.len() <= i,
            decreases self.rows.len() - i,
        {
            assert(self@.take(i + 1).drop_last() =~= self@.take(i as int));
            let t = self.rows[i];
            if !vec_contains_u64(blocks, t.block_number) {
                kept.push(t);
            }
            i += 1;
        }
        assert(self@.take(i as int) =~= self@);
        proof {
            lemma_delete_blocks_subseq(self@, blocks@.to_set());
        }
        let deleted = self.rows.len() - kept.len();
        self.rows = kept;
        deleted
    }

    /// Marks every row in `[from, to]` as finalized and returns how many rows
    /// lie there.
    pub fn mark_finalized(&mut self, from: u64, to: u64) -> (marked: usize)
        requires
            old(self).wf(),
        ensures
            final(self).wf(),
            final(self)@ == finalize_range(old(self)@, from, to),
            marked == count_in_range(old(self)@, from, to),
    {
        let mut marked: usize = 0;
        let mut i: usize = 0;
        let n = self.rows.len();
        while i < n
            invariant
                i <= n,
                n == self.rows.len(),
                n == old(self)@.len(),
                marked == count_in_range(old(self)@.take(i as int), from, to),
                marked <= i,
                forall|j: int|
                    0 <= j < i ==> #[trigger] self.rows@[j] == finalize_range(
                        old(self).rows@,
                        from,
                        to,
                    )[j],
                forall|j: int| i <= j < n ==> #[trigger] self.rows@[j] == old(self).rows@[j],
            decreases n - i,
        {
            assert(old(self)@.take(i + 1).drop_last() =~= old(self)@.take(i as int));
            let t = self.rows[i];
            assert(t == old(self).rows@[i as int]);
            assert(old(self)@.take(i + 1).last() == t);
            if from <= t.block_number && t.block_number <= to {
                let u = Transfer { is_finalized: true, ..t };
                assert(u == t.finalized());
                self.rows.set(i, u);
                marked += 1;
            }
            i += 1;
        }
        assert(old(self)@.take(i as int) =~= old(self)@);
        assert(self@ =~= finalize_range(old(self)@, from, to));
        proof {
            lemma_finalize_keeps_keys(old(self)@, from, to);
        }
        marked
    }

    /// One finality batch: deletes the rows of `blocks_to_delete`, inserts
    /// the replacements whose keys are free, marks `[mark_finalized_from,
    /// mark_finalized_to]` as finalized. Returns how many rows were deleted,
    /// inserted and marked.
    pub fn process_finality_batch(
        &mut self,
        blocks_to_delete: &Vec<u64>,
        transfers_to_insert: &Vec<Transfer>,
        mark_finalized_from: u64,
        mark_finalized_to: u64,
    ) -> (counts: (usize, usize, usize))
        requires
            old(self).wf(),
        ensures
            final(self).wf(),
            final(self)@ == finality_batch(
                old(self)@,
                blocks_to_delete@.to_set(),
                transfers_to_insert@,
                mark_finalized_from,
                mark_finalized_to,
            ),
            counts.0 == old(self)@.len() - delete_blocks(old(self)@, blocks_to_delete@.to_set()).len(),
            counts.1 == insert_rows(
                delete_blocks(old(self)@, blocks_to_delete@.to_set()),
                transfers_to_insert@,
            ).len() - delete_blocks(old(self)@, blocks_to_delete@.to_set()).len(),
            counts.2 == count_in_range(final(self)@, mark_finalized_from, mark_finalized_to),
    {
        let deleted = self.delete_blocks(blocks_to_delete);
        let inserted = self.insert_batch(transfers_to_insert);
        let ghost before_mark = self@;
        let finalized = self.mark_finalized(mark_finalized_from, mark_finalized_to);
        proof {
            lemma_finalize_keeps_count(before_mark, mark_finalized_from, mark_finalized_to,
                mark_finalized_from, mark_finalized_to);
        }
        (deleted, inserted, finalized)
    }

    /// The hash recorded for each block in `[from_block, to_block]` that has
    /// a transfer, or a block of that range that is recorded with two
    /// different hashes.
    pub fn get_block_hashes_in_range(&self, from_block: u64, to_block: u64) -> (r: Result<
        HashMap<u64, B256>,
        StoreCorruption,
    >)
        ensures
            r is Err <==> hash_conflict(self@, from_block, to_block),
            r matches Ok(stored) ==> is_hash_map_of(stored@, self@, from_block, to_block),
            r matches Err(e) ==> records_hash(
                self@,
                from_block,
                to_block,
                e.block_number,
                e.first_hash,
            ) && records_hash(self@, from_block, to_block, e.block_number, e.second_hash)
                && e.first_hash != e.second_hash,
    {
        broadcast use vstd::std_specs::hash::group_hash_axioms;
        let mut stored: HashMap<u64, B256> = HashMap::new();
        let mut i: usize = 0;
        while i < self.rows.len()
            invariant
                i <= self.rows.len(),
                !hash_conflict(self@.take(i as int), from_block, to_block),
                forall|b: u64|
                    stored@.contains_key(b) ==> records_hash(
                        self@.take(i as int),
                        from_block,
                        to_block,
                        b,
                        #[trigger] stored@[b],
                    ),
                forall|j: int|
                    0 <= j < i && (#[trigger] self@[j]).in_range(from_block, to_block)
                        ==> stored@.contains_key(self@[j].block_number) && stored@[self@[j].block_number]
                        == self@[j].block_hash,
            decreases self.rows.len() - i,
        {
            let t = self.rows[i];
            let ghost prefix = self@.take(i as int);
            let ghost next = self@.take(i + 1);
            let ghost before = stored@;
            assert(forall|j: int| 0 <= j < i ==> next[j] == prefix[j]);
            assert(next[i as int] == t);
            if from_block <= t.block_number && t.block_number <= to_block {
                let known: Option<B256> = match stored.get(&t.block_number) {
                    Some(h) => Some(*h),
                    None => None,
                };
                match known {
                    Some(h) => {
                        if h != t.block_hash {
                            proof {
                                let w = choose|w: int|
                                    0 <= w < prefix.len() && (#[trigger] prefix[w]).in_range(
                                        from_block,
                                        to_block,
                                    ) && prefix[w].block_number == t.block_number
                                        && prefix[w].block_hash == h;
                                assert(self@[w] == prefix[w]);
                                assert(self@[w].in_range(from_block, to_block));
                                assert(self@[i as int].in_range(from_block, to_block));
                            }
                            return Err(
                                StoreCorruption {
                                    block_number: t.block_number,
                                    first_hash: h,
                                    second_hash: t.block_hash,
                                },
                            );
                        }
                    },
                    None => {
                        stored.insert(t.block_number, t.block_hash);
                    },
                }
            }
            proof {
                assert forall|b: u64| stored@.contains_key(b) implies records_hash(
                    next,
                    from_block,
                    to_block,
                    b,
                    #[trigger] stored@[b],
                ) by {
                    if before.contains_key(b) {
                        assert(stored@[b] == before[b]);
                        let w = choose|w: int|
                            0 <= w < prefix.len() && (#[trigger] prefix[w]).in_range(from_block, to_block)
                                && prefix[w].block_number == b && prefix[w].block_hash == before[b];
                        assert(next[w].in_range(from_block, to_block));
                    } else {
                        assert(next[i as int].in_range(from_block, to_block));
                    }
                }
                assert(!hash_conflict(next, from_block, to_block)) by {
                    if hash_conflict(next, from_block, to_block) {
                        let (a, b) = choose|a: int, b: int|
                            0 <= a < next.len() && 0 <= b < next.len() && (#[trigger] next[a]).in_range(
                                from_block,
                                to_block,
                            ) && next[a].block_number == (#[trigger] next[b]).block_number
                                && next[a].block_hash != next[b].block_hash;
                        assert(next[b].in_range(from_block, to_block));
                        if a < i && b < i {
                            assert(prefix[a].in_range(from_block, to_block));
                            assert(prefix[b].block_number == prefix[a].block_number);
                            assert(false);
                        } else {
                            if a < i {
                                assert(self@[a].in_range(from_block, to_block));
                            }
                            if b < i {
                                assert(self@[b].in_range(from_block, to_block));
                            }
                            assert(false);
                        }
                    }
                }
            }
            i += 1;
        }
        proof {
            assert(self@.take(i as int) =~= self@);
            assert forall|b: u64, h: B256|
                (stored@.contains_key(b) && stored@[b] == h) <==> #[trigger] records_hash(
                    self@,
                    from_block,
                    to_block,
                    b,
                    h,
                ) by {
                if records_hash(self@, from_block, to_block, b, h) {
                    let w = choose|w: int|
                        0 <= w < self@.len() && (#[trigger] self@[w]).in_range(from_block, to_block)
                            && self@[w].block_number == b && self@[w].block_hash == h;
                    assert(stored@.contains_key(self@[w].block_number));
                }
            }
        }
        Ok(stored)
    }
}

/// Whether a list of block numbers holds `block`.
pub fn vec_contains_u64(blocks: &Vec<u64>, block: u64) -> (r: bool)
    ensures
        r == blocks@.contains(block),
{
    let mut i: usize = 0;
    while i < blocks.len()
        invariant
            i <= blocks.len(),
            forall|j: int| 0 <= j < i ==> blocks@[j] != block,
        decreases blocks.len() - i,
    {
        if blocks[i] == block {
            return true;
        }
        i += 1;
    }
    false
}

/// Deleting blocks keeps a sub-list of the rows: no more rows, and unique
/// keys stay unique.
pub proof fn lemma_delete_blocks_subseq(rows: Seq<Transfer>, blocks: Set<u64>)
    ensures
        delete_blocks(rows, blocks).len() <= rows.len(),
        forall|t: Transfer| has_key(delete_blocks(rows, blocks), t) ==> has_key(rows, t),
        keys_unique(rows) ==> keys_unique(delete_blocks(rows, blocks)),
        forall|i: int|
            0 <= i < delete_blocks(rows, blocks).len() ==> !blocks.contains(
                (#[trigger] delete_blocks(rows, blocks)[i]).block_number,
            ) && rows.contains(delete_blocks(rows, blocks)[i]),
    decreases rows.len(),
{
    let out = delete_blocks(rows, blocks);
    if rows.len() > 0 {
        let head = rows.drop_last();
        let sub = delete_blocks(head, blocks);
        lemma_delete_blocks_subseq(head, blocks);
        assert forall|t: Transfer| has_key(out, t) implies has_key(rows, t) by {
            let i = choose|i: int| 0 <= i < out.len() && (#[trigger] out[i]).same_key(t);
            if i < sub.len() {
                assert(sub[i].same_key(t));
                assert(has_key(head, t));
                let j = choose|j: int| 0 <= j < head.len() && (#[trigger] head[j]).same_key(t);
                assert(rows[j].same_key(t));
            } else {
                assert(rows[rows.len() - 1].same_key(t));
            }
        }
        if keys_unique(rows) {
            assert(keys_unique(head)) by {
                assert forall|i: int, j: int| 0 <= i < j < head.len() implies !(#[trigger] head[i]).same_key(
                    #[trigger] head[j],
                ) by {
                    assert(!rows[i].same_key(rows[j]));
                }
            }
            assert forall|i: int, j: int| 0 <= i < j < out.len() implies !(#[trigger] out[i]).same_key(
                #[trigger] out[j],
            ) by {
                if j < sub.len() {
                    assert(!sub[i].same_key(sub[j]));
                } else {
                    assert(out[j] == rows.last());
                    assert(sub[i].same_key(sub[i]));
                    if out[i].same_key(out[j]) {
                        assert(has_key(sub, rows.last()));
                        assert(has_key(head, rows.last()));
                        let w = choose|w: int|
                            0 <= w < head.len() && (#[trigger] head[w]).same_key(rows.last());
                        assert(rows[w].same_key(rows[rows.len() - 1]));
                    }
                }
            }
        }
        assert forall|i: int| 0 <= i < out.len() implies !blocks.contains(
            (#[trigger] out[i]).block_number,
        ) && rows.contains(out[i]) by {
            if i < sub.len() {
                assert(head.contains(sub[i]));
                let j = choose|j: int| 0 <= j < head.len() && head[j] == sub[i];
                assert(rows[j] == sub[i]);
            } else {
                assert(rows[rows.len() - 1] == out[i]);
            }
        }
    }
}

/// Marking rows as finalized changes no key.
pub proof fn lemma_finalize_keeps_keys(rows: Seq<Transfer>, from: u64, to: u64)
    ensures
        keys_unique(rows) ==> keys_unique(finalize_range(rows, from, to)),
        forall|t: Transfer| has_key(finalize_range(rows, from, to), t) <==> has_key(rows, t),
{
    let out = finalize_range(rows, from, to);
    assert forall|t: Transfer| has_key(out, t) <==> has_key(rows, t) by {
        if has_key(out, t) {
            let i = choose|i: int| 0 <= i < out.len() && (#[trigger] out[i]).same_key(t);
            assert(rows[i].same_key(t));
        }
        if has_key(rows, t) {
            let i = choose|i: int| 0 <= i < rows.len() && (#[trigger] rows[i]).same_key(t);
            assert(out[i].same_key(t));
        }
    }
    if keys_unique(rows) {
        assert forall|i: int, j: int| 0 <= i < j < out.len() implies !(#[trigger] out[i]).same_key(
            #[trigger] out[j],
        ) by {
            assert(!rows[i].same_key(rows[j]));
        }
    }
}

/// Marking one range as finalized moves no row in or out of any range.
pub proof fn lemma_finalize_keeps_count(rows: Seq<Transfer>, from: u64, to: u64, a: u64, b: u64)
    ensures
        count_in_range(finalize_range(rows, from, to), a, b) == count_in_range(rows, a, b),
    decreases rows.len(),
{
    let out = finalize_range(rows, from, to);
    if rows.len() > 0 {
        lemma_finalize_keeps_count(rows.drop_last(), from, to, a, b);
        assert(out.drop_last() =~= finalize_range(rows.drop_last(), from, to));
    }
}

/// What a batch insert does to the table: the old rows stay in front, every
/// row comes from the table or from the batch, every transfer of the batch
/// has its key in the table afterwards, and unique keys stay unique.
pub proof fn lemma_insert_rows(rows: Seq<Transfer>, ts: Seq<Transfer>)
    ensures
        insert_rows(rows, ts).len() >= rows.len(),
        forall|i: int| 0 <= i < rows.len() ==> #[trigger] insert_rows(rows, ts)[i] == rows[i],
        forall|i: int|
            0 <= i < insert_rows(rows, ts).len() ==> rows.contains(#[trigger] insert_rows(rows, ts)[i])
                || ts.contains(insert_rows(rows, ts)[i]),
        forall|j: int| 0 <= j < ts.len() ==> has_key(insert_rows(rows, ts), #[trigger] ts[j]),
        keys_unique(rows) ==> keys_unique(insert_rows(rows, ts)),
    decreases ts.len(),
{
    let out = insert_rows(rows, ts);
    if ts.len() == 0 {
        assert forall|i: int| 0 <= i < out.len() implies rows.contains(#[trigger] out[i]) by {
            assert(rows[i] == out[i]);
        }
    } else {
        let head = ts.drop_last();
        let mid = insert_rows(rows, head);
        let t = ts.last();
        lemma_insert_rows(rows, head);
        assert forall|i: int| 0 <= i < out.len() implies rows.contains(#[trigger] out[i])
            || ts.contains(out[i]) by {
            if i < mid.len() {
                assert(out[i] == mid[i]);
                if head.contains(mid[i]) {
                    let j = choose|j: int| 0 <= j < head.len() && head[j] == mid[i];
                    assert(ts[j] == mid[i]);
                }
            } else {
                assert(out[i] == t);
                assert(ts[ts.len() - 1] == t);
            }
        }
        assert forall|j: int| 0 <= j < ts.len() implies has_key(out, #[trigger] ts[j]) by {
            if j < head.len() {
                assert(head[j] == ts[j]);
                assert(has_key(mid, head[j]));
                let w = choose|w: int| 0 <= w < mid.len() && (#[trigger] mid[w]).same_key(ts[j]);
                assert(out[w].same_key(ts[j]));
            } else {
                if has_key(mid, t) {
                } else {
                    assert(out[mid.len() as int].same_key(t));
                }
            }
        }
        if keys_unique(rows) {
            assert forall|i: int, j: int| 0 <= i < j < out.len() implies !(#[trigger] out[i]).same_key(
                #[trigger] out[j],
            ) by {
                if j < mid.len() {
                    assert(!mid[i].same_key(mid[j]));
                } else {
                    assert(out[j] == t);
                    assert(!has_key(mid, t));
                    if out[i].same_key(out[j]) {
                        assert(mid[i].same_key(t));
                    }
                }
            }
        }
    }
}

/// A batch whose keys are all in the table changes nothing.
pub proof fn lemma_insert_nothing(rows: Seq<Transfer>, ts: Seq<Transfer>)
    requires
        forall|j: int| 0 <= j < ts.len() ==> has_key(rows, #[trigger] ts[j]),
    ensures
        insert_rows(rows, ts) == rows,
    decreases ts.len(),
{
    if ts.len() > 0 {
        let head = ts.drop_last();
        assert forall|j: int| 0 <= j < head.len() implies has_key(rows, #[trigger] head[j]) by {
            assert(head[j] == ts[j]);
        }
        lemma_insert_nothing(rows, head);
        assert(ts[ts.len() - 1] == ts.last());
    }
}

/// Inserting the same batch a second time changes nothing: the rows are
/// the same and none goes in.
pub proof fn lemma_insert_batch_idempotent(rows: Seq<Transfer>, ts: Seq<Transfer>)
    ensures
        insert_rows(insert_rows(rows, ts), ts) == insert_rows(rows, ts),
{
    lemma_insert_rows(rows, ts);
    lemma_insert_nothing(insert_rows(rows, ts), ts);
}

/// Deleting blocks keeps every row of another block.
pub proof fn lemma_delete_keeps(rows: Seq<Transfer>, blocks: Set<u64>, i: int)
    requires
        0 <= i < rows.len(),
        !blocks.contains(rows[i].block_number),
    ensures
        delete_blocks(rows, blocks).contains(rows[i]),
    decreases rows.len(),
{
    let out = delete_blocks(rows, blocks);
    let head = rows.drop_last();
    let sub = delete_blocks(head, blocks);
    if i == rows.len() - 1 {
        assert(out[sub.len() as int] == rows[i]);
    } else {
        lemma_delete_keeps(head, blocks, i);
        let k = choose|k: int| 0 <= k < sub.len() && sub[k] == head[i];
        assert(out[k] == rows[i]);
    }
}

/// Deleting blocks of which the table has no row changes nothing.
pub proof fn lemma_delete_nothing(rows: Seq<Transfer>, blocks: Set<u64>)
    requires
        forall|i: int| 0 <= i < rows.len() ==> !blocks.contains((#[trigger] rows[i]).block_number),
    ensures
        delete_blocks(rows, blocks) == rows,
    decreases rows.len(),
{
    if rows.len() > 0 {
        let head = rows.drop_last();
        assert forall|i: int| 0 <= i < head.len() implies !blocks.contains(
            (#[trigger] head[i]).block_number,
        ) by {
            assert(head[i] == rows[i]);
        }
        lemma_delete_nothing(head, blocks);
        assert(rows[rows.len() - 1] == rows.last());
        assert(delete_blocks(rows, blocks) =~= rows);
    }
}

/// What the queries show of a transfer.
pub open spec fn view_of(t: Transfer) -> TransferView {
    TransferView {
        transaction_hash: t.transaction_hash,
        from_address: t.from_address,
        to_address: t.to_address,
        value: t.value,
        block_number: t.block_number,
    }
}

/// Whether a transfer passes the filters: the sender, the receiver and the
/// block range, each where it is given.
pub open spec fn passes(
    t: Transfer,
    from: Option<Address>,
    to: Option<Address>,
    range: Option<(u64, u64)>,
) -> bool {
    &&& from matches Some(a) ==> t.from_address == a
    &&& to matches Some(a) ==> t.to_address == a
    &&& range matches Some(r) ==> r.0 <= t.block_number && t.block_number <= r.1
}

/// The transfers that pass the filters, in the order of the table.
pub open spec fn matching(
    rows: Seq<Transfer>,
    from: Option<Address>,
    to: Option<Address>,
    range: Option<(u64, u64)>,
) -> Seq<Transfer>
    decreases rows.len(),
{
    if rows.len() == 0 {
        rows
    } else if passes(rows.last(), from, to, range) {
        matching(rows.drop_last(), from, to, range).push(rows.last())
    } else {
        matching(rows.drop_last(), from, to, range)
    }
}

/// The transfers that name an address as sender or receiver, in the order
/// of the table.
pub open spec fn history_of(rows: Seq<Transfer>, a: Address) -> Seq<Transfer>
    decreases rows.len(),
{
    if rows.len() == 0 {
        rows
    } else if rows.last().from_address == a || rows.last().to_address == a {
        history_of(rows.drop_last(), a).push(rows.last())
    } else {
        history_of(rows.drop_last(), a)
    }
}

/// One page of a list: at most `limit` entries after the first `offset`.
pub open spec fn page_rows(found: Seq<Transfer>, limit: usize, offset: usize) -> Seq<Transfer> {
    let start = if offset <= found.len() {
        offset as int
    } else {
        found.len() as int
    };
    let end = if start + limit <= found.len() {
        start + limit
    } else {
        found.len() as int
    };
    found.subrange(start, end)
}

/// One page of a list, as the queries show it.
pub open spec fn page(found: Seq<Transfer>, limit: usize, offset: usize) -> Seq<TransferView> {
    page_rows(found, limit, offset).map_values(|t: Transfer| view_of(t))
}

/// The sum of the values of all transfers to `a`.
pub open spec fn received_sum(rows: Seq<Transfer>, a: Address) -> nat
    decreases rows.len(),
{
    if rows.len() == 0 {
        0
    } else {
        received_sum(rows.drop_last(), a) + (if rows.last().to_address == a {
            rows.last().value@
        } else {
            0
        })
    }
}

/// The sum of the values of all transfers from `a`.
pub open spec fn sent_sum(rows: Seq<Transfer>, a: Address) -> nat
    decreases rows.len(),
{
    if rows.len() == 0 {
        0
    } else {
        sent_sum(rows.drop_last(), a) + (if rows.last().from_address == a {
            rows.last().value@
        } else {
            0
        })
    }
}

/// Whether a transfer of the table names `a` as sender or receiver.
pub open spec fn names(rows: Seq<Transfer>, a: Address) -> bool {
    exists|i: int| 0 <= i < rows.len() && ((#[trigger] rows[i]).to_address == a || rows[i].from_address == a)
}

/// The addresses that the transfers of the table name.
pub open spec fn named_addresses(rows: Seq<Transfer>) -> Set<Address> {
    Set::new(|a: Address| names(rows, a))
}

/// Whether one of the two sums of `a` does not fit in 256 bits.
pub open spec fn sum_overflows(rows: Seq<Transfer>, a: Address) -> bool {
    received_sum(rows, a) >= u256_modulus() || sent_sum(rows, a) >= u256_modulus()
}

/// The balance that the transfers of the table give `a`: received less
/// sent, or zero where more was sent.
pub open spec fn balance_from_transfers(rows: Seq<Transfer>, a: Address) -> nat {
    if received_sum(rows, a) >= sent_sum(rows, a) {
        (received_sum(rows, a) - sent_sum(rows, a)) as nat
    } else {
        0
    }
}

/// A sum over the table does not fit in 256 bits.
#[derive(Clone, Copy, Debug, PartialEq, Eq, Structural)]
pub struct SumOverflow;

/// The sums over a part of the table are no larger than over all of it.
pub proof fn lemma_sums_grow(rows: Seq<Transfer>, a: Address, k: int)
    requires
        0 <= k <= rows.len(),
    ensures
        received_sum(rows.take(k), a) <= received_sum(rows, a),
        sent_sum(rows.take(k), a) <= sent_sum(rows, a),
    decreases rows.len() - k,
{
    if k == rows.len() {
        assert(rows.take(k) =~= rows);
    } else {
        lemma_sums_grow(rows, a, k + 1);
        assert(rows.take(k + 1).drop_last() =~= rows.take(k));
    }
}

/// Cuts one page out of a list of transfers.
fn cut_page(found: &Vec<Transfer>, limit: usize, offset: usize) -> (r: Vec<Transfer>)
    ensures
        r@ == page_rows(found@, limit, offset),
{
    let n = found.len();
    let start = if offset <= n {
        offset
    } else {
        n
    };
    let end = if limit <= n - start {
        start + limit
    } else {
        n
    };
    let mut out: Vec<Transfer> = Vec::new();
    let mut i: usize = start;
    while i < end
        invariant
            start <= i <= end <= n,
            n == found@.len(),
            out@.len() == i - start,
            forall|k: int| 0 <= k < out@.len() ==> #[trigger] out@[k] == found@[start + k],
        decreases end - i,
    {
        out.push(found[i]);
        i += 1;
    }
    assert(out@ =~= page_rows(found@, limit, offset));
    out
}

/// What the queries show of each transfer of a list.
fn views_of(rows: &Vec<Transfer>) -> (r: Vec<TransferView>)
    ensures
        r@ == rows@.map_values(|t: Transfer| view_of(t)),
{
    let mut out: Vec<TransferView> = Vec::new();
    let mut i: usize = 0;
    while i < rows.len()
        invariant
            i <= rows.len(),
            out@.len() == i,
            forall|k: int| 0 <= k < i ==> #[trigger] out@[k] == view_of(rows@[k]),
        decreases rows.len() - i,
    {
        let t = rows[i];
        out.push(
            TransferView {
                transaction_hash: t.transaction_hash,
                from_address: t.from_address,
                to_address: t.to_address,
                value: t.value,
                block_number: t.block_number,
            },
        );
        i += 1;
    }
    assert(out@ =~= rows@.map_values(|t: Transfer| view_of(t)));
    out
}

impl TransferRepository {
    /// The transfers that pass the given filters, one page of them: at most
    /// `limit` after the first `offset`, in the order of the table.
    pub fn select_transfers(
        &self,
        from_address: Option<&Address>,
        to_address: Option<&Address>,
        block_range: Option<(u64, u64)>,
        limit: usize,
        offset: usize,
    ) -> (r: Vec<Transfer>)
        ensures
            r@ == page_rows(
                matching(
                    self@,
                    match from_address {
                        Some(a) => Some(*a),
                        None => None,
                    },
                    match to_address {
                        Some(a) => Some(*a),
                        None => None,
                    },
                    block_range,
                ),
                limit,
                offset,
            ),
    {
        let ghost from = match from_address {
            Some(a) => Some(*a),
            None => None,
        };
        let ghost to = match to_address {
            Some(a) => Some(*a),
            None => None,
        };
        let mut found: Vec<Transfer> = Vec::new();
        let mut i: usize = 0;
        while i < self.rows.len()
            invariant
                i <= self.rows.len(),
                from == (match from_address {
                    Some(a) => Some(*a),
                    None => None,
                }),
                to == (match to_address {
                    Some(a) => Some(*a),
                    None => None,
                }),
                found@ == matching(self@.take(i as int), from, to, block_range),
            decreases self.rows.len() - i,
        {
            assert(self@.take(i + 1).drop_last() =~= self@.take(i as int));
            let t = self.rows[i];
            let from_ok = match from_address {
                Some(a) => t.from_address == *a,
                None => true,
            };
            let to_ok = match to_address {
                Some(a) => t.to_address == *a,
                None => true,
            };
            let range_ok = match block_range {
                Some((start, end)) => start <= t.block_number && t.block_number <= end,
                None => true,
            };
            if from_ok && to_ok && range_ok {
                found.push(t);
            }
            i += 1;
        }
        assert(self@.take(i as int) =~= self@);
        cut_page(&found, limit, offset)
    }

    /// What the queries show of the transfers that pass the given filters,
    /// one page of them.
    pub fn query_transfers(
        &self,
        from_address: Option<&Address>,
        to_address: Option<&Address>,
        block_range: Option<(u64, u64)>,
        limit: usize,
        offset: usize,
    ) -> (r: Vec<TransferView>)
        ensures
            r@ == page(
                matching(
                    self@,
                    match from_address {
                        Some(a) => Some(*a),
                        None => None,
                    },
                    match to_address {
                        Some(a) => Some(*a),
                        None => None,
                    },
                    block_range,
                ),
                limit,
                offset,
            ),
    {
        let rows = self.select_transfers(from_address, to_address, block_range, limit, offset);
        views_of(&rows)
    }

    /// The transfers that name an address as sender or receiver, one page of
    /// them.
    pub fn select_history(&self, address: &Address, limit: usize, offset: usize) -> (r: Vec<Transfer>)
        ensures
            r@ == page_rows(history_of(self@, *address), limit, offset),
    {
        let mut found: Vec<Transfer> = Vec::new();
        let mut i: usize = 0;
        while i < self.rows.len()
            invariant
                i <= self.rows.len(),
                found@ == history_of(self@.take(i as int), *address),
            decreases self.rows.len() - i,
        {
            assert(self@.take(i + 1).drop_last() =~= self@.take(i as int));
            let t = self.rows[i];
            if t.from_address == *address || t.to_address == *address {
                found.push(t);
            }
            i += 1;
        }
        assert(self@.take(i as int) =~= self@);
        cut_page(&found, limit, offset)
    }

    /// What the queries show of the transfers that name an address as sender
    /// or receiver, one page of them.
    pub fn get_address_history(&self, address: &Address, limit: usize, offset: usize) -> (r: Vec<
        TransferView,
    >)
        ensures
            r@ == page(history_of(self@, *address), limit, offset),
    {
        let rows = self.select_history(address, limit, offset);
        views_of(&rows)
    }

    /// The addresses that the transfers of the table name, each once.
    pub fn addresses(&self) -> (r: Vec<Address>)
        ensures
            r@.no_duplicates(),
            forall|a: Address| r@.contains(a) <==> names(self@, a),
            r@.len() <= 2 * self@.len(),
    {
        let mut out: Vec<Address> = Vec::new();
        let mut i: usize = 0;
        while i < self.rows.len()
            invariant
                i <= self.rows.len(),
                out@.no_duplicates(),
                out@.len() <= 2 * i,
                forall|a: Address| out@.contains(a) <==> names(self@.take(i as int), a),
            decreases self.rows.len() - i,
        {
            let t = self.rows[i];
            let ghost before = out@;
            let ghost prefix = self@.take(i as int);
            let ghost next = self@.take(i + 1);
            if !vec_contains_address(&out, &t.from_address) {
                out.push(t.from_address);
                assert(out@[out@.len() - 1] == t.from_address);
            }
            let ghost mid = out@;
            assert(mid.contains(t.from_address));
            if !vec_contains_address(&out, &t.to_address) {
                out.push(t.to_address);
                assert(out@[out@.len() - 1] == t.to_address);
            }
            proof {
                assert(out@.contains(t.to_address));
                assert(out@.contains(t.from_address)) by {
                    let k = choose|k: int| 0 <= k < mid.len() && mid[k] == t.from_address;
                    assert(out@[k] == t.from_address);
                }
                assert(next[i as int] == t);
                assert forall|a: Address| out@.contains(a) <==> names(next, a) by {
                    if names(next, a) {
                        let w = choose|w: int|
                            0 <= w < next.len() && ((#[trigger] next[w]).to_address == a
                                || next[w].from_address == a);
                        if w < i {
                            assert(prefix[w] == next[w]);
                            assert(prefix[w].to_address == a || prefix[w].from_address == a);
                            assert(names(prefix, a));
                            assert(before.contains(a));
                            let k = choose|k: int| 0 <= k < before.len() && before[k] == a;
                            assert(out@[k] == a);
                        } else {
                            assert(out@.contains(a));
                        }
                    }
                    if out@.contains(a) {
                        if before.contains(a) {
                            let w = choose|w: int|
                                0 <= w < prefix.len() && ((#[trigger] prefix[w]).to_address == a
                                    || prefix[w].from_address == a);
                            assert(next[w] == prefix[w]);
                        } else {
                            assert(t.to_address == a || t.from_address == a);
                            assert(next[i as int].to_address == a || next[i as int].from_address == a);
                        }
                    }
                }
            }
            i += 1;
        }
        assert(self@.take(i as int) =~= self@);
        out
    }

    /// Counts over the whole table: the transfers, the addresses that they
    /// name, and the first and the last block with a transfer.
    pub fn get_statistics(&self) -> (r: TransferStats)
        ensures
            r.total_transfers == self@.len(),
            r.unique_addresses == named_addresses(self@).len(),
            self@.len() == 0 ==> r.earliest_block is None && r.latest_block is None,
            self@.len() > 0 ==> r.earliest_block is Some && r.latest_block is Some,
            r.earliest_block matches Some(b) ==> (forall|i: int|
                0 <= i < self@.len() ==> b <= (#[trigger] self@[i]).block_number) && exists|i: int|
                0 <= i < self@.len() && (#[trigger] self@[i]).block_number == b,
            r.latest_block matches Some(b) ==> (forall|i: int|
                0 <= i < self@.len() ==> b >= (#[trigger] self@[i]).block_number) && exists|i: int|
                0 <= i < self@.len() && (#[trigger] self@[i]).block_number == b,
    {
        let addresses = self.addresses();
        proof {
            addresses@.unique_seq_to_set();
            assert(addresses@.to_set() =~= named_addresses(self@));
        }
        let mut earliest: Option<u64> = None;
        let mut latest: Option<u64> = None;
        let mut i: usize = 0;
        while i < self.rows.len()
            invariant
                i <= self.rows.len(),
                i == 0 ==> earliest is None && latest is None,
                i > 0 ==> earliest is Some && latest is Some,
                earliest matches Some(b) ==> (forall|k: int|
                    0 <= k < i ==> b <= (#[trigger] self.rows@[k]).block_number) && exists|k: int|
                    0 <= k < i && (#[trigger] self.rows@[k]).block_number == b,
                latest matches Some(b) ==> (forall|k: int|
                    0 <= k < i ==> b >= (#[trigger] self.rows@[k]).block_number) && exists|k: int|
                    0 <= k < i && (#[trigger] self.rows@[k]).block_number == b,
            decreases self.rows.len() - i,
        {
            let b = self.rows[i].block_number;
            earliest = match earliest {
                Some(e) => if b < e {
                    Some(b)
                } else {
                    Some(e)
                },
                None => Some(b),
            };
            latest = match latest {
                Some(l) => if b > l {
                    Some(b)
                } else {
                    Some(l)
                },
                None => Some(b),
            };
            assert(self.rows@[i as int].block_number == b);
            i += 1;
        }
        TransferStats {
            total_transfers: self.rows.len(),
            unique_addresses: addresses.len(),
            earliest_block: earliest,
            latest_block: latest,
        }
    }

    /// What an address received and sent over all transfers of the table,
    /// and the balance that gives. Fails where a sum does not fit in 256
    /// bits.
    pub fn get_balance(&self, address: &Address) -> (r: Result<BalanceInfo, SumOverflow>)
        ensures
            r is Err <==> sum_overflows(self@, *address),
            r matches Ok(info) ==> {
                &&& info.total_incoming@ == received_sum(self@, *address)
                &&& info.total_outgoing@ == sent_sum(self@, *address)
                &&& info.balance@ == balance_from_transfers(self@, *address)
            },
    {
        let mut incoming = U256::zero();
        let mut outgoing = U256::zero();
        let mut i: usize = 0;
        while i < self.rows.len()
            invariant
                i <= self.rows.len(),
                incoming@ == received_sum(self@.take(i as int), *address),
                outgoing@ == sent_sum(self@.take(i as int), *address),
            decreases self.rows.len() - i,
        {
            let t = self.rows[i];
            proof {
                assert(self@.take(i + 1).drop_last() =~= self@.take(i as int));
                assert(self@.take(i + 1).last() == t);
                lemma_sums_grow(self@, *address, i + 1);
            }
            if t.to_address == *address {
                incoming = match incoming.checked_add(&t.value) {
                    Some(v) => v,
                    None => {
                        return Err(SumOverflow);
                    },
                };
            }
            if t.from_address == *address {
                outgoing = match outgoing.checked_add(&t.value) {
                    Some(v) => v,
                    None => {
                        return Err(SumOverflow);
                    },
                };
            }
            i += 1;
        }
        proof {
            assert(self@.take(i as int) =~= self@);
            incoming.lemma_bounded();
            outgoing.lemma_bounded();
        }
        Ok(
            BalanceInfo {
                balance: incoming.saturating_sub(&outgoing),
                total_incoming: incoming,
                total_outgoing: outgoing,
            },
        )
    }

    /// The holders with the largest balances as the transfers of the table
    /// give them, largest first, at most `limit` of them; an address with a
    /// balance of zero is no holder. Fails where a sum of some address does
    /// not fit in 256 bits.
    pub fn get_top_holders(&self, limit: usize) -> (r: Result<Vec<TokenHolder>, SumOverflow>)
        ensures
            r is Err <==> exists|a: Address| names(self@, a) && sum_overflows(self@, a),
            r matches Ok(holders) ==> {
                &&& holders@.len() <= limit
                &&& forall|k: int|
                    0 <= k < holders@.len() ==> names(self@, (#[trigger] holders@[k]).address)
                        && holders@[k].balance@ == balance_from_transfers(self@, holders@[k].address)
                        && holders@[k].balance@ > 0
                &&& forall|i: int, j: int|
                    0 <= i < j < holders@.len() ==> (#[trigger] holders@[i]).address != (
                    #[trigger] holders@[j]).address
                &&& forall|i: int, j: int|
                    0 <= i < j < holders@.len() ==> (#[trigger] holders@[i]).balance@ >= (
                    #[trigger] holders@[j]).balance@
                &&& forall|a: Address, k: int|
                    #[trigger] names(self@, a) && 0 <= k < holders@.len() && !(exists|j: int|
                        0 <= j < holders@.len() && (#[trigger] holders@[j]).address == a)
                        ==> balance_from_transfers(self@, a) <= (#[trigger] holders@[k]).balance@
                &&& holders@.len() < limit ==> forall|a: Address|
                    names(self@, a) && balance_from_transfers(self@, a) > 0 ==> exists|j: int|
                        0 <= j < holders@.len() && (#[trigger] holders@[j]).address == a
            },
    {
        let addresses = self.addresses();
        let mut rows: Vec<BalanceRow> = Vec::new();
        let mut i: usize = 0;
        while i < addresses.len()
            invariant
                i <= addresses.len(),
                addresses@.no_duplicates(),
                forall|a: Address| addresses@.contains(a) <==> names(self@, a),
                ledger_wf(rows@),
                forall|k: int| 0 <= k < i ==> !sum_overflows(self@, #[trigger] addresses@[k]),
                forall|k: int|
                    0 <= k < rows@.len() ==> (#[trigger] rows@[k]).balance@ == balance_from_transfers(
                        self@,
                        rows@[k].address,
                    ) && exists|j: int| 0 <= j < i && addresses@[j] == rows@[k].address,
                forall|j: int|
                    0 <= j < i && balance_from_transfers(self@, #[trigger] addresses@[j]) > 0
                        ==> exists|k: int| 0 <= k < rows@.len() && (#[trigger] rows@[k]).address
                        == addresses@[j],
            decreases addresses.len() - i,
        {
            let a = addresses[i];
            let ghost before = rows@;
            let info = match self.get_balance(&a) {
                Ok(info) => info,
                Err(e) => {
                    assert(addresses@.contains(addresses@[i as int]));
                    return Err(e);
                },
            };
            if !info.balance.is_zero() {
                rows.push(BalanceRow { address: a, balance: info.balance });
                proof {
                    let n = before.len() as int;
                    assert(rows@[n].address == a);
                    assert forall|x: int, y: int| 0 <= x < y < rows@.len() implies (#[trigger] rows@[x]).address
                        != (#[trigger] rows@[y]).address by {
                        if y < n {
                            assert(before[x].address != before[y].address);
                        } else {
                            let j = choose|j: int| 0 <= j < i && addresses@[j] == before[x].address;
                            assert(addresses@[j] != addresses@[i as int]);
                        }
                    }
                    assert forall|x: int| 0 <= x < rows@.len() implies (#[trigger] rows@[x]).balance@ > 0 by {
                        if x < n {
                            assert(before[x].balance@ > 0);
                        }
                    }
                }
            }
            proof {
                assert forall|k: int| 0 <= k < rows@.len() implies (#[trigger] rows@[k]).balance@
                    == balance_from_transfers(self@, rows@[k].address) && exists|j: int|
                    0 <= j < i + 1 && addresses@[j] == rows@[k].address by {
                    if k < before.len() {
                        assert(rows@[k] == before[k]);
                        let j = choose|j: int| 0 <= j < i && addresses@[j] == before[k].address;
                        assert(addresses@[j] == rows@[k].address);
                    } else {
                        assert(addresses@[i as int] == rows@[k].address);
                    }
                }
                assert forall|j: int|
                    0 <= j < i + 1 && balance_from_transfers(
                        self@,
                        #[trigger] addresses@[j],
                    ) > 0 implies exists|k: int|
                    0 <= k < rows@.len() && (#[trigger] rows@[k]).address == addresses@[j] by {
                    if j < i {
                        let k = choose|k: int|
                            0 <= k < before.len() && (#[trigger] before[k]).address == addresses@[j];
                        assert(rows@[k].address == addresses@[j]);
                    } else {
                        assert(rows@[before.len() as int].address == addresses@[j]);
                    }
                }
            }
            i += 1;
        }
        let top = top_rows(&rows, limit);
        let mut holders: Vec<TokenHolder> = Vec::new();
        let mut k: usize = 0;
        while k < top.len()
            invariant
                k <= top.len(),
                holders@.len() == k,
                forall|j: int|
                    0 <= j < k ==> (#[trigger] holders@[j]).address == top@[j].address
                        && holders@[j].balance == top@[j].balance,
            decreases top.len() - k,
        {
            holders.push(TokenHolder { address: top[k].address, balance: top[k].balance });
            k += 1;
        }
        proof {
            lemma_holders(self@, addresses@, rows@, top@, holders@, limit);
        }
        Ok(holders)
    }
}

/// The holders picked from the balances of all named addresses are the
/// largest holders of the table.
proof fn lemma_holders(
    table: Seq<Transfer>,
    addresses: Seq<Address>,
    rows: Seq<BalanceRow>,
    top: Seq<BalanceRow>,
    holders: Seq<TokenHolder>,
    limit: usize,
)
    requires
        addresses.no_duplicates(),
        forall|a: Address| addresses.contains(a) <==> names(table, a),
        ledger_wf(rows),
        forall|k: int| 0 <= k < addresses.len() ==> !sum_overflows(table, #[trigger] addresses[k]),
        forall|k: int|
            0 <= k < rows.len() ==> (#[trigger] rows[k]).balance@ == balance_from_transfers(
                table,
                rows[k].address,
            ) && exists|j: int| 0 <= j < addresses.len() && addresses[j] == rows[k].address,
        forall|j: int|
            0 <= j < addresses.len() && balance_from_transfers(table, #[trigger] addresses[j]) > 0
                ==> exists|k: int| 0 <= k < rows.len() && (#[trigger] rows[k]).address == addresses[j],
        top.len() == (if limit <= rows.len() {
            limit as int
        } else {
            rows.len() as int
        }),
        forall|k: int| 0 <= k < top.len() ==> rows.contains(#[trigger] top[k]),
        forall|i: int, j: int| 0 <= i < j < top.len() ==> (#[trigger] top[i]).address != (#[trigger] top[j]).address,
        forall|i: int, j: int| 0 <= i < j < top.len() ==> (#[trigger] top[i]).balance@ >= (#[trigger] top[j]).balance@,
        forall|i: int, k: int|
            0 <= i < rows.len() && 0 <= k < top.len() && !top.contains(#[trigger] rows[i]) ==> rows[i].balance@
                <= (#[trigger] top[k]).balance@,
        holders.len() == top.len(),
        forall|j: int|
            0 <= j < holders.len() ==> (#[trigger] holders[j]).address == top[j].address && holders[j].balance
                == top[j].balance,
    ensures
        forall|a: Address| names(table, a) ==> !sum_overflows(table, a),
        holders.len() <= limit,
        forall|k: int|
            0 <= k < holders.len() ==> names(table, (#[trigger] holders[k]).address) && holders[k].balance@
                == balance_from_transfers(table, holders[k].address) && holders[k].balance@ > 0,
        forall|i: int, j: int|
            0 <= i < j < holders.len() ==> (#[trigger] holders[i]).address != (#[trigger] holders[j]).address,
        forall|i: int, j: int|
            0 <= i < j < holders.len() ==> (#[trigger] holders[i]).balance@ >= (#[trigger] holders[j]).balance@,
        forall|a: Address, k: int|
            #[trigger] names(table, a) && 0 <= k < holders.len() && !(exists|j: int|
                0 <= j < holders.len() && (#[trigger] holders[j]).address == a) ==> balance_from_transfers(
                table,
                a,
            ) <= (#[trigger] holders[k]).balance@,
        holders.len() < limit ==> forall|a: Address|
            names(table, a) && balance_from_transfers(table, a) > 0 ==> exists|j: int|
                0 <= j < holders.len() && (#[trigger] holders[j]).address == a,
{
    assert forall|a: Address| names(table, a) implies !sum_overflows(table, a) by {
        assert(addresses.contains(a));
        let j = choose|j: int| 0 <= j < addresses.len() && addresses[j] == a;
        assert(!sum_overflows(table, addresses[j]));
    }
    assert forall|j: int| 0 <= j < holders.len() implies names(
        table,
        (#[trigger] holders[j]).address,
    ) && holders[j].balance@ == balance_from_transfers(table, holders[j].address)
        && holders[j].balance@ > 0 by {
        assert(rows.contains(top[j]));
        let x = choose|x: int| 0 <= x < rows.len() && rows[x] == top[j];
        let y = choose|y: int| 0 <= y < addresses.len() && addresses[y] == rows[x].address;
        assert(addresses.contains(addresses[y]));
    }
    assert forall|x: int, y: int| 0 <= x < y < holders.len() implies (#[trigger] holders[x]).address
        != (#[trigger] holders[y]).address by {
        assert(top[x].address != top[y].address);
    }
    assert forall|x: int, y: int| 0 <= x < y < holders.len() implies (#[trigger] holders[x]).balance@
        >= (#[trigger] holders[y]).balance@ by {
        assert(top[x].balance@ >= top[y].balance@);
    }
    assert forall|a: Address, z: int|
        #[trigger] names(table, a) && 0 <= z < holders.len() && !(exists|j: int|
            0 <= j < holders.len() && (#[trigger] holders[j]).address == a) implies balance_from_transfers(
        table,
        a,
    ) <= (#[trigger] holders[z]).balance@ by {
        if balance_from_transfers(table, a) > 0 {
            assert(addresses.contains(a));
            let j = choose|j: int| 0 <= j < addresses.len() && addresses[j] == a;
            let x = choose|x: int|
                0 <= x < rows.len() && (#[trigger] rows[x]).address == addresses[j];
            if top.contains(rows[x]) {
                let w = choose|w: int| 0 <= w < top.len() && top[w] == rows[x];
                assert(holders[w].address == a);
                assert(false);
            }
            assert(rows[x].balance@ <= top[z].balance@);
        }
    }
    if holders.len() < limit {
        assert forall|a: Address|
            names(table, a) && balance_from_transfers(table, a) > 0 implies exists|j: int|
            0 <= j < holders.len() && (#[trigger] holders[j]).address == a by {
            assert(addresses.contains(a));
            let j = choose|j: int| 0 <= j < addresses.len() && addresses[j] == a;
            let x = choose|x: int|
                0 <= x < rows.len() && (#[trigger] rows[x]).address == addresses[j];
            assert(top.len() == rows.len());
            lemma_all_selected(rows, top, x);
            let w = choose|w: int| 0 <= w < top.len() && top[w] == rows[x];
            assert(holders[w].address == a);
        }
    }
}

/// A selection that has as many rows as the ledger, all of them rows of the
/// ledger under different addresses, holds every row of the ledger.
pub proof fn lemma_all_selected(rows: Seq<BalanceRow>, top: Seq<BalanceRow>, x: int)
    requires
        ledger_wf(rows),
        top.len() == rows.len(),
        forall|k: int| 0 <= k < top.len() ==> rows.contains(#[trigger] top[k]),
        forall|i: int, j: int| 0 <= i < j < top.len() ==> (#[trigger] top[i]).address != (#[trigger] top[j]).address,
        0 <= x < rows.len(),
    ensures
        top.contains(rows[x]),
{
    let top_addresses = top.map_values(|r: BalanceRow| r.address);
    let row_addresses = rows.map_values(|r: BalanceRow| r.address);
    assert(top_addresses.no_duplicates()) by {
        assert forall|i: int, j: int|
            0 <= i < top_addresses.len() && 0 <= j < top_addresses.len() && i != j implies top_addresses[i]
            != top_addresses[j] by {
            if i < j {
                assert(top[i].address != top[j].address);
            } else {
                assert(top[j].address != top[i].address);
            }
        }
    }
    assert(row_addresses.no_duplicates()) by {
        assert forall|i: int, j: int|
            0 <= i < row_addresses.len() && 0 <= j < row_addresses.len() && i != j implies row_addresses[i]
            != row_addresses[j] by {
            if i < j {
                assert(rows[i].address != rows[j].address);
            } else {
                assert(rows[j].address != rows[i].address);
            }
        }
    }
    top_addresses.unique_seq_to_set();
    row_addresses.unique_seq_to_set();
    assert(top_addresses.to_set().subset_of(row_addresses.to_set())) by {
        assert forall|a: Address| top_addresses.to_set().contains(a) implies row_addresses.to_set().contains(
            a,
        ) by {
            let k = choose|k: int| 0 <= k < top_addresses.len() && top_addresses[k] == a;
            assert(rows.contains(top[k]));
            let i = choose|i: int| 0 <= i < rows.len() && rows[i] == top[k];
            assert(row_addresses[i] == a);
        }
    }
    vstd::set_lib::lemma_subset_equality(top_addresses.to_set(), row_addresses.to_set());
    assert(row_addresses[x] == rows[x].address);
    assert(row_addresses.to_set().contains(rows[x].address));
    assert(top_addresses.contains(rows[x].address));
    let k = choose|k: int| 0 <= k < top_addresses.len() && top_addresses[k] == rows[x].address;
    assert(rows.contains(top[k]));
    let i = choose|i: int| 0 <= i < rows.len() && rows[i] == top[k];
    if i < x {
        assert(rows[i].address != rows[x].address);
    } else if x < i {
        assert(rows[x].address != rows[i].address);
    }
    assert(top[k] == rows[x]);
}

} // verus!
