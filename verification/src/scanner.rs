//! The scanner: the store of one token together with the settings of its
//! scan. Its forward side ingests the logs of fetched windows; its
//! reconciler brings the store in line with the finalized chain. Fetching
//! is the caller's part: what was fetched is handed in.

use vstd::prelude::*;
use crate::config::Config;
use crate::deployment::TokenMetadata;
use crate::events::{transfer_topic, transfer_topic_bytes, DecodeError, RawLog};
use crate::finality::{
    all_finalized, balance_at_window, chunk_end, decode_logs, decoded_chain, finalized_tag, finalized_up_to,
    decodes_to, first_log_error, keep_blocks, lemma_keep_blocks,
    lemma_last_window, lemma_plan_matches_rows, lemma_window_finalizes, lemma_window_is_needed, plan_window,
    reorg_set, rows_at_window, rows_decode, tick_chains, window_balance, window_from, window_passes, window_rows,
    windows_needed, windows_pass, FinalityRun,
};
use crate::forward::ForwardScan;
use crate::insertion_worker::{process_batch, TransferBatch};
use crate::primitives::{Address, B256};
use crate::repository::database::Database;
use crate::repository::models::{Token, Transfer};
use crate::repository::token_repository::{deployment_block_of, finalized_block_of, has_token, processed_block_of};
use crate::repository::transfer_repository::{
    hash_conflict, insert_rows, lemma_insert_rows, records_hash, StoreCorruption,
};
use crate::rpc::RpcClient;

verus! {

/// Why the scanner stops.
#[derive(Clone, Copy, Debug)]
pub enum ScanError {
    /// The batch size is zero: no window would hold a block.
    InvalidBatchSize,
    /// A log is no transfer event.
    DecodeFailed(DecodeError),
    /// The store records two hashes for one block.
    StoreCorruption(StoreCorruption),
    /// The logs of a window could not be fetched.
    FetchFailed,
}

/// The scanner of one token.
pub struct Scanner {
    pub client: RpcClient,
    pub db: Database,
    pub contract_address: Address,
    pub transfer_topic: B256,
    pub batch_size: u64,
    pub rate_limit_delay_ms: u64,
    pub max_pending_requests: usize,
    pub finality_update_interval_secs: u64,
    pub block_time_secs: u64,
}

impl Scanner {
    /// Whether the scanner is well formed.
    pub open spec fn wf(&self) -> bool {
        &&& self.client.wf()
        &&& self.db.wf()
        &&& self.batch_size >= 1
        &&& self.transfer_topic.bytes@ == transfer_topic_bytes()
    }

    /// The finalized watermark of the token, if the store has one.
    pub open spec fn finalized_watermark(&self) -> Option<u64> {
        finalized_block_of(self.db.tokens@, self.contract_address)
    }

    /// The processed watermark of the token, if the store has one.
    pub open spec fn processed_watermark(&self) -> Option<u64> {
        processed_block_of(self.db.tokens@, self.contract_address)
    }

    /// Whether no transfer at or below the finalized watermark is left
    /// unfinalized.
    pub open spec fn settled(&self) -> bool {
        self.finalized_watermark() matches Some(w) ==> finalized_up_to(self.db.transfers@, w)
    }

    /// A scanner over a store and a pool of endpoints, with the settings of
    /// the configuration.
    pub fn new(client: RpcClient, db: Database, config: &Config) -> (r: Result<Scanner, ScanError>)
        requires
            client.wf(),
            db.wf(),
        ensures
            r is Err <==> config.batch_size == 0,
            r matches Err(e) ==> e is InvalidBatchSize,
            r matches Ok(s) ==> {
                &&& s.wf()
                &&& s.client == client
                &&& s.db == db
                &&& s.contract_address == config.erc20_contract_address
                &&& s.batch_size == config.batch_size
                &&& s.rate_limit_delay_ms == config.rate_limit_delay_ms
                &&& s.max_pending_requests == config.max_pending_requests
                &&& s.finality_update_interval_secs == config.finality_update_interval_secs
                &&& s.block_time_secs == config.block_time_secs
            },
    {
        if config.batch_size == 0 {
            return Err(ScanError::InvalidBatchSize);
        }
        Ok(
            Scanner {
                client,
                db,
                contract_address: config.erc20_contract_address,
                transfer_topic: transfer_topic(),
                batch_size: config.batch_size,
                rate_limit_delay_ms: config.rate_limit_delay_ms,
                max_pending_requests: config.max_pending_requests,
                finality_update_interval_secs: config.finality_update_interval_secs,
                block_time_secs: config.block_time_secs,
            },
        )
    }

    /// The deployment block of the token where the store knows it. Else the
    /// token is recorded with the given deployment block, both watermarks at
    /// that block, and the given metadata.
    pub fn ensure_deployment_block(&mut self, found_block: u64, metadata: TokenMetadata) -> (block: u64)
        requires
            old(self).wf(),
        ensures
            final(self).wf(),
            block == (match deployment_block_of(old(self).db.tokens@, old(self).contract_address) {
                Some(b) => b,
                None => found_block,
            }),
            has_token(old(self).db.tokens@, old(self).contract_address) ==> final(self).db.tokens@
                == old(self).db.tokens@,
            !has_token(old(self).db.tokens@, old(self).contract_address) ==> final(self).db.tokens@
                == old(self).db.tokens@.push(
                Token {
                    address: old(self).contract_address,
                    deployment_block: found_block,
                    last_processed_block: Some(found_block),
                    last_processed_finalized_block: Some(found_block),
                    name: metadata.name,
                    symbol: metadata.symbol,
                    decimals: metadata.decimals,
                },
            ),
            final(self).db.transfers == old(self).db.transfers,
            final(self).db.balances == old(self).db.balances,
            final(self).contract_address == old(self).contract_address,
            final(self).batch_size == old(self).batch_size,
    {
        match self.db.tokens.get_deployment_block(&self.contract_address) {
            Some(block) => block,
            None => {
                let token = Token {
                    address: self.contract_address,
                    deployment_block: found_block,
                    last_processed_block: Some(found_block),
                    last_processed_finalized_block: Some(found_block),
                    name: metadata.name,
                    symbol: metadata.symbol,
                    decimals: metadata.decimals,
                };
                self.db.tokens.insert(token);
                found_block
            },
        }
    }

    /// Whether a transfer of the given block is ingested as finalized: the
    /// block is at or below the finalized watermark.
    pub fn should_mark_as_finalized(&self, block_number: u64) -> (r: bool)
        requires
            self.wf(),
        ensures
            r == finalized_tag(self.finalized_watermark(), block_number),
    {
        match self.db.tokens.get_last_processed_finalized_block(&self.contract_address) {
            Some(last_finalized) => block_number <= last_finalized,
            None => false,
        }
    }

    /// The bookkeeping of a forward scan that resumes after the last
    /// processed block, or after `deployment_block` where the store has no
    /// such watermark. `None` where that block is the last that a 64-bit
    /// number can name.
    pub fn start_forward(&self, deployment_block: u64) -> (r: Option<ForwardScan>)
        requires
            self.wf(),
        ensures
            ({
                let last = match self.processed_watermark() {
                    Some(b) => b,
                    None => deployment_block,
                };
                &&& r is Some <==> last < u64::MAX
                &&& r matches Some(scan) ==> {
                    &&& scan@.wf()
                    &&& scan@.next_block_to_fetch == last + 1
                    &&& scan@.next_block_to_process == last + 1
                    &&& scan@.pending.len() == 0
                    &&& scan@.batch_size == self.batch_size
                    &&& scan@.max_pending_requests == self.max_pending_requests
                }
            }),
    {
        let last = match self.db.tokens.get_last_processed_block(&self.contract_address) {
            Some(b) => b,
            None => deployment_block,
        };
        if last < u64::MAX {
            Some(ForwardScan::new(last, self.batch_size, self.max_pending_requests))
        } else {
            None
        }
    }

    /// Decodes the logs of a fetched window into rows, each marked as
    /// finalized where its block is at or below the finalized watermark. The
    /// first log that is no transfer event, or lacks a position, fails the
    /// list with what is wrong with it.
    pub fn decode_fetched(&self, logs: &Vec<RawLog>) -> (r: Result<Vec<Transfer>, ScanError>)
        requires
            self.wf(),
        ensures
            r is Ok <==> first_log_error(logs@, self.transfer_topic) is None,
            r matches Ok(ts) ==> ts@ == decoded_chain(
                logs@,
                self.transfer_topic,
                self.contract_address,
                self.finalized_watermark(),
            ),
            r is Ok ==> rows_decode(
                logs@,
                self.transfer_topic,
                self.contract_address,
                self.finalized_watermark(),
            ),
            r matches Err(e) ==> e matches ScanError::DecodeFailed(d) && first_log_error(
                logs@,
                self.transfer_topic,
            ) == Some(d),
    {
        let watermark = self.db.tokens.get_last_processed_finalized_block(&self.contract_address);
        match decode_logs(logs, &self.transfer_topic, &self.contract_address, watermark) {
            Ok(rows) => Ok(rows),
            Err(e) => Err(ScanError::DecodeFailed(e)),
        }
    }

    /// Ingests the logs of one fetched window that ends at `end_block`: the
    /// transfers go into the store, but for those whose key is taken, and
    /// the processed watermark moves to `end_block`. A log that is no
    /// transfer event fails the window with `DecodeFailed` and changes
    /// nothing. No transfer at or below the finalized watermark is left
    /// unfinalized by this, if none was before.
    pub fn ingest(&mut self, logs: &Vec<RawLog>, end_block: u64) -> (r: Result<usize, ScanError>)
        requires
            old(self).wf(),
        ensures
            final(self).wf(),
            final(self).contract_address == old(self).contract_address,
            final(self).batch_size == old(self).batch_size,
            final(self).transfer_topic == old(self).transfer_topic,
            final(self).db.balances@ == old(self).db.balances@,
            final(self).finalized_watermark() == old(self).finalized_watermark(),
            r is Ok <==> first_log_error(logs@, old(self).transfer_topic) is None,
            r matches Err(e) ==> e matches ScanError::DecodeFailed(d) && first_log_error(
                logs@,
                old(self).transfer_topic,
            ) == Some(d) && final(self).db == old(self).db,
            r matches Ok(inserted) ==> {
                &&& rows_decode(
                    logs@,
                    old(self).transfer_topic,
                    old(self).contract_address,
                    old(self).finalized_watermark(),
                )
                &&& final(self).db.transfers@ == insert_rows(
                    old(self).db.transfers@,
                    decoded_chain(
                        logs@,
                        old(self).transfer_topic,
                        old(self).contract_address,
                        old(self).finalized_watermark(),
                    ),
                )
                &&& inserted == final(self).db.transfers@.len() - old(self).db.transfers@.len()
                &&& has_token(old(self).db.tokens@, old(self).contract_address)
                    ==> final(self).processed_watermark() == Some(end_block)
            },
            old(self).settled() ==> final(self).settled(),
    {
        let transfers = match self.decode_fetched(logs) {
            Ok(transfers) => transfers,
            Err(e) => {
                return Err(e);
            },
        };
        let ghost before = self.db.transfers@;
        let ghost decoded = transfers@;
        let ghost mark = self.finalized_watermark();
        let batch = TransferBatch { transfers, end_block };
        let inserted = process_batch(&mut self.db, &self.contract_address, &batch);
        proof {
            lemma_insert_rows(before, decoded);
            if old(self).settled() {
                if let Some(w) = self.finalized_watermark() {
                    let after = self.db.transfers@;
                    assert forall|i: int|
                        0 <= i < after.len() && (#[trigger] after[i]).block_number <= w implies after[i].is_finalized by {
                        if before.contains(after[i]) {
                            let j = choose|j: int| 0 <= j < before.len() && before[j] == after[i];
                            assert(before[j].is_finalized);
                        } else {
                            let j = choose|j: int| 0 <= j < decoded.len() && decoded[j] == after[i];
                            assert(decodes_to(
                                logs@[j],
                                self.transfer_topic,
                                self.contract_address,
                                mark,
                                decoded_chain(logs@, self.transfer_topic, self.contract_address, mark)[j],
                            ));
                        }
                    }
                }
            }
        }
        Ok(inserted)
    }

    /// Begins a tick of the reconciler, given the chain's finalized block.
    /// `None` where there is nothing to reconcile.
    pub fn begin_finality(&self, chain_finalized: u64, is_initial: bool) -> (r: Option<FinalityRun>)
        requires
            self.wf(),
        ensures
            ({
                let finalized = match self.finalized_watermark() {
                    Some(b) => b,
                    None => 0,
                };
                let processed = match self.processed_watermark() {
                    Some(b) => b,
                    None => 0,
                };
                let target = if chain_finalized <= processed {
                    chain_finalized
                } else {
                    processed
                };
                r == (if target <= finalized {
                    None
                } else {
                    Some(
                        FinalityRun {
                            is_initial,
                            chain_finalized,
                            target,
                            next_from: Some((finalized + 1) as u64),
                        },
                    )
                })
            }),
            r matches Some(run) ==> run.wf(),
    {
        let last_finalized = self.db.tokens.get_last_processed_finalized_block(&self.contract_address);
        let last_processed = self.db.tokens.get_last_processed_block(&self.contract_address);
        FinalityRun::start(last_finalized, last_processed, chain_finalized, is_initial)
    }

    /// Reconciles one window of a tick with the logs that the finalized
    /// chain reports for it, and moves the tick on. The hashes that the store
    /// records are read first, then the logs are decoded as finalized
    /// transfers. A block of the window with two recorded hashes fails the
    /// window with `StoreCorruption`, and else a log that does not decode
    /// with `DecodeFailed`; on an error nothing changes.
    pub fn reconcile_logs(&mut self, run: &mut FinalityRun, from: u64, to: u64, logs: &Vec<RawLog>) -> (r:
        Result<(usize, usize, usize), ScanError>)
        requires
            old(self).wf(),
            old(run).wf(),
            old(run).next_from == Some(from),
            from <= to <= old(run).target,
        ensures
            final(self).wf(),
            final(run).wf(),
            final(self).contract_address == old(self).contract_address,
            final(self).batch_size == old(self).batch_size,
            final(self).transfer_topic == old(self).transfer_topic,
            final(self).db.tokens == old(self).db.tokens,
            final(run).is_initial == old(run).is_initial,
            final(run).chain_finalized == old(run).chain_finalized,
            final(run).target == old(run).target,
            r is Err <==> hash_conflict(old(self).db.transfers@, from, to) || first_log_error(
                logs@,
                old(self).transfer_topic,
            ) is Some,
            r matches Err(e) ==> final(self).db == old(self).db && *final(run) == *old(run) && (match e {
                ScanError::StoreCorruption(c) => hash_conflict(old(self).db.transfers@, from, to)
                    && records_hash(old(self).db.transfers@, from, to, c.block_number, c.first_hash)
                    && records_hash(old(self).db.transfers@, from, to, c.block_number, c.second_hash)
                    && c.first_hash != c.second_hash,
                ScanError::DecodeFailed(d) => !hash_conflict(old(self).db.transfers@, from, to)
                    && first_log_error(logs@, old(self).transfer_topic) == Some(d),
                _ => false,
            }),
            r matches Ok(counts) ==> {
                let before = old(self).db.transfers@;
                let chain = decoded_chain(
                    logs@,
                    old(self).transfer_topic,
                    old(self).contract_address,
                    Some(u64::MAX),
                );
                let blocks = reorg_set(chain, before, from, to);
                let kept = crate::repository::transfer_repository::delete_blocks(before, blocks);
                &&& final(run).next_from == (if to == old(run).target {
                    None
                } else {
                    Some((to + 1) as u64)
                })
                &&& rows_decode(
                    logs@,
                    old(self).transfer_topic,
                    old(self).contract_address,
                    Some(u64::MAX),
                )
                &&& final(self).db.transfers@ == window_rows(before, chain, from, to)
                &&& forall|a: Address|
                    #[trigger] final(self).db.balances.balance(a) == window_balance(
                        old(self).db.balances.balance(a),
                        chain,
                        a,
                    )
                &&& counts.0 == before.len() - kept.len()
                &&& counts.1 == insert_rows(kept, keep_blocks(chain, blocks)).len() - kept.len()
                &&& counts.2 == crate::repository::transfer_repository::count_in_range(
                    final(self).db.transfers@,
                    from,
                    to,
                )
            },
            r is Ok && (forall|i: int|
                0 <= i < old(self).db.transfers@.len() && (#[trigger] old(self).db.transfers@[i]).block_number
                    < from ==> old(self).db.transfers@[i].is_finalized)
                ==> finalized_up_to(final(self).db.transfers@, to),
    {
        let stored = match self.db.transfers.get_block_hashes_in_range(from, to) {
            Ok(pairs) => pairs,
            Err(e) => {
                return Err(ScanError::StoreCorruption(e));
            },
        };
        let plan = match plan_window(logs, &stored, &self.transfer_topic, &self.contract_address) {
            Ok(plan) => plan,
            Err(e) => {
                return Err(ScanError::DecodeFailed(e));
            },
        };
        let ghost before = self.db.transfers@;
        let ghost chain = plan.chain_transfers@;
        proof {
            lemma_plan_matches_rows(before, stored@, chain, plan.blocks_to_delete@, from, to);
        }
        let counts = self.db.transfers.process_finality_batch(
            &plan.blocks_to_delete,
            &plan.replacements,
            from,
            to,
        );
        self.db.balances.apply_transfers(&plan.chain_transfers);
        run.advance(to);
        proof {
            let blocks = reorg_set(chain, before, from, to);
            let kept = keep_blocks(chain, blocks);
            lemma_keep_blocks(chain, blocks);
            assert(all_finalized(kept)) by {
                assert forall|i: int| 0 <= i < kept.len() implies (#[trigger] kept[i]).is_finalized by {
                    assert(chain.contains(kept[i]));
                    let j = choose|j: int| 0 <= j < chain.len() && chain[j] == kept[i];
                    assert(chain[j].is_finalized);
                }
            }
            if forall|i: int|
                0 <= i < before.len() && (#[trigger] before[i]).block_number < from ==> before[i].is_finalized {
                lemma_window_finalizes(before, blocks, kept, from, to);
            }
        }
        Ok(counts)
    }

    /// Ends a tick of the reconciler: writes the finalized watermark.
    pub fn finish_finality(&mut self, run: &FinalityRun)
        requires
            old(self).wf(),
        ensures
            final(self).wf(),
            final(self).contract_address == old(self).contract_address,
            final(self).batch_size == old(self).batch_size,
            final(self).transfer_topic == old(self).transfer_topic,
            final(self).db.transfers == old(self).db.transfers,
            final(self).db.balances == old(self).db.balances,
            final(self).processed_watermark() == old(self).processed_watermark(),
            final(self).finalized_watermark() == (if has_token(
                old(self).db.tokens@,
                old(self).contract_address,
            ) {
                Some(
                    if run.is_initial {
                        run.chain_finalized
                    } else {
                        run.target
                    },
                )
            } else {
                None
            }),
    {
        let update_to = run.watermark();
        self.db.tokens.update_last_processed_finalized_block(&self.contract_address, update_to);
    }

    /// One whole tick of the reconciler, given the chain's finalized block
    /// and, for each chunk of the window in order, the logs that the chain
    /// reports for it.
    ///
    /// The tick succeeds where there is nothing to reconcile, and else where
    /// every chunk goes through: its logs were handed in, the store records
    /// one hash for each of its blocks when the chunk is reached, and its
    /// logs decode. Then the store is what the chunks left, one after the
    /// other, and the finalized watermark is written. The first chunk that
    /// does not go through ends the tick: with `FetchFailed` where its logs
    /// were not handed in, with `StoreCorruption` where a block has two
    /// hashes, with `DecodeFailed` for a log that does not decode. The store
    /// is then what the chunks before it left and the watermark is where it
    /// was, for the next tick to begin again.
    ///
    /// No transfer at or below the finalized watermark is left unfinalized
    /// by a tick, if none was before and the store had a finalized
    /// watermark, and if no unfinalized transfer lies between the last
    /// reconciled block and the new watermark, which the tick at startup may
    /// move further.
    pub fn update_finality(&mut self, is_initial: bool, chain_finalized: u64, fetched: &Vec<Vec<RawLog>>) -> (r:
        Result<(), ScanError>)
        requires
            old(self).wf(),
        ensures
            final(self).wf(),
            final(self).contract_address == old(self).contract_address,
            final(self).batch_size == old(self).batch_size,
            final(self).transfer_topic == old(self).transfer_topic,
            final(self).processed_watermark() == old(self).processed_watermark(),
            old(self).begin_finality_spec(chain_finalized, is_initial) is None ==> r is Ok && final(self).db
                == old(self).db,
            old(self).begin_finality_spec(chain_finalized, is_initial) matches Some(run) ==> {
                let first = run.next_from->0;
                let batch = old(self).batch_size;
                let topic = old(self).transfer_topic;
                let token = old(self).contract_address;
                let rows = old(self).db.transfers@;
                let n = windows_needed(first, batch, run.target) as int;
                &&& r is Ok <==> windows_pass(rows, fetched@, topic, token, first, batch, run.target, n)
                &&& r is Ok ==> {
                    &&& forall|j: int|
                        0 <= j < n ==> rows_decode((#[trigger] fetched@[j])@, topic, token, Some(u64::MAX))
                    &&& final(self).db.transfers@ == rows_at_window(
                        rows,
                        fetched@,
                        topic,
                        token,
                        first,
                        batch,
                        run.target,
                        n,
                    )
                    &&& forall|a: Address|
                        #[trigger] final(self).db.balances.balance(a) == balance_at_window(
                            old(self).db.balances.balance(a),
                            fetched@,
                            topic,
                            token,
                            n,
                            a,
                        )
                    &&& final(self).finalized_watermark() == (if has_token(old(self).db.tokens@, token) {
                        Some(
                            if is_initial {
                                chain_finalized
                            } else {
                                run.target
                            },
                        )
                    } else {
                        None
                    })
                }
                &&& r matches Err(e) ==> exists|k: int|
                    {
                        let from = window_from(first, batch, k);
                        let reached = rows_at_window(rows, fetched@, topic, token, first, batch, run.target, k);
                        &&& 0 <= k < n
                        &&& forall|j: int|
                            0 <= j < k ==> rows_decode((#[trigger] fetched@[j])@, topic, token, Some(u64::MAX))
                        &&& windows_pass(rows, fetched@, topic, token, first, batch, run.target, k)
                        &&& !#[trigger] window_passes(rows, fetched@, topic, token, first, batch, run.target, k)
                        &&& final(self).db.transfers@ == reached
                        &&& forall|a: Address|
                            #[trigger] final(self).db.balances.balance(a) == balance_at_window(
                                old(self).db.balances.balance(a),
                                fetched@,
                                topic,
                                token,
                                k,
                                a,
                            )
                        &&& final(self).db.tokens == old(self).db.tokens
                        &&& match e {
                            ScanError::FetchFailed => k >= fetched@.len(),
                            ScanError::StoreCorruption(c) => k < fetched@.len() && hash_conflict(
                                reached,
                                from,
                                chunk_end(from, batch, run.target),
                            ) && records_hash(
                                reached,
                                from,
                                chunk_end(from, batch, run.target),
                                c.block_number,
                                c.first_hash,
                            ) && records_hash(
                                reached,
                                from,
                                chunk_end(from, batch, run.target),
                                c.block_number,
                                c.second_hash,
                            ) && c.first_hash != c.second_hash,
                            ScanError::DecodeFailed(d) => k < fetched@.len() && !hash_conflict(
                                reached,
                                from,
                                chunk_end(from, batch, run.target),
                            ) && first_log_error(fetched@[k]@, topic) == Some(d),
                            ScanError::InvalidBatchSize => false,
                        }
                    }
            },
            r is Err ==> final(self).finalized_watermark() == old(self).finalized_watermark(),
            old(self).settled() && old(self).finalized_watermark() is Some && (forall|i: int|
                0 <= i < final(self).db.transfers@.len() && (match old(self).begin_finality_spec(
                    chain_finalized,
                    is_initial,
                ) {
                    Some(run) => run.target < (#[trigger] final(self).db.transfers@[i]).block_number,
                    None => false,
                }) && (match final(self).finalized_watermark() {
                    Some(w) => final(self).db.transfers@[i].block_number <= w,
                    None => false,
                }) ==> final(self).db.transfers@[i].is_finalized) ==> final(self).settled(),
    {
        let mut run = match self.begin_finality(chain_finalized, is_initial) {
            Some(run) => run,
            None => {
                return Ok(());
            },
        };
        let ghost start = run;
        let ghost old_mark = old(self).finalized_watermark();
        let ghost first: u64 = start.next_from->0;
        let ghost batch = self.batch_size;
        let ghost topic = self.transfer_topic;
        let ghost token = self.contract_address;
        let ghost rows0 = old(self).db.transfers@;
        let ghost chains = tick_chains(fetched@, topic, token);
        let mut k: usize = 0;
        proof {
            assert(chains.take(0) =~= Seq::<Seq<Transfer>>::empty());
        }
        loop
            invariant
                self.wf(),
                run.wf(),
                batch == self.batch_size,
                batch >= 1,
                topic == self.transfer_topic,
                token == self.contract_address,
                topic == old(self).transfer_topic,
                token == old(self).contract_address,
                batch == old(self).batch_size,
                rows0 == old(self).db.transfers@,
                chains == tick_chains(fetched@, topic, token),
                self.db.tokens == old(self).db.tokens,
                run.is_initial == is_initial,
                run.chain_finalized == chain_finalized,
                run.target == start.target,
                Some(start) == old(self).begin_finality_spec(chain_finalized, is_initial),
                Some(first) == start.next_from,
                first <= start.target,
                old_mark == old(self).finalized_watermark(),
                k <= fetched@.len(),
                forall|j: int|
                    0 <= j < k ==> rows_decode((#[trigger] fetched@[j])@, topic, token, Some(u64::MAX)),
                windows_pass(rows0, fetched@, topic, token, first, batch, start.target, k as int),
                self.db.transfers@ == rows_at_window(
                    rows0,
                    fetched@,
                    topic,
                    token,
                    first,
                    batch,
                    start.target,
                    k as int,
                ),
                forall|a: Address|
                    #[trigger] self.db.balances.balance(a) == balance_at_window(
                        old(self).db.balances.balance(a),
                        fetched@,
                        topic,
                        token,
                        k as int,
                        a,
                    ),
                run.next_from matches Some(f) ==> f == first + k * batch,
                run.next_from is None ==> k == windows_needed(first, batch, start.target),
                run.next_from matches Some(f) ==> f >= 1,
                old(self).settled() && old_mark is Some ==> (match run.next_from {
                    Some(f) => forall|i: int|
                        0 <= i < self.db.transfers@.len() && (#[trigger] self.db.transfers@[i]).block_number
                            < f ==> self.db.transfers@[i].is_finalized,
                    None => finalized_up_to(self.db.transfers@, run.target),
                }),
                old(self).settled() ==> (old_mark matches Some(w) ==> finalized_up_to(
                    self.db.transfers@,
                    w,
                )),
                old_mark matches Some(w) ==> (run.next_from matches Some(f) ==> w < f),
                old_mark matches Some(w) ==> w <= run.target,
            ensures
                run.next_from is None,
            decreases
                    (match run.next_from {
                        Some(f) => run.target - f + 1,
                        None => 0,
                    }),
        {
            let (from, to) = match run.next_window(self.batch_size) {
                Some(w) => w,
                None => {
                    break ;
                },
            };
            proof {
                lemma_window_is_needed(first, batch, start.target, k as int);
                assert(from == window_from(first, batch, k as int));
                assert(to == chunk_end(from, batch, start.target));
            }
            if k >= fetched.len() {
                proof {
                    assert(!window_passes(rows0, fetched@, topic, token, first, batch, start.target, k as int));
                }
                return Err(ScanError::FetchFailed);
            }
            let ghost before = self.db.transfers@;
            let ghost before_db = self.db;
            match self.reconcile_logs(&mut run, from, to, &fetched[k]) {
                Ok(_) => {},
                Err(e) => {
                    proof {
                        assert(!window_passes(rows0, fetched@, topic, token, first, batch, start.target, k as int));
                    }
                    return Err(e);
                },
            }
            proof {
                let chain = decoded_chain(fetched@[k as int]@, topic, token, Some(u64::MAX));
                assert(chains[k as int] == chain);
                let grown = chains.take(k + 1);
                assert(grown.drop_last() =~= chains.take(k as int));
                assert(grown.last() == chain);
                assert((k + 1) * batch == k * batch + batch) by (nonlinear_arith);
                assert(window_passes(rows0, fetched@, topic, token, first, batch, start.target, k as int));
                assert forall|j: int| 0 <= j < k + 1 implies #[trigger] window_passes(
                    rows0,
                    fetched@,
                    topic,
                    token,
                    first,
                    batch,
                    start.target,
                    j,
                ) by {}
                assert forall|a: Address|
                    #[trigger] self.db.balances.balance(a) == balance_at_window(
                        old(self).db.balances.balance(a),
                        fetched@,
                        topic,
                        token,
                        k + 1,
                        a,
                    ) by {
                    assert(before_db.balances.balance(a) == balance_at_window(
                        old(self).db.balances.balance(a),
                        fetched@,
                        topic,
                        token,
                        k as int,
                        a,
                    ));
                }
                if to == start.target {
                    lemma_last_window(first, batch, start.target, k as int);
                }
                if old(self).settled() && old_mark is Some {
                    assert(finalized_up_to(self.db.transfers@, to));
                    if let Some(w) = old_mark {
                        assert forall|i: int|
                            0 <= i < self.db.transfers@.len() && (#[trigger] self.db.transfers@[i]).block_number
                                <= w implies self.db.transfers@[i].is_finalized by {}
                    }
                }
            }
            k += 1;
        }
        self.finish_finality(&run);
        proof {
            if old(self).settled() && old_mark is Some && (forall|i: int|
                0 <= i < self.db.transfers@.len() && start.target < (#[trigger] self.db.transfers@[i]).block_number
                    && (match self.finalized_watermark() {
                    Some(w) => self.db.transfers@[i].block_number <= w,
                    None => false,
                }) ==> self.db.transfers@[i].is_finalized) {
                assert(finalized_up_to(self.db.transfers@, run.target));
                if let Some(w) = self.finalized_watermark() {
                    assert forall|i: int|
                        0 <= i < self.db.transfers@.len() && (#[trigger] self.db.transfers@[i]).block_number
                            <= w implies self.db.transfers@[i].is_finalized by {}
                }
            }
        }
        Ok(())
    }

    /// The tick that `begin_finality` begins.
    pub open spec fn begin_finality_spec(&self, chain_finalized: u64, is_initial: bool) -> Option<FinalityRun> {
        let finalized = match self.finalized_watermark() {
            Some(b) => b,
            None => 0,
        };
        let processed = match self.processed_watermark() {
            Some(b) => b,
            None => 0,
        };
        let target = if chain_finalized <= processed {
            chain_finalized
        } else {
            processed
        };
        if target <= finalized {
            None
        } else {
            Some(
                FinalityRun {
                    is_initial,
                    chain_finalized,
                    target,
                    next_from: Some((finalized + 1) as u64),
                },
            )
        }
    }
}

} // verus!
