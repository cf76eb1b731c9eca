use eth_indexer::config::Config;
use eth_indexer::deployment::TokenMetadata;
use eth_indexer::events::{transfer_topic, DecodeError, RawLog};
use eth_indexer::finality::{
    blocks_of, blocks_to_reprocess, chain_block_hashes, finality_target, plan_window, reconcile_window,
    replacement_transfers,
    stored_blocks, window_end, FinalityRun,
};
use std::collections::{HashMap, HashSet};
use eth_indexer::forward::{ForwardScan, Window};
use eth_indexer::insertion_worker::process_batch;
use eth_indexer::primitives::{Address, B256};
use eth_indexer::repository::database::Database;
use eth_indexer::repository::models::{Token, Transfer};
use eth_indexer::rpc::RpcClient;
use eth_indexer::scanner::{ScanError, Scanner};
use eth_indexer::uint::U256;

const TOKEN: u8 = 200;
const A: u8 = 1;
const B: u8 = 2;
const C: u8 = 3;

fn address(n: u8) -> Address {
    let mut bytes = [0u8; 20];
    bytes[19] = n;
    Address::new(bytes)
}

fn hash(n: u8) -> B256 {
    let mut bytes = [0u8; 32];
    bytes[31] = n;
    B256::new(bytes)
}

fn word_of(a: &Address) -> B256 {
    let mut bytes = [0u8; 32];
    bytes[12..].copy_from_slice(&a.bytes);
    B256::new(bytes)
}

fn word_of_value(value: u64) -> Vec<u8> {
    let mut bytes = vec![0u8; 32];
    bytes[24..].copy_from_slice(&value.to_be_bytes());
    bytes
}

fn log(tx: u8, block: u64, block_hash: u8, from: u8, to: u8, value: u64) -> RawLog {
    RawLog {
        topics: vec![transfer_topic(), word_of(&address(from)), word_of(&address(to))],
        data: word_of_value(value),
        block_number: Some(block),
        block_hash: Some(hash(block_hash)),
        transaction_hash: Some(hash(tx)),
        log_index: Some(0),
    }
}

fn row(tx: u8, from: u8, to: u8, value: u64, block: u64, block_hash: u8, finalized: bool) -> Transfer {
    Transfer {
        transaction_hash: hash(tx),
        log_index: 0,
        token_address: address(TOKEN),
        from_address: address(from),
        to_address: address(to),
        value: U256::from_u64(value),
        block_number: block,
        block_hash: hash(block_hash),
        is_finalized: finalized,
    }
}

fn config(batch_size: u64) -> Config {
    Config {
        json_rpc_urls: vec!["http://node".to_string()],
        erc20_contract_address: address(TOKEN),
        database_url: "sqlite:./indexer.db".to_string(),
        batch_size,
        rate_limit_delay_ms: 500,
        max_pending_requests: 30,
        request_timeout_secs: 120,
        finality_update_interval_secs: 60,
        block_time_secs: 12,
    }
}

fn scanner(batch_size: u64) -> Scanner {
    let client = RpcClient::new(vec!["http://node".to_string()]).unwrap();
    let db = Database::new("sqlite:./indexer.db");
    Scanner::new(client, db, &config(batch_size)).unwrap()
}

fn no_metadata() -> TokenMetadata {
    TokenMetadata::new(None, None, None)
}

/// The logs of a mock chain that lie in a window.
fn chain_logs(chain: &[RawLog], from: u64, to: u64) -> Vec<RawLog> {
    chain.iter().filter(|l| (from..=to).contains(&l.block_number.unwrap())).cloned().collect()
}

/// Drives the forward scan until it has caught up with the tip, taking the
/// logs of each window from the mock chain. Returns the end blocks that
/// reached the worker.
fn scan_forward(s: &mut Scanner, deployment: u64, chain: &[RawLog], latest: u64) -> Vec<u64> {
    let mut scan = s.start_forward(deployment).unwrap();
    let mut ends = Vec::new();
    while !scan.is_caught_up(latest) {
        while scan.on_rate_limit_tick(latest).is_some() {}
        while !scan.pending.is_empty() {
            let window = scan.pending[0];
            let logs = chain_logs(chain, window.from, window.to);
            let batch = scan.on_fetch_completed(vec![]);
            assert_eq!(batch.end_block, window.to);
            s.ingest(&logs, batch.end_block).unwrap();
            ends.push(batch.end_block);
        }
    }
    ends
}

/// Runs one tick of the reconciler against the mock chain.
fn tick(s: &mut Scanner, chain: &[RawLog], chain_finalized: u64, is_initial: bool) -> Result<(), ScanError> {
    let mut fetched = Vec::new();
    if let Some(mut run) = s.begin_finality(chain_finalized, is_initial) {
        while let Some((from, to)) = run.next_window(s.batch_size) {
            fetched.push(chain_logs(chain, from, to));
            run.advance(to);
        }
    }
    s.update_finality(is_initial, chain_finalized, &fetched)
}

fn processed(s: &Scanner) -> Option<u64> {
    s.db.tokens.get_last_processed_block(&address(TOKEN))
}

fn finalized(s: &Scanner) -> Option<u64> {
    s.db.tokens.get_last_processed_finalized_block(&address(TOKEN))
}

fn unfinalized_at_or_below_watermark(s: &Scanner) -> usize {
    let mark = finalized(s).unwrap();
    s.db.transfers.rows.iter().filter(|t| !t.is_finalized && t.block_number <= mark).count()
}

#[test]
fn scanner_refuses_a_batch_size_of_zero() {
    let client = RpcClient::new(vec!["http://node".to_string()]).unwrap();
    let db = Database::new("x");
    assert!(matches!(Scanner::new(client, db, &config(0)), Err(ScanError::InvalidBatchSize)));
    let s = scanner(1000);
    assert_eq!(s.transfer_topic, transfer_topic());
    assert_eq!(s.contract_address, address(TOKEN));
    assert_eq!(s.db.db_path, "./indexer.db");
}

#[test]
fn clean_backfill() {
    // Deployment at block 100, tip 350, finalized tip 300, one transfer at 150.
    let chain = vec![log(0xA1, 150, 0x15, A, B, 1000)];
    let mut s = scanner(1000);
    assert_eq!(s.ensure_deployment_block(100, no_metadata()), 100);
    tick(&mut s, &chain, 300, true).unwrap();
    assert_eq!(finalized(&s), Some(100));
    let ends = scan_forward(&mut s, 100, &chain, 350);
    assert_eq!(ends, vec![350]);
    assert_eq!(s.db.transfers.rows.len(), 1);
    assert!(!s.db.transfers.rows[0].is_finalized);
    tick(&mut s, &chain, 300, false).unwrap();
    assert_eq!(s.db.transfers.rows.len(), 1);
    assert!(s.db.transfers.rows[0].is_finalized);
    assert_eq!(s.db.balances.rows.len(), 1);
    assert_eq!(s.db.balances.get_balance(&address(B)), U256::from_u64(1000));
    assert_eq!(s.db.balances.get_balance(&address(A)), U256::zero());
    assert_eq!(processed(&s), Some(350));
    assert_eq!(finalized(&s), Some(300));
    assert_eq!(unfinalized_at_or_below_watermark(&s), 0);
}

#[test]
fn simple_reorg() {
    let mut s = scanner(1000);
    s.ensure_deployment_block(100, no_metadata());
    s.ingest(&vec![log(0xAA, 200, 0x11, A, B, 500)], 250).unwrap();
    assert_eq!(s.db.transfers.rows[0].transaction_hash, hash(0xAA));
    let chain = vec![log(0xBB, 200, 0x22, A, C, 500)];
    tick(&mut s, &chain, 240, false).unwrap();
    assert_eq!(s.db.transfers.rows.len(), 1);
    let kept = &s.db.transfers.rows[0];
    assert_eq!(kept.transaction_hash, hash(0xBB));
    assert_eq!(kept.block_hash, hash(0x22));
    assert_eq!(kept.block_number, 200);
    assert_eq!(kept.to_address, address(C));
    assert!(kept.is_finalized);
    assert!(s.db.transfers.rows.iter().all(|t| t.transaction_hash != hash(0xAA)));
    assert_eq!(s.db.balances.get_balance(&address(C)), U256::from_u64(500));
    assert_eq!(s.db.balances.get_balance(&address(A)), U256::zero());
    assert_eq!(s.db.balances.get_balance(&address(B)), U256::zero());
    assert_eq!(s.db.balances.rows.len(), 1);
    assert_eq!(finalized(&s), Some(240));
}

#[test]
fn startup_before_forward_reconciliation() {
    // The store holds unfinalized transfers in blocks 100 to 250.
    let chain: Vec<RawLog> = [100u64, 150, 200, 240, 241, 250]
        .iter()
        .enumerate()
        .map(|(i, &block)| log(i as u8 + 1, block, (block % 251) as u8, A, B, 10))
        .collect();
    let mut s = scanner(50);
    s.db.tokens.insert(Token {
        address: address(TOKEN),
        deployment_block: 100,
        last_processed_block: Some(99),
        last_processed_finalized_block: Some(99),
        name: None,
        symbol: None,
        decimals: None,
    });
    s.ingest(&chain, 250).unwrap();
    assert!(s.db.transfers.rows.iter().all(|t| !t.is_finalized));
    tick(&mut s, &chain, 240, true).unwrap();
    for t in &s.db.transfers.rows {
        assert_eq!(t.is_finalized, t.block_number <= 240);
    }
    assert_eq!(s.db.transfers.rows.len(), 6);
    assert_eq!(s.db.balances.get_balance(&address(B)), U256::from_u64(40));
    assert_eq!(finalized(&s), Some(240));
    assert_eq!(processed(&s), Some(250));
    assert_eq!(unfinalized_at_or_below_watermark(&s), 0);
}

#[test]
fn crash_recovery() {
    let chain = vec![log(1, 170, 0x17, A, B, 5), log(2, 175, 0x75, A, B, 6), log(3, 176, 0x76, A, B, 7)];
    let mut s = scanner(1000);
    s.ensure_deployment_block(100, no_metadata());
    // The worker committed block 175 and the process died before block 176.
    s.ingest(&chain_logs(&chain, 101, 175), 175).unwrap();
    assert_eq!(processed(&s), Some(175));
    // After the restart the scan resumes at block 176.
    let scan = s.start_forward(100).unwrap();
    assert_eq!(scan.next_block_to_fetch, 176);
    assert_eq!(scan.next_block_to_process, 176);
    // A replay of what was committed adds no row.
    assert_eq!(s.ingest(&chain_logs(&chain, 101, 175), 175).unwrap(), 0);
    let ends = scan_forward(&mut s, 100, &chain, 176);
    assert_eq!(ends, vec![176]);
    assert_eq!(s.db.transfers.rows.len(), 3);
    assert_eq!(processed(&s), Some(176));
}

#[test]
fn replaying_a_log_changes_neither_rows_nor_ledger() {
    let mut s = scanner(1000);
    s.ensure_deployment_block(100, no_metadata());
    let logs = vec![log(1, 170, 0x17, A, B, 5)];
    assert_eq!(s.ingest(&logs, 180).unwrap(), 1);
    tick(&mut s, &logs, 180, false).unwrap();
    let rows_before: Vec<(B256, bool)> =
        s.db.transfers.rows.iter().map(|t| (t.transaction_hash, t.is_finalized)).collect();
    let balance_before = s.db.balances.get_balance(&address(B));
    assert_eq!(s.ingest(&logs, 180).unwrap(), 0);
    assert_eq!(s.ingest(&logs, 180).unwrap(), 0);
    let rows_after: Vec<(B256, bool)> =
        s.db.transfers.rows.iter().map(|t| (t.transaction_hash, t.is_finalized)).collect();
    assert_eq!(rows_after, rows_before);
    assert_eq!(s.db.balances.get_balance(&address(B)), balance_before);
    assert_eq!(s.db.balances.rows.len(), 1);
}

#[test]
fn reconciling_twice_deletes_and_inserts_nothing() {
    let mut db = Database::new("x");
    db.transfers.insert_batch(&vec![
        row(1, A, B, 5, 200, 0x11, false),
        row(2, A, B, 5, 210, 0x21, false),
        row(3, A, B, 5, 220, 0x31, false),
    ]);
    let chain = vec![
        row(4, A, C, 5, 200, 0x12, true),
        row(2, A, B, 5, 210, 0x21, true),
        row(5, A, C, 9, 230, 0x41, true),
    ];
    let first = reconcile_window(&mut db, 150, 250, &chain).unwrap();
    assert_eq!(first, (2, 2, 3));
    let second = reconcile_window(&mut db, 150, 250, &chain).unwrap();
    assert_eq!((second.0, second.1), (0, 0));
    assert_eq!(second.2, 3);
    let blocks: Vec<u64> = db.transfers.rows.iter().map(|t| t.block_number).collect();
    assert_eq!(blocks, vec![210, 200, 230]);
    assert!(db.transfers.rows.iter().all(|t| t.is_finalized));
}

#[test]
fn reorg_detection_names_changed_missing_and_vanished_blocks() {
    let chain = vec![
        row(1, A, B, 5, 10, 0x10, true),
        row(2, A, B, 5, 11, 0x11, true),
        row(3, A, B, 5, 12, 0x12, true),
        row(4, A, B, 5, 10, 0x10, true),
    ];
    let stored: HashMap<u64, B256> =
        [(10u64, hash(0x10)), (11, hash(0xEE)), (13, hash(0x13)), (14, hash(0x14)), (15, hash(0x15))]
            .into_iter()
            .collect();
    let sorted = |mut blocks: Vec<u64>| {
        blocks.sort();
        blocks
    };
    assert_eq!(sorted(blocks_to_reprocess(&chain, &stored)), vec![11, 12, 13, 14, 15]);
    assert_eq!(sorted(blocks_to_reprocess(&chain, &HashMap::new())), vec![10, 11, 12]);
    assert_eq!(sorted(blocks_to_reprocess(&vec![], &stored)), vec![10, 11, 13, 14, 15]);
    assert_eq!(blocks_to_reprocess(&vec![], &HashMap::new()), Vec::<u64>::new());
    assert_eq!(sorted(stored_blocks(&stored)), vec![10, 11, 13, 14, 15]);
    let set: HashSet<u64> = [7u64, 3, 7, 5].into_iter().collect();
    assert_eq!(sorted(blocks_of(&set)), vec![3, 5, 7]);
    let reported = chain_block_hashes(&chain);
    assert_eq!(reported.len(), 3);
    assert_eq!(reported.get(&10), Some(&hash(0x10)));
    assert_eq!(reported.get(&14), None);
    let twice = vec![row(1, A, B, 5, 10, 0x10, true), row(2, A, B, 5, 10, 0x1F, true)];
    assert_eq!(chain_block_hashes(&twice).get(&10), Some(&hash(0x1F)));
    let kept = replacement_transfers(&chain, &vec![12, 10]);
    let txs: Vec<B256> = kept.iter().map(|t| t.transaction_hash).collect();
    assert_eq!(txs, vec![hash(1), hash(3), hash(4)]);
}

#[test]
fn a_window_is_planned_from_logs_and_stored_hashes() {
    let logs = vec![log(1, 10, 0x10, A, B, 5), log(2, 11, 0x11, A, C, 6), log(3, 12, 0x12, B, C, 7)];
    let stored: HashMap<u64, B256> = [(10u64, hash(0x10)), (11, hash(0xEE))].into_iter().collect();
    let plan = plan_window(&logs, &stored, &transfer_topic(), &address(TOKEN)).ok().unwrap();
    assert_eq!(plan.chain_transfers.len(), 3);
    assert!(plan.chain_transfers.iter().all(|t| t.is_finalized));
    let mut blocks = plan.blocks_to_delete.clone();
    blocks.sort();
    assert_eq!(blocks, vec![11, 12]);
    let txs: Vec<B256> = plan.replacements.iter().map(|t| t.transaction_hash).collect();
    assert_eq!(txs, vec![hash(2), hash(3)]);
    let mut broken = logs.clone();
    broken[1].topics.pop();
    assert!(matches!(
        plan_window(&broken, &stored, &transfer_topic(), &address(TOKEN)),
        Err(DecodeError::TopicCount)
    ));
}

#[test]
fn a_corrupt_store_stops_the_reconciler() {
    let mut s = scanner(1000);
    s.ensure_deployment_block(100, no_metadata());
    s.ingest(&vec![log(1, 150, 0x15, A, B, 5), log(2, 150, 0x16, A, B, 5)], 200).unwrap();
    let result = tick(&mut s, &vec![], 200, false);
    match result {
        Err(ScanError::StoreCorruption(e)) => assert_eq!(e.block_number, 150),
        other => panic!("unexpected result {:?}", other.map_err(|_| ())),
    }
    assert_eq!(finalized(&s), Some(100));
    assert_eq!(s.db.transfers.rows.len(), 2);
}

#[test]
fn corruption_is_found_before_a_log_that_does_not_decode() {
    let mut s = scanner(1000);
    s.ensure_deployment_block(100, no_metadata());
    s.ingest(&vec![log(1, 150, 0x15, A, B, 5), log(2, 150, 0x16, A, B, 5)], 200).unwrap();
    let mut short = log(3, 160, 0x17, A, B, 5);
    short.data.truncate(3);
    assert!(matches!(s.update_finality(false, 200, &vec![vec![short.clone()]]), Err(ScanError::StoreCorruption(_))));
    let mut clean = scanner(1000);
    clean.ensure_deployment_block(100, no_metadata());
    clean.ingest(&vec![log(1, 150, 0x15, A, B, 5)], 200).unwrap();
    assert!(matches!(
        clean.update_finality(false, 200, &vec![vec![short]]),
        Err(ScanError::DecodeFailed(DecodeError::ShortData))
    ));
    assert!(!clean.db.transfers.rows[0].is_finalized);
    assert_eq!(finalized(&clean), Some(100));
}

#[test]
fn a_vanished_block_is_deleted() {
    let mut s = scanner(1000);
    s.db.tokens.insert(Token {
        address: address(TOKEN),
        deployment_block: 100,
        last_processed_block: Some(250),
        last_processed_finalized_block: Some(199),
        name: None,
        symbol: None,
        decimals: None,
    });
    s.db.transfers.insert(&row(0xAA, A, B, 500, 200, 0x11, false));
    s.update_finality(false, 240, &vec![vec![]]).unwrap();
    assert!(s.db.transfers.rows.is_empty());
    assert!(s.db.balances.rows.is_empty());
    assert_eq!(finalized(&s), Some(240));
    assert_eq!(processed(&s), Some(250));
}

#[test]
fn the_startup_tick_writes_the_chain_finalized_block() {
    for (is_initial, expected) in [(false, 250), (true, 300)] {
        let mut s = scanner(1000);
        s.db.tokens.insert(Token {
            address: address(TOKEN),
            deployment_block: 100,
            last_processed_block: Some(250),
            last_processed_finalized_block: Some(100),
            name: None,
            symbol: None,
            decimals: None,
        });
        let run = s.begin_finality(300, is_initial).unwrap();
        assert_eq!(run.next_window(1000), Some((101, 250)));
        s.update_finality(is_initial, 300, &vec![vec![]]).unwrap();
        assert_eq!(finalized(&s), Some(expected));
        assert_eq!(processed(&s), Some(250));
    }
}

#[test]
fn a_missing_fetch_fails_the_tick_and_keeps_the_watermark() {
    let mut s = scanner(10);
    s.ensure_deployment_block(100, no_metadata());
    let chain = vec![log(1, 105, 0x15, A, B, 5), log(2, 125, 0x25, A, B, 6)];
    s.ingest(&chain, 130).unwrap();
    let fetched = vec![chain_logs(&chain, 101, 110)];
    assert!(matches!(s.update_finality(false, 130, &fetched), Err(ScanError::FetchFailed)));
    assert_eq!(finalized(&s), Some(100));
    assert!(s.db.transfers.rows[0].is_finalized);
    assert!(!s.db.transfers.rows[1].is_finalized);
    assert_eq!(unfinalized_at_or_below_watermark(&s), 0);
}

#[test]
fn a_log_of_another_shape_fails_the_window() {
    let mut s = scanner(1000);
    s.ensure_deployment_block(100, no_metadata());
    let mut short = log(1, 150, 0x15, A, B, 5);
    short.data.truncate(31);
    assert!(matches!(s.ingest(&vec![short], 200), Err(ScanError::DecodeFailed(DecodeError::ShortData))));
    let mut other = log(1, 150, 0x15, A, B, 5);
    other.topics[0] = hash(9);
    assert!(matches!(s.ingest(&vec![other], 200), Err(ScanError::DecodeFailed(DecodeError::Signature))));
    let mut few = log(1, 150, 0x15, A, B, 5);
    few.topics.pop();
    assert!(matches!(s.ingest(&vec![few], 200), Err(ScanError::DecodeFailed(DecodeError::TopicCount))));
    let mut pending = log(1, 150, 0x15, A, B, 5);
    pending.block_number = None;
    assert!(matches!(
        s.ingest(&vec![log(2, 150, 0x15, A, B, 5), pending], 200),
        Err(ScanError::DecodeFailed(DecodeError::MissingPosition))
    ));
    assert_eq!(s.db.transfers.rows.len(), 0);
    assert_eq!(processed(&s), Some(100));
}

#[test]
fn transfers_at_or_below_the_watermark_are_ingested_as_finalized() {
    let mut s = scanner(1000);
    s.ensure_deployment_block(100, no_metadata());
    s.db.tokens.update_last_processed_finalized_block(&address(TOKEN), 160);
    assert!(s.should_mark_as_finalized(160));
    assert!(s.should_mark_as_finalized(0));
    assert!(!s.should_mark_as_finalized(161));
    s.ingest(&vec![log(1, 160, 0x15, A, B, 5), log(2, 161, 0x16, A, B, 5)], 200).unwrap();
    assert!(s.db.transfers.rows[0].is_finalized);
    assert!(!s.db.transfers.rows[1].is_finalized);
    assert_eq!(unfinalized_at_or_below_watermark(&s), 0);
    let unknown = scanner(1000);
    assert!(!unknown.should_mark_as_finalized(0));
}

#[test]
fn the_deployment_block_is_recorded_once() {
    let mut s = scanner(1000);
    let metadata = TokenMetadata::new(Some("Coin".to_string()), Some("CN".to_string()), Some(18));
    assert_eq!(s.ensure_deployment_block(100, metadata), 100);
    assert_eq!(s.ensure_deployment_block(777, no_metadata()), 100);
    assert_eq!(s.db.tokens.rows.len(), 1);
    assert_eq!(s.db.tokens.rows[0].symbol, Some("CN".to_string()));
    assert_eq!(s.db.tokens.get_token_decimals(&address(TOKEN)), Some(18));
    assert_eq!(processed(&s), Some(100));
    assert_eq!(finalized(&s), Some(100));
}

#[test]
fn the_target_is_the_smaller_of_finalized_chain_and_processed() {
    assert_eq!(finality_target(100, 350, 300), Some(300));
    assert_eq!(finality_target(100, 250, 300), Some(250));
    assert_eq!(finality_target(100, 100, 300), None);
    assert_eq!(finality_target(300, 350, 300), None);
    assert_eq!(finality_target(0, 0, 0), None);
    assert_eq!(window_end(101, 1000, 300), 300);
    assert_eq!(window_end(101, 100, 300), 200);
    assert_eq!(window_end(300, 1, 300), 300);
    assert_eq!(window_end(5, u64::MAX, u64::MAX), u64::MAX);
}

#[test]
fn a_tick_walks_its_window_in_chunks() {
    let mut run = FinalityRun::start(Some(100), Some(350), 300, false).unwrap();
    assert_eq!(run.target, 300);
    let mut windows = Vec::new();
    while let Some((from, to)) = run.next_window(80) {
        windows.push((from, to));
        run.advance(to);
    }
    assert_eq!(windows, vec![(101, 180), (181, 260), (261, 300)]);
    assert_eq!(run.watermark(), 300);
    let initial = FinalityRun::start(Some(200), Some(250), 300, true).unwrap();
    assert_eq!(initial.target, 250);
    assert_eq!(initial.watermark(), 300);
    assert!(FinalityRun::start(None, None, 300, true).is_none());
    let fresh = FinalityRun::start(None, Some(5), 300, false).unwrap();
    assert_eq!(fresh.next_from, Some(1));
}

#[test]
fn windows_reach_the_worker_in_order_and_without_gaps() {
    let mut scan = ForwardScan::new(100, 50, 3);
    let mut started = Vec::new();
    let mut ends = Vec::new();
    let mut latest = 230;
    for round in 0..40 {
        if let Some(w) = scan.on_rate_limit_tick(latest) {
            started.push(w);
        }
        // A fetch delivers on every third round only: fetches overlap.
        if round % 3 == 2 && !scan.pending.is_empty() {
            ends.push(scan.on_fetch_completed(vec![]).end_block);
        }
        if scan.is_caught_up(latest) {
            latest += 17;
            scan.resume();
        }
    }
    assert_eq!(started[0], Window { from: 101, to: 150 });
    assert_eq!(started[1], Window { from: 151, to: 200 });
    assert_eq!(started[2], Window { from: 201, to: 230 });
    for pair in started.windows(2) {
        assert_eq!(pair[1].from, pair[0].to + 1);
    }
    for pair in ends.windows(2) {
        assert!(pair[0] < pair[1]);
    }
    let expected: Vec<u64> = started.iter().take(ends.len()).map(|w| w.to).collect();
    assert_eq!(ends, expected);
    assert!(ends.len() >= 4);
}

#[test]
fn no_more_fetches_in_flight_than_allowed() {
    let mut scan = ForwardScan::new(0, 10, 2);
    assert_eq!(scan.on_rate_limit_tick(1000), Some(Window { from: 1, to: 10 }));
    assert_eq!(scan.on_rate_limit_tick(1000), Some(Window { from: 11, to: 20 }));
    assert_eq!(scan.on_rate_limit_tick(1000), None);
    assert_eq!(scan.pending.len(), 2);
    let batch = scan.on_fetch_completed(vec![row(1, A, B, 1, 5, 5, false)]);
    assert_eq!(batch.end_block, 10);
    assert_eq!(batch.transfers.len(), 1);
    assert_eq!(scan.next_block_to_process, 11);
    assert_eq!(scan.on_rate_limit_tick(1000), Some(Window { from: 21, to: 30 }));
    let mut idle = ForwardScan::new(99, 10, 2);
    assert!(idle.is_caught_up(99));
    assert!(!idle.is_caught_up(100));
    assert_eq!(idle.on_rate_limit_tick(99), None);
    assert_eq!(idle.on_rate_limit_tick(103), Some(Window { from: 100, to: 103 }));
    assert!(!idle.is_caught_up(103));
}

#[test]
fn resuming_starts_again_at_the_next_block_to_process() {
    let mut scan = ForwardScan::new(100, 50, 3);
    scan.next_block_to_fetch = 500;
    scan.resume();
    assert_eq!(scan.next_block_to_fetch, 101);
    assert_eq!(scan.next_block_to_process, 101);
    assert_eq!(scan.on_rate_limit_tick(120), Some(Window { from: 101, to: 120 }));
    // While a fetch is in flight, resuming changes nothing.
    scan.resume();
    assert_eq!(scan.next_block_to_fetch, 121);
    assert_eq!(scan.pending, vec![Window { from: 101, to: 120 }]);
}

#[test]
fn the_worker_leaves_the_ledger_alone() {
    let mut s = scanner(1000);
    s.ensure_deployment_block(100, no_metadata());
    s.db.balances.update_balance(&address(A), &U256::from_u64(77));
    let batch = eth_indexer::insertion_worker::TransferBatch {
        transfers: vec![row(1, A, B, 5, 150, 0x15, true)],
        end_block: 160,
    };
    process_batch(&mut s.db, &address(TOKEN), &batch);
    assert_eq!(s.db.balances.get_balance(&address(A)), U256::from_u64(77));
    assert_eq!(s.db.balances.rows.len(), 1);
}
