use eth_indexer::insertion_worker::{process_batch, run_insertion_worker, TransferBatch};
use eth_indexer::primitives::{Address, B256};
use eth_indexer::repository::database::{migration_pending, Database};
use eth_indexer::repository::models::{Token, Transfer};
use eth_indexer::repository::token_repository::TokenRepository;
use eth_indexer::repository::transfer_repository::TransferRepository;
use eth_indexer::uint::U256;

fn address(n: u8) -> Address {
    let mut bytes = [0u8; 20];
    bytes[19] = n;
    Address::new(bytes)
}

fn hash(n: u8) -> B256 {
    let mut bytes = [0u8; 32];
    bytes[31] = n;
    B256::new(bytes)
}

fn row(tx: u8, index: u64, from: u8, to: u8, value: u64, block: u64, block_hash: u8, finalized: bool) -> Transfer {
    Transfer {
        transaction_hash: hash(tx),
        log_index: index,
        token_address: address(200),
        from_address: address(from),
        to_address: address(to),
        value: U256::from_u64(value),
        block_number: block,
        block_hash: hash(block_hash),
        is_finalized: finalized,
    }
}

fn keys(table: &TransferRepository) -> Vec<(u8, u64, u64, bool)> {
    table
        .rows
        .iter()
        .map(|t| (t.transaction_hash.bytes[31], t.log_index, t.block_number, t.is_finalized))
        .collect()
}

fn token(address_byte: u8, deployment: u64) -> Token {
    Token {
        address: address(address_byte),
        deployment_block: deployment,
        last_processed_block: None,
        last_processed_finalized_block: None,
        name: Some("Token".to_string()),
        symbol: None,
        decimals: Some(6),
    }
}

#[test]
fn insert_skips_a_key_that_is_taken() {
    let mut table = TransferRepository::new();
    assert!(table.insert(&row(1, 0, 1, 2, 10, 5, 50, false)));
    assert!(table.insert(&row(1, 1, 1, 2, 10, 5, 50, false)));
    assert!(!table.insert(&row(1, 0, 7, 8, 99, 6, 60, true)));
    assert_eq!(keys(&table), vec![(1, 0, 5, false), (1, 1, 5, false)]);
    assert_eq!(table.rows[0].value, U256::from_u64(10));
    assert!(table.contains_key(&row(1, 1, 0, 0, 0, 0, 0, false)));
    assert!(!table.contains_key(&row(2, 1, 0, 0, 0, 0, 0, false)));
}

#[test]
fn insert_batch_counts_the_rows_that_went_in() {
    let mut table = TransferRepository::new();
    let batch = vec![
        row(1, 0, 1, 2, 10, 5, 50, false),
        row(2, 0, 1, 2, 10, 5, 50, false),
        row(1, 0, 1, 2, 10, 5, 50, false),
    ];
    assert_eq!(table.insert_batch(&batch), 2);
    assert_eq!(table.insert_batch(&vec![]), 0);
    assert_eq!(keys(&table), vec![(1, 0, 5, false), (2, 0, 5, false)]);
}

#[test]
fn replaying_a_batch_changes_nothing() {
    let mut table = TransferRepository::new();
    let batch = vec![row(1, 0, 1, 2, 10, 5, 50, false), row(2, 3, 2, 1, 4, 6, 60, false)];
    assert_eq!(table.insert_batch(&batch), 2);
    let before = keys(&table);
    assert_eq!(table.insert_batch(&batch), 0);
    assert_eq!(keys(&table), before);
}

#[test]
fn delete_blocks_removes_the_rows_of_those_blocks() {
    let mut table = TransferRepository::new();
    table.insert_batch(&vec![
        row(1, 0, 1, 2, 10, 5, 50, false),
        row(2, 0, 1, 2, 10, 6, 60, false),
        row(3, 0, 1, 2, 10, 5, 50, false),
        row(4, 0, 1, 2, 10, 7, 70, false),
    ]);
    assert_eq!(table.delete_blocks(&vec![5, 5, 9]), 2);
    assert_eq!(keys(&table), vec![(2, 0, 6, false), (4, 0, 7, false)]);
    assert_eq!(table.delete_blocks(&vec![]), 0);
}

#[test]
fn mark_finalized_counts_the_rows_of_the_range() {
    let mut table = TransferRepository::new();
    table.insert_batch(&vec![
        row(1, 0, 1, 2, 10, 5, 50, false),
        row(2, 0, 1, 2, 10, 6, 60, true),
        row(3, 0, 1, 2, 10, 8, 80, false),
    ]);
    assert_eq!(table.mark_finalized(5, 6), 2);
    assert_eq!(keys(&table), vec![(1, 0, 5, true), (2, 0, 6, true), (3, 0, 8, false)]);
    assert_eq!(table.mark_finalized(9, 3), 0);
}

#[test]
fn finality_batch_deletes_inserts_and_marks() {
    let mut table = TransferRepository::new();
    table.insert_batch(&vec![
        row(1, 0, 1, 2, 10, 5, 50, false),
        row(2, 0, 1, 2, 10, 6, 60, false),
        row(3, 0, 1, 2, 10, 9, 90, false),
    ]);
    let counts = table.process_finality_batch(
        &vec![6],
        &vec![row(7, 0, 1, 3, 10, 6, 61, true), row(1, 0, 1, 3, 10, 6, 61, true)],
        5,
        6,
    );
    assert_eq!(counts, (1, 1, 2));
    assert_eq!(keys(&table), vec![(1, 0, 5, true), (3, 0, 9, false), (7, 0, 6, true)]);
}

#[test]
fn block_hashes_list_each_block_once() {
    let mut table = TransferRepository::new();
    table.insert_batch(&vec![
        row(1, 0, 1, 2, 10, 7, 70, false),
        row(2, 0, 1, 2, 10, 5, 50, false),
        row(3, 0, 1, 2, 10, 7, 70, false),
        row(4, 0, 1, 2, 10, 9, 90, false),
    ]);
    let stored = table.get_block_hashes_in_range(5, 8).unwrap();
    assert_eq!(stored.len(), 2);
    assert_eq!(stored.get(&7), Some(&hash(70)));
    assert_eq!(stored.get(&5), Some(&hash(50)));
    assert_eq!(stored.get(&9), None);
    assert!(table.get_block_hashes_in_range(10, 20).unwrap().is_empty());
}

#[test]
fn two_hashes_for_one_block_are_corruption() {
    let mut table = TransferRepository::new();
    table.insert_batch(&vec![
        row(1, 0, 1, 2, 10, 7, 70, false),
        row(2, 0, 1, 2, 10, 7, 71, false),
    ]);
    let error = table.get_block_hashes_in_range(0, 100).unwrap_err();
    assert_eq!(error.block_number, 7);
    assert_eq!(error.first_hash, hash(70));
    assert_eq!(error.second_hash, hash(71));
    assert!(table.get_block_hashes_in_range(8, 100).is_ok());
}

#[test]
fn queries_filter_and_page() {
    let mut table = TransferRepository::new();
    table.insert_batch(&vec![
        row(1, 0, 1, 2, 10, 5, 50, false),
        row(2, 0, 2, 3, 20, 6, 60, false),
        row(3, 0, 1, 3, 30, 7, 70, false),
        row(4, 0, 1, 2, 40, 8, 80, false),
    ]);
    let values = |views: Vec<eth_indexer::repository::transfer_repository::TransferView>| -> Vec<U256> {
        views.iter().map(|v| v.value).collect()
    };
    let n = |x: u64| U256::from_u64(x);
    assert_eq!(values(table.query_transfers(Some(&address(1)), None, None, 100, 0)), vec![n(10), n(30), n(40)]);
    assert_eq!(values(table.query_transfers(Some(&address(1)), Some(&address(2)), None, 100, 0)), vec![n(10), n(40)]);
    assert_eq!(values(table.query_transfers(None, None, Some((6, 7)), 100, 0)), vec![n(20), n(30)]);
    assert_eq!(values(table.query_transfers(None, None, None, 2, 1)), vec![n(20), n(30)]);
    assert_eq!(values(table.query_transfers(None, None, None, 2, 3)), vec![n(40)]);
    assert_eq!(values(table.query_transfers(None, None, None, 2, 9)), vec![]);
    assert_eq!(values(table.query_transfers(None, None, None, usize::MAX, 1)), vec![n(20), n(30), n(40)]);
    assert_eq!(values(table.get_address_history(&address(3), 100, 0)), vec![n(20), n(30)]);
    assert_eq!(values(table.get_address_history(&address(3), 1, 1)), vec![n(30)]);
}

#[test]
fn statistics_count_transfers_addresses_and_blocks() {
    let mut table = TransferRepository::new();
    let empty = table.get_statistics();
    assert_eq!(empty.total_transfers, 0);
    assert_eq!(empty.unique_addresses, 0);
    assert_eq!(empty.earliest_block, None);
    assert_eq!(empty.latest_block, None);
    table.insert_batch(&vec![
        row(1, 0, 1, 2, 10, 7, 70, false),
        row(2, 0, 2, 3, 20, 5, 50, false),
        row(3, 0, 1, 1, 30, 9, 90, false),
    ]);
    let stats = table.get_statistics();
    assert_eq!(stats.total_transfers, 3);
    assert_eq!(stats.unique_addresses, 3);
    assert_eq!(stats.earliest_block, Some(5));
    assert_eq!(stats.latest_block, Some(9));
}

#[test]
fn balance_from_transfers_sums_all_rows() {
    let mut table = TransferRepository::new();
    table.insert_batch(&vec![
        row(1, 0, 1, 2, 100, 7, 70, false),
        row(2, 0, 2, 3, 30, 8, 80, true),
        row(3, 0, 3, 2, 5, 9, 90, false),
    ]);
    let info = table.get_balance(&address(2)).unwrap();
    assert_eq!(info.total_incoming, U256::from_u64(105));
    assert_eq!(info.total_outgoing, U256::from_u64(30));
    assert_eq!(info.balance, U256::from_u64(75));
    let sender = table.get_balance(&address(1)).unwrap();
    assert_eq!(sender.balance, U256::zero());
    assert_eq!(sender.total_outgoing, U256::from_u64(100));
}

#[test]
fn a_sum_that_does_not_fit_is_an_error() {
    let mut table = TransferRepository::new();
    let mut huge = row(1, 0, 1, 2, 0, 7, 70, false);
    huge.value = U256::max_value();
    table.insert(&huge);
    table.insert(&row(2, 0, 1, 2, 1, 8, 80, false));
    assert!(table.get_balance(&address(2)).is_err());
    assert!(table.get_balance(&address(1)).is_err());
    assert!(table.get_balance(&address(3)).is_ok());
    assert!(table.get_top_holders(5).is_err());
}

#[test]
fn top_holders_from_transfers() {
    let mut table = TransferRepository::new();
    table.insert_batch(&vec![
        row(1, 0, 9, 1, 100, 7, 70, false),
        row(2, 0, 9, 2, 300, 8, 80, false),
        row(3, 0, 9, 3, 200, 9, 90, false),
        row(4, 0, 3, 1, 150, 9, 90, false),
    ]);
    let holders = table.get_top_holders(2).unwrap();
    let seen: Vec<(Address, U256)> = holders.iter().map(|h| (h.address, h.balance)).collect();
    assert_eq!(seen, vec![(address(2), U256::from_u64(300)), (address(1), U256::from_u64(250))]);
    let all = table.get_top_holders(10).unwrap();
    assert_eq!(all.len(), 3);
    assert_eq!(all[2].address, address(3));
    assert_eq!(all[2].balance, U256::from_u64(50));
}

#[test]
fn token_rows_start_at_the_deployment_block() {
    let mut tokens = TokenRepository::new();
    assert_eq!(tokens.get_deployment_block(&address(1)), None);
    assert!(tokens.insert(token(1, 100)));
    assert!(!tokens.insert(token(1, 999)));
    assert_eq!(tokens.get_deployment_block(&address(1)), Some(100));
    assert_eq!(tokens.get_last_processed_block(&address(1)), Some(100));
    assert_eq!(tokens.get_last_processed_finalized_block(&address(1)), Some(100));
    assert_eq!(tokens.get_token_decimals(&address(1)), Some(6));
    assert_eq!(tokens.get_token_decimals(&address(2)), None);
    assert_eq!(tokens.rows[0].name, Some("Token".to_string()));
}

#[test]
fn watermarks_are_set_per_token() {
    let mut tokens = TokenRepository::new();
    tokens.insert(token(1, 100));
    tokens.insert(token(2, 200));
    tokens.update_last_processed_block(&address(2), 350);
    tokens.update_last_processed_finalized_block(&address(2), 300);
    tokens.update_last_processed_block(&address(9), 1);
    assert_eq!(tokens.get_last_processed_block(&address(1)), Some(100));
    assert_eq!(tokens.get_last_processed_block(&address(2)), Some(350));
    assert_eq!(tokens.get_last_processed_finalized_block(&address(2)), Some(300));
    assert_eq!(tokens.get_last_processed_finalized_block(&address(1)), Some(100));
    assert_eq!(tokens.get_last_processed_block(&address(9)), None);
    assert_eq!(tokens.rows.len(), 2);
    assert_eq!(tokens.rows[1].deployment_block, 200);
}

#[test]
fn database_drops_the_sqlite_prefix() {
    assert_eq!(Database::new("sqlite:./indexer.db").db_path, "./indexer.db");
    assert_eq!(Database::new("./indexer.db").db_path, "./indexer.db");
    assert_eq!(Database::new("sqlite:").db_path, "");
    assert_eq!(Database::new("SQLITE:x").db_path, "SQLITE:x");
    assert_eq!(Database::new("sqlit").db_path, "sqlit");
}

#[test]
fn a_migration_runs_once() {
    let mut db = Database::new("x");
    assert_eq!(db.applied_migrations, vec![1]);
    assert!(!db.migration_pending(1));
    assert!(db.migration_pending(2));
    // A migration that failed is not recorded and stays pending.
    assert!(db.migration_pending(2));
    db.record_migration(2);
    assert!(!db.migration_pending(2));
    db.run_migrations();
    assert_eq!(db.applied_migrations, vec![1, 2]);
    db.applied_migrations.clear();
    assert!(migration_pending(&db.applied_migrations, 1));
    db.run_migrations();
    assert_eq!(db.applied_migrations, vec![1]);
}

#[test]
fn worker_inserts_and_moves_the_processed_watermark() {
    let mut db = Database::new("x");
    db.tokens.insert(token(200, 100));
    let batch = TransferBatch { transfers: vec![row(1, 0, 1, 2, 10, 150, 50, false)], end_block: 199 };
    assert_eq!(process_batch(&mut db, &address(200), &batch), 1);
    assert_eq!(db.tokens.get_last_processed_block(&address(200)), Some(199));
    assert_eq!(db.tokens.get_last_processed_finalized_block(&address(200)), Some(100));
    let empty = TransferBatch { transfers: vec![], end_block: 299 };
    assert_eq!(process_batch(&mut db, &address(200), &empty), 0);
    assert_eq!(db.tokens.get_last_processed_block(&address(200)), Some(299));
    assert_eq!(db.transfers.rows.len(), 1);
    assert_eq!(db.balances.rows.len(), 0);
}

#[test]
fn worker_takes_the_batches_in_order() {
    let mut db = Database::new("x");
    db.tokens.insert(token(200, 100));
    let batches = vec![
        TransferBatch { transfers: vec![row(1, 0, 1, 2, 10, 150, 50, false)], end_block: 199 },
        TransferBatch { transfers: vec![], end_block: 299 },
        TransferBatch {
            transfers: vec![row(2, 0, 1, 2, 10, 310, 51, false), row(1, 0, 1, 2, 10, 150, 50, false)],
            end_block: 399,
        },
    ];
    run_insertion_worker(&mut db, &address(200), &batches);
    assert_eq!(keys(&db.transfers), vec![(1, 0, 150, false), (2, 0, 310, false)]);
    assert_eq!(db.tokens.get_last_processed_block(&address(200)), Some(399));
}
