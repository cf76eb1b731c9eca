use eth_indexer::events::RawLog;
use eth_indexer::primitives::B256;
use eth_indexer::rpc::{
    backoff_delay_ms, is_range_too_large, parse_max_results_error, range_from_groups, FailureDecision, LogFetch,
    LogFetchAction, RetryDecision, RpcClient, RpcError,
};

fn pool(names: &[&str]) -> RpcClient {
    RpcClient::new(names.iter().map(|s| s.to_string()).collect()).unwrap()
}

fn log_at(block: u64) -> RawLog {
    RawLog {
        topics: vec![],
        data: vec![],
        block_number: Some(block),
        block_hash: Some(B256::new([0u8; 32])),
        transaction_hash: Some(B256::new([1u8; 32])),
        log_index: Some(0),
    }
}

fn blocks(logs: &[RawLog]) -> Vec<u64> {
    logs.iter().map(|l| l.block_number.unwrap()).collect()
}

#[test]
fn a_client_needs_an_endpoint() {
    assert_eq!(RpcClient::new(vec![]).unwrap_err(), RpcError::NoEndpoints);
    let client = pool(&["http://a"]);
    assert_eq!(client.get_current_url(), "http://a");
    assert_eq!(client.max_attempts, 5);
}

#[test]
fn rotation_goes_round_the_pool() {
    let mut client = pool(&["http://one", "http://two", "http://three"]);
    assert_eq!(client.get_current_url(), "http://one");
    client.rotate_provider();
    assert_eq!(client.get_current_url(), "http://two");
    client.rotate_provider();
    assert_eq!(client.get_current_url(), "http://three");
    client.rotate_provider();
    assert_eq!(client.get_current_url(), "http://one");
    client.current_provider = 7;
    assert_eq!(client.get_current_url(), "http://two");
    client.rotate_provider();
    assert_eq!(client.current_provider, 2);
}

#[test]
fn backoff_doubles_from_100_ms_up_to_10_s() {
    let delays: Vec<u64> = (0..10).map(backoff_delay_ms).collect();
    assert_eq!(delays, vec![100, 200, 400, 800, 1600, 3200, 6400, 10_000, 10_000, 10_000]);
    assert_eq!(backoff_delay_ms(u32::MAX), 10_000);
}

#[test]
fn the_retry_strategy_has_one_delay_less_than_attempts() {
    let mut client = pool(&["http://one"]);
    assert_eq!(client.get_retry_strategy(), vec![100, 200, 400, 800]);
    client.max_attempts = 1;
    assert_eq!(client.get_retry_strategy(), Vec::<u64>::new());
    client.max_attempts = 0;
    assert_eq!(client.get_retry_strategy(), Vec::<u64>::new());
}

#[test]
fn provider_rotation_after_a_failure() {
    // The first endpoint of three fails every call.
    let mut client = pool(&["http://one", "http://two", "http://three"]);
    let decision = client.handle_error(1);
    assert_eq!(decision, RetryDecision::RetryAfter { delay_ms: 100 });
    assert_eq!(client.get_current_url(), "http://two");
    // The calls that follow succeed on the second endpoint: nothing rotates.
    for _ in 0..3 {
        assert_eq!(client.get_current_url(), "http://two");
    }
    assert_eq!(client.current_provider, 1);
}

#[test]
fn the_fifth_failure_gives_up() {
    let mut client = pool(&["http://one", "http://two"]);
    assert_eq!(client.handle_error(1), RetryDecision::RetryAfter { delay_ms: 100 });
    assert_eq!(client.handle_timeout(2), RetryDecision::RetryAfter { delay_ms: 200 });
    assert_eq!(client.handle_error(3), RetryDecision::RetryAfter { delay_ms: 400 });
    assert_eq!(client.handle_error(4), RetryDecision::RetryAfter { delay_ms: 800 });
    assert_eq!(client.handle_error(5), RetryDecision::GiveUp);
    assert_eq!(client.get_current_url(), "http://two");
}

#[test]
fn a_range_error_is_handed_out_without_rotation() {
    let mut client = pool(&["http://one", "http://two"]);
    let error = "exceeds max results; retry with the range 100-149";
    assert_eq!(client.on_failure(error, 1, true), FailureDecision::Surface);
    assert_eq!(client.get_current_url(), "http://one");
    assert_eq!(client.current_provider, 0);
    // Where range errors are not asked for, it is a failure like any other.
    assert_eq!(client.on_failure(error, 1, false), FailureDecision::RetryAfter { delay_ms: 100 });
    assert_eq!(client.get_current_url(), "http://two");
    assert_eq!(client.on_failure("connection reset", 2, true), FailureDecision::RetryAfter { delay_ms: 200 });
    assert_eq!(client.get_current_url(), "http://one");
    assert_eq!(client.on_failure("connection reset", 5, true), FailureDecision::GiveUp);
    assert_eq!(client.get_current_url(), "http://two");
}

#[test]
fn range_errors_are_recognised() {
    assert!(is_range_too_large("query exceeds max results 20000, retry with the range 100-149"));
    assert!(is_range_too_large("exceeds max results"));
    assert!(!is_range_too_large("exceeds max result"));
    assert!(!is_range_too_large("Exceeds Max Results"));
    assert!(!is_range_too_large(""));
    assert!(!is_range_too_large("connection reset"));
}

#[test]
fn the_suggested_range_is_read_from_the_error() {
    assert_eq!(
        parse_max_results_error("exceeds max results; retry with the range 100-149"),
        Some((100, 149))
    );
    assert_eq!(parse_max_results_error("retry with the range 7-7."), Some((7, 7)));
    assert_eq!(parse_max_results_error("x retry with the range 12 retry with the range 3-4"), Some((3, 4)));
    assert_eq!(parse_max_results_error("retry with the range 100-"), None);
    assert_eq!(parse_max_results_error("retry with the range -5"), None);
    assert_eq!(parse_max_results_error("exceeds max results"), None);
    assert_eq!(parse_max_results_error(""), None);
    assert_eq!(parse_max_results_error("retry with the range 1-99999999999999999999999"), None);
    assert_eq!(parse_max_results_error("retry with the range 0-18446744073709551615"), Some((0, u64::MAX)));
    assert_eq!(parse_max_results_error("retry with the range ١٢-٣٤ retry with the range 1-2"), None);
}

#[test]
fn a_range_needs_two_numbers() {
    assert_eq!(range_from_groups("100", "149"), Some((100, 149)));
    assert_eq!(range_from_groups("", "149"), None);
    assert_eq!(range_from_groups("100", "x"), None);
    assert_eq!(range_from_groups("18446744073709551616", "1"), None);
}

#[test]
fn split_range_response() {
    // The server refuses [100, 199] and suggests [100, 149].
    let (fetch, action) = LogFetch::start(100, 199);
    assert!(matches!(action, LogFetchAction::Fetch { from: 100, to: 199 }));
    let error = "exceeds max results; retry with the range 100-149".to_string();
    assert!(is_range_too_large(&error));
    let (fetch, action) = fetch.on_error(error);
    assert!(matches!(action, LogFetchAction::Fetch { from: 100, to: 149 }));
    let (fetch, action) = fetch.on_logs(vec![log_at(100), log_at(149)]);
    assert!(matches!(action, LogFetchAction::Fetch { from: 150, to: 199 }));
    assert_eq!(fetch.current_from, 150);
    let (_, action) = fetch.on_logs(vec![log_at(150), log_at(199)]);
    match action {
        LogFetchAction::Done { logs } => assert_eq!(blocks(&logs), vec![100, 149, 150, 199]),
        other => panic!("unexpected action {:?}", other),
    }
}

#[test]
fn a_query_that_is_not_refused_is_one_fetch() {
    let (fetch, _) = LogFetch::start(5, 9);
    let (_, action) = fetch.on_logs(vec![log_at(6)]);
    match action {
        LogFetchAction::Done { logs } => assert_eq!(blocks(&logs), vec![6]),
        other => panic!("unexpected action {:?}", other),
    }
}

#[test]
fn an_empty_range_is_done_at_once() {
    let (_, action) = LogFetch::start(10, 9);
    match action {
        LogFetchAction::Done { logs } => assert!(logs.is_empty()),
        other => panic!("unexpected action {:?}", other),
    }
}

#[test]
fn a_suggested_range_that_covers_the_rest_ends_the_query() {
    let (fetch, _) = LogFetch::start(100, 199);
    let (fetch, action) = fetch.on_error("exceeds max results, retry with the range 100-199".to_string());
    assert!(matches!(action, LogFetchAction::Fetch { from: 100, to: 199 }));
    let (_, action) = fetch.on_logs(vec![log_at(120)]);
    match action {
        LogFetchAction::Done { logs } => assert_eq!(blocks(&logs), vec![120]),
        other => panic!("unexpected action {:?}", other),
    }
}

#[test]
fn other_errors_end_the_query() {
    let (fetch, _) = LogFetch::start(100, 199);
    let (_, action) = fetch.on_error("connection reset".to_string());
    match action {
        LogFetchAction::Failed { error } => assert_eq!(error, "connection reset"),
        other => panic!("unexpected action {:?}", other),
    }
    let (fetch, _) = LogFetch::start(100, 199);
    let (_, action) = fetch.on_error("exceeds max results".to_string());
    assert!(matches!(action, LogFetchAction::Failed { .. }));
}

#[test]
fn a_failed_suggested_range_ends_the_query() {
    let (fetch, _) = LogFetch::start(100, 199);
    let (fetch, _) = fetch.on_error("exceeds max results; retry with the range 100-149".to_string());
    let (_, action) = fetch.on_error("exceeds max results; retry with the range 100-120".to_string());
    match action {
        LogFetchAction::Failed { error } => {
            assert_eq!(error, "exceeds max results; retry with the range 100-120")
        }
        other => panic!("unexpected action {:?}", other),
    }
}
