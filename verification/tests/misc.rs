use eth_indexer::config::{Config, ConfigError, EnvVars};
use eth_indexer::deployment::{DeploymentSearch, NotDeployed, TokenMetadata};
use eth_indexer::events::{decode_transfer_event, decode_with_topic, transfer_row, transfer_topic, DecodeError, RawLog};
use eth_indexer::primitives::{Address, B256};
use eth_indexer::query::commands::{resolve_address, resolve_transfer_query, QueryError, TransferQuery};
use eth_indexer::query::formatters::{format_from_lowercase, format_tx_hash, OutputFormat};
use eth_indexer::text::{chars_of, contains_text, is_white_space, split_list, strip_prefix, trim_bounds};
use eth_indexer::uint::U256;

const CONTRACT: &str = "0xdAC17F958D2ee523a2206206994597C13D831ec7";

fn vars() -> EnvVars {
    EnvVars {
        json_rpc_urls: None,
        json_rpc_url: None,
        erc20_contract_address: Some(CONTRACT.to_string()),
        database_url: None,
        batch_size: None,
        rate_limit_delay_ms: None,
        max_pending_requests: None,
        request_timeout_secs: None,
        finality_update_interval_secs: None,
        block_time_secs: None,
    }
}

fn some(text: &str) -> Option<String> {
    Some(text.to_string())
}

fn contract_bytes() -> [u8; 20] {
    [
        0xda, 0xc1, 0x7f, 0x95, 0x8d, 0x2e, 0xe5, 0x23, 0xa2, 0x20, 0x62, 0x06, 0x99, 0x45, 0x97, 0xc1, 0x3d,
        0x83, 0x1e, 0xc7,
    ]
}

#[test]
fn the_transfer_topic_is_the_hash_of_the_signature() {
    let expected = [
        0xdd, 0xf2, 0x52, 0xad, 0x1b, 0xe2, 0xc8, 0x9b, 0x69, 0xc2, 0xb0, 0x68, 0xfc, 0x37, 0x8d, 0xaa, 0x95,
        0x2b, 0xa7, 0xf1, 0x63, 0xc4, 0xa1, 0x16, 0x28, 0xf5, 0x5a, 0x4d, 0xf5, 0x23, 0xb3, 0xef,
    ];
    assert_eq!(transfer_topic().bytes, expected);
    let outside = alloy_primitives::keccak256("Transfer(address,address,uint256)");
    assert_eq!(transfer_topic().bytes, outside.0);
}

#[test]
fn a_transfer_event_is_read_from_topics_and_data() {
    let mut from_word = [0xffu8; 32];
    let mut to_word = [0u8; 32];
    for i in 0..20 {
        from_word[12 + i] = i as u8 + 1;
        to_word[12 + i] = 0xa0 + i as u8;
    }
    let mut data = vec![0u8; 40];
    data[0] = 0x80;
    data[31] = 0x05;
    data[32] = 0x77;
    let log = RawLog {
        topics: vec![transfer_topic(), B256::new(from_word), B256::new(to_word)],
        data: data.clone(),
        block_number: Some(9),
        block_hash: Some(B256::new([3u8; 32])),
        transaction_hash: Some(B256::new([4u8; 32])),
        log_index: Some(2),
    };
    let event = decode_transfer_event(&log).unwrap();
    let mut from = [0u8; 20];
    let mut to = [0u8; 20];
    for i in 0..20 {
        from[i] = i as u8 + 1;
        to[i] = 0xa0 + i as u8;
    }
    assert_eq!(event.from, Address::new(from));
    assert_eq!(event.to, Address::new(to));
    assert_eq!(event.value, U256::from_limbs([5, 0, 0, 0x8000_0000_0000_0000]));
    let outside = alloy_primitives::U256::from_be_slice(&data[..32]);
    assert_eq!(event.value.into_limbs(), outside.into_limbs());
    let row = transfer_row(&log, &event, &Address::new([7u8; 20]), true).unwrap();
    assert_eq!(row.block_number, 9);
    assert_eq!(row.log_index, 2);
    assert_eq!(row.block_hash, B256::new([3u8; 32]));
    assert_eq!(row.transaction_hash, B256::new([4u8; 32]));
    assert_eq!(row.token_address, Address::new([7u8; 20]));
    assert!(row.is_finalized);
}

#[test]
fn the_word_of_a_hash_reads_most_significant_byte_first() {
    let mut bytes = [0u8; 32];
    bytes[31] = 1;
    assert_eq!(B256::new(bytes).to_u256(), U256::from_u64(1));
    bytes[23] = 1;
    assert_eq!(B256::new(bytes).to_u256(), U256::from_limbs([1, 1, 0, 0]));
    let all = [0xffu8; 32];
    assert_eq!(B256::new(all).to_u256(), U256::max_value());
    let mut mixed = [0u8; 32];
    for (i, b) in mixed.iter_mut().enumerate() {
        *b = (i * 7 + 3) as u8;
    }
    let outside = alloy_primitives::U256::from_be_bytes(mixed);
    assert_eq!(B256::new(mixed).to_u256().into_limbs(), outside.into_limbs());
}

#[test]
fn each_decode_error_has_its_input() {
    let topic = transfer_topic();
    let good = RawLog {
        topics: vec![topic, B256::new([0u8; 32]), B256::new([0u8; 32])],
        data: vec![0u8; 32],
        block_number: Some(1),
        block_hash: Some(B256::new([0u8; 32])),
        transaction_hash: Some(B256::new([0u8; 32])),
        log_index: Some(0),
    };
    assert!(decode_with_topic(&good, &topic).is_ok());
    let mut four = good.clone();
    four.topics.push(B256::new([0u8; 32]));
    assert_eq!(decode_with_topic(&four, &topic).unwrap_err(), DecodeError::TopicCount);
    let mut none = good.clone();
    none.topics.clear();
    assert_eq!(decode_with_topic(&none, &topic).unwrap_err(), DecodeError::TopicCount);
    assert_eq!(decode_with_topic(&good, &B256::new([1u8; 32])).unwrap_err(), DecodeError::Signature);
    let mut short = good.clone();
    short.data = vec![];
    assert_eq!(decode_with_topic(&short, &topic).unwrap_err(), DecodeError::ShortData);
    let event = decode_with_topic(&good, &topic).unwrap();
    for missing in 0..4 {
        let mut log = good.clone();
        match missing {
            0 => log.block_number = None,
            1 => log.block_hash = None,
            2 => log.transaction_hash = None,
            _ => log.log_index = None,
        }
        let token = Address::new([0u8; 20]);
        assert_eq!(transfer_row(&log, &event, &token, false).unwrap_err(), DecodeError::MissingPosition);
    }
}

#[test]
fn addresses_compare_by_their_bytes() {
    let mut a = [0u8; 20];
    let mut b = [0u8; 20];
    assert!(Address::new(a) == Address::new(b));
    a[0] = 1;
    assert!(Address::new(a) != Address::new(b));
    b[0] = 1;
    b[19] = 1;
    assert!(Address::new(a) != Address::new(b));
    let mut x = [9u8; 32];
    assert!(B256::new(x) == B256::new([9u8; 32]));
    x[31] = 8;
    assert!(B256::new(x) != B256::new([9u8; 32]));
    let mut word = [0xeeu8; 32];
    word[12..].copy_from_slice(&[5u8; 20]);
    assert_eq!(Address::from_word(&B256::new(word)), Address::new([5u8; 20]));
}

#[test]
fn text_helpers() {
    assert_eq!(chars_of("aé€"), vec!['a', 'é', '€']);
    assert!(contains_text("abcabd", "cab"));
    assert!(contains_text("abc", ""));
    assert!(contains_text("", ""));
    assert!(!contains_text("", "a"));
    assert!(!contains_text("ab", "abc"));
    assert!(contains_text("xxé€y", "é€"));
    assert_eq!(strip_prefix("sqlite:a", "sqlite:"), "a");
    assert_eq!(strip_prefix("a", "sqlite:"), "a");
    assert_eq!(strip_prefix("€€x", "€"), "€x");
    let chars: Vec<char> = "  a b\t\n".chars().collect();
    assert_eq!(trim_bounds(&chars, 0, chars.len()), (2, 5));
    assert_eq!(trim_bounds(&chars, 3, 4), (4, 4));
    let spaces: Vec<char> = " \u{a0}\u{3000} ".chars().collect();
    let (start, end) = trim_bounds(&spaces, 0, spaces.len());
    assert_eq!(start, end);
}

#[test]
fn white_space_is_what_the_standard_library_takes_for_it() {
    for code in 0..=0x10ffffu32 {
        if let Some(c) = char::from_u32(code) {
            assert_eq!(is_white_space(c), c.is_whitespace(), "code point {:x}", code);
        }
    }
    assert!(is_white_space(' '));
    assert!(is_white_space('\u{3000}'));
    assert!(!is_white_space('\u{180e}'));
    assert!(!is_white_space('a'));
}

#[test]
fn a_list_is_split_at_commas_and_trimmed() {
    assert_eq!(split_list("http://a, http://b ,,  ,http://c,"), vec!["http://a", "http://b", "http://c"]);
    assert_eq!(split_list(""), Vec::<String>::new());
    assert_eq!(split_list(" , ,"), Vec::<String>::new());
    assert_eq!(split_list("one"), vec!["one"]);
    assert_eq!(split_list("\u{2003}a b\u{a0},c"), vec!["a b", "c"]);
    for text in ["a,b", ",a", "a,,b,", "  x  ", " , y", "é ,€"] {
        let expected: Vec<String> =
            text.split(',').map(|s| s.trim().to_string()).filter(|s| !s.is_empty()).collect();
        assert_eq!(split_list(text), expected);
    }
}

#[test]
fn configuration_with_defaults() {
    let mut v = vars();
    v.json_rpc_url = some("http://single");
    let c = Config::from_vars(v).unwrap();
    assert_eq!(c.json_rpc_urls, vec!["http://single"]);
    assert_eq!(c.erc20_contract_address, Address::new(contract_bytes()));
    assert_eq!(c.database_url, "sqlite:./indexer.db");
    assert_eq!(c.batch_size, 1000);
    assert_eq!(c.rate_limit_delay_ms, 500);
    assert_eq!(c.max_pending_requests, 30);
    assert_eq!(c.request_timeout_secs, 120);
    assert_eq!(c.finality_update_interval_secs, 60);
    assert_eq!(c.block_time_secs, 12);
}

#[test]
fn configuration_reads_its_variables() {
    let mut v = vars();
    v.json_rpc_urls = some(" http://a ,http://b");
    v.json_rpc_url = some("http://ignored");
    v.erc20_contract_address = some("dac17f958d2ee523a2206206994597c13d831ec7");
    v.database_url = some("./other.db");
    v.batch_size = some("250");
    v.rate_limit_delay_ms = some("abc");
    v.max_pending_requests = some("7");
    v.request_timeout_secs = some("");
    v.finality_update_interval_secs = some("+30");
    v.block_time_secs = some("-2");
    let c = Config::from_vars(v).unwrap();
    assert_eq!(c.json_rpc_urls, vec!["http://a", "http://b"]);
    assert_eq!(c.erc20_contract_address, Address::new(contract_bytes()));
    assert_eq!(c.database_url, "./other.db");
    assert_eq!(c.batch_size, 250);
    assert_eq!(c.rate_limit_delay_ms, 500);
    assert_eq!(c.max_pending_requests, 7);
    assert_eq!(c.request_timeout_secs, 120);
    assert_eq!(c.finality_update_interval_secs, 30);
    assert_eq!(c.block_time_secs, 12);
}

#[test]
fn each_configuration_error_has_its_input() {
    assert_eq!(Config::from_vars(vars()).unwrap_err(), ConfigError::MissingRpcUrl);
    let mut empty = vars();
    empty.json_rpc_urls = some(" , ");
    empty.json_rpc_url = some("http://single");
    assert_eq!(Config::from_vars(empty).unwrap_err(), ConfigError::NoRpcUrl);
    let mut missing = vars();
    missing.json_rpc_url = some("http://single");
    missing.erc20_contract_address = None;
    assert_eq!(Config::from_vars(missing).unwrap_err(), ConfigError::MissingContractAddress);
    let mut invalid = vars();
    invalid.json_rpc_url = some("http://single");
    invalid.erc20_contract_address = some("0x1234");
    assert_eq!(Config::from_vars(invalid).unwrap_err(), ConfigError::InvalidContractAddress);
    let mut both = vars();
    both.erc20_contract_address = None;
    assert_eq!(Config::from_vars(both).unwrap_err(), ConfigError::MissingRpcUrl);
}

#[test]
fn the_deployment_search_finds_the_first_block_with_code() {
    for deployed_at in [0u64, 1, 2, 57, 99, 100] {
        let mut search = DeploymentSearch::start(100, false).unwrap();
        let mut probes = 0;
        while let Some(block) = search.next_probe() {
            search.observe(block < deployed_at);
            probes += 1;
        }
        assert_eq!(search.result(), deployed_at);
        assert!(probes <= 7);
    }
    assert_eq!(DeploymentSearch::start(100, true), Err(NotDeployed));
    let mut wide = DeploymentSearch::start(u64::MAX, false).unwrap();
    assert_eq!(wide.next_probe(), Some(u64::MAX / 2));
    wide.observe(true);
    assert_eq!(wide, DeploymentSearch { left: u64::MAX / 2 + 1, right: u64::MAX });
    let single = DeploymentSearch::start(0, false).unwrap();
    assert_eq!(single.next_probe(), None);
    assert_eq!(single.result(), 0);
    let metadata = TokenMetadata::new(Some("n".to_string()), None, Some(6));
    assert_eq!(metadata.name, Some("n".to_string()));
    assert_eq!(metadata.symbol, None);
    assert_eq!(metadata.decimals, Some(6));
}

#[test]
fn the_output_format_is_named_without_regard_to_case() {
    assert_eq!(OutputFormat::from("json"), OutputFormat::Json);
    assert_eq!(OutputFormat::from("JSON"), OutputFormat::Json);
    assert_eq!(OutputFormat::from("Csv"), OutputFormat::Csv);
    assert_eq!(OutputFormat::from("table"), OutputFormat::Table);
    assert_eq!(OutputFormat::from("yaml"), OutputFormat::Table);
    assert_eq!(OutputFormat::from(""), OutputFormat::Table);
    assert_eq!(OutputFormat::from(" json"), OutputFormat::Table);
    assert_eq!(format_from_lowercase("JSON"), OutputFormat::Table);
    assert_eq!(format_from_lowercase("csv"), OutputFormat::Csv);
}

#[test]
fn a_transaction_hash_is_shortened() {
    let hash = "0xddf252ad1be2c89b69c2b068fc378daa952ba7f163c4a11628f55a4df523b3ef";
    assert_eq!(format_tx_hash(hash), "0xddf2...b3ef");
    assert_eq!(format_tx_hash("abcdef"), "abcdef...cdef");
    assert_eq!(format_tx_hash("abcdefg"), "abcdef...defg");
    assert_eq!(format_tx_hash("ééé"), "ééé...éé");
}

#[test]
fn a_transfer_query_needs_a_filter() {
    let empty = TransferQuery::default();
    assert_eq!(resolve_transfer_query(&empty).unwrap_err(), QueryError::NoFilter);
    let by_block = TransferQuery { block: Some(7), block_range: Some((1, 2)), limit: 10, offset: 3, ..Default::default() };
    let filter = resolve_transfer_query(&by_block).unwrap();
    assert_eq!(filter.block_range, Some((7, 7)));
    assert_eq!(filter.limit, 10);
    assert_eq!(filter.offset, 3);
    assert!(filter.from_address.is_none());
    let by_range = TransferQuery { block_range: Some((1, 2)), ..Default::default() };
    assert_eq!(resolve_transfer_query(&by_range).unwrap().block_range, Some((1, 2)));
    let by_sender = TransferQuery { from: some(CONTRACT), ..Default::default() };
    let filter = resolve_transfer_query(&by_sender).unwrap();
    assert_eq!(filter.from_address, Some(Address::new(contract_bytes())));
    assert_eq!(filter.block_range, None);
    let bad_sender = TransferQuery { from: some("nobody"), to: some("nobody"), ..Default::default() };
    assert_eq!(resolve_transfer_query(&bad_sender).unwrap_err(), QueryError::InvalidFromAddress);
    let bad_receiver = TransferQuery { from: some(CONTRACT), to: some("0x12"), ..Default::default() };
    assert_eq!(resolve_transfer_query(&bad_receiver).unwrap_err(), QueryError::InvalidToAddress);
    assert_eq!(resolve_address(CONTRACT), Ok(Address::new(contract_bytes())));
    assert_eq!(resolve_address("0xzz"), Err(QueryError::InvalidAddress));
}
