use eth_indexer::decimal::{to_decimal_string, u64_to_string, usize_to_string};
use eth_indexer::primitives::{Address, B256};
use eth_indexer::query::commands::{
    cmd_address_history, cmd_balance, cmd_stats, cmd_top_holders, cmd_transfers, CommandError, QueryError,
    TransferQuery,
};
use eth_indexer::query::formatters::{
    amount_string, format_balance, format_stats, format_top_holders, format_transfers, optional_number_string,
    short_hash, OutputFormat,
};
use eth_indexer::repository::models::{Token, Transfer};
use eth_indexer::repository::token_repository::TokenRepository;
use eth_indexer::repository::transfer_repository::{BalanceInfo, TokenHolder, TransferRepository, TransferStats};
use eth_indexer::text::to_hex_text;
use eth_indexer::uint::U256;

fn address(n: u8) -> Address {
    let mut bytes = [0x11u8; 20];
    bytes[0] = 0xab;
    bytes[19] = n;
    Address::new(bytes)
}

fn hash(n: u8) -> B256 {
    let mut bytes = [0x22u8; 32];
    bytes[0] = 0xcd;
    bytes[31] = n;
    B256::new(bytes)
}

fn outside_address(a: &Address) -> alloy_primitives::Address {
    alloy_primitives::Address::from(a.bytes)
}

fn outside_value(x: &U256) -> alloy_primitives::U256 {
    alloy_primitives::U256::from_limbs(x.into_limbs())
}

fn units(x: &U256, decimals: u8) -> String {
    alloy_primitives::utils::format_units(outside_value(x), decimals)
        .unwrap_or_else(|_| outside_value(x).to_string())
}

fn ether(n: u64) -> U256 {
    let mut value = U256::from_u64(n);
    for _ in 0..18 {
        value = value.mul10_add(0).unwrap();
    }
    value
}

fn transfer(tx: u8, index: u64, from: u8, to: u8, value: U256, block: u64) -> Transfer {
    Transfer {
        transaction_hash: hash(tx),
        log_index: index,
        token_address: address(200),
        from_address: address(from),
        to_address: address(to),
        value,
        block_number: block,
        block_hash: hash(99),
        is_finalized: false,
    }
}

fn sample_transfers() -> Vec<Transfer> {
    vec![
        transfer(1, 0, 1, 2, ether(5), 100),
        transfer(2, 7, 2, 3, U256::from_u64(1_234_567), 12_345_678),
        transfer(3, 1, 3, 1, U256::max_value(), u64::MAX),
    ]
}

fn table(header: Vec<&str>, rows: Vec<Vec<String>>) -> String {
    let mut table = comfy_table::Table::new();
    table
        .load_preset(comfy_table::presets::UTF8_FULL)
        .apply_modifier(comfy_table::modifiers::UTF8_ROUND_CORNERS)
        .set_header(header);
    for row in rows {
        table.add_row(row);
    }
    table.to_string()
}

fn csv(records: Vec<Vec<String>>) -> String {
    let mut writer = csv::Writer::from_writer(vec![]);
    for record in records {
        writer.write_record(&record).unwrap();
    }
    String::from_utf8(writer.into_inner().unwrap()).unwrap()
}

fn object(fields: Vec<(&str, serde_json::Value)>) -> serde_json::Value {
    let mut map = serde_json::Map::new();
    for (key, value) in fields {
        map.insert(key.to_string(), value);
    }
    serde_json::Value::Object(map)
}

fn text(s: String) -> serde_json::Value {
    serde_json::Value::String(s)
}

fn strings(cells: &[&str]) -> Vec<String> {
    cells.iter().map(|s| s.to_string()).collect()
}

#[test]
fn numbers_are_written_in_decimal() {
    assert_eq!(u64_to_string(0), "0");
    assert_eq!(u64_to_string(7), "7");
    assert_eq!(u64_to_string(10), "10");
    assert_eq!(u64_to_string(u64::MAX), u64::MAX.to_string());
    assert_eq!(usize_to_string(1234), "1234");
    assert_eq!(to_decimal_string(&U256::zero()), "0");
    assert_eq!(to_decimal_string(&U256::from_u64(1000)), "1000");
    for value in [U256::from_u128(u128::MAX), U256::from_limbs([1, 2, 3, 4]), U256::max_value(), ether(42)] {
        assert_eq!(to_decimal_string(&value), outside_value(&value).to_string());
    }
    assert_eq!(optional_number_string(Some(12)), "12");
    assert_eq!(optional_number_string(None), "N/A");
}

#[test]
fn bytes_are_written_in_hexadecimal() {
    assert_eq!(to_hex_text(&[]), "0x");
    assert_eq!(to_hex_text(&[0x00, 0x0f, 0xa0, 0xff]), "0x000fa0ff");
    let a = address(7);
    assert_eq!(to_hex_text(&a.bytes), format!("{:?}", outside_address(&a)));
    let h = hash(9);
    assert_eq!(to_hex_text(&h.bytes), format!("{:?}", alloy_primitives::B256::from(h.bytes)));
    assert_eq!(short_hash(&h), "0xcd22...2209");
}

#[test]
fn amounts_are_written_in_units() {
    assert_eq!(amount_string(&ether(5), 18), "5.000000000000000000");
    assert_eq!(amount_string(&U256::from_u64(1_234_567), 6), "1.234567");
    assert_eq!(amount_string(&U256::from_u64(5), 0), units(&U256::from_u64(5), 0));
    assert_eq!(amount_string(&U256::from_u64(5), 200), "5");
    for decimals in [0u8, 1, 6, 18, 77, 78, 255] {
        for value in [U256::zero(), U256::from_u64(1), ether(3), U256::max_value()] {
            assert_eq!(amount_string(&value, decimals), units(&value, decimals));
        }
    }
}

#[test]
fn transfers_as_a_table() {
    let transfers = sample_transfers();
    let rows = transfers
        .iter()
        .map(|t| {
            vec![
                t.block_number.to_string(),
                format!("{:#}", outside_address(&t.from_address)),
                format!("{:#}", outside_address(&t.to_address)),
                units(&t.value, 6),
                outside_value(&t.value).to_string(),
                short_hash(&t.transaction_hash),
            ]
        })
        .collect();
    let expected = table(vec!["Block", "From", "To", "Value", "Value (Wei)", "Tx Hash"], rows);
    let written = format_transfers(&transfers, Some(6), &OutputFormat::Table);
    assert_eq!(written, expected);
    assert!(written.contains("12345678"));
    assert!(written.contains("1.234567"));
    assert!(written.contains("0xcd22...2201"));
    assert!(written.starts_with('╭'));
    assert_eq!(format_transfers(&vec![], Some(6), &OutputFormat::Table), "No transfers found.");
}

#[test]
fn transfers_as_json() {
    let transfers = sample_transfers();
    let items: Vec<serde_json::Value> = transfers
        .iter()
        .map(|t| {
            object(vec![
                ("block_number", serde_json::Value::from(t.block_number)),
                ("transaction_hash", text(to_hex_text(&t.transaction_hash.bytes))),
                ("log_index", serde_json::Value::from(t.log_index)),
                ("from", text(to_hex_text(&t.from_address.bytes))),
                ("to", text(to_hex_text(&t.to_address.bytes))),
                ("value", text(units(&t.value, 18))),
                ("value_wei", text(outside_value(&t.value).to_string())),
            ])
        })
        .collect();
    let expected = serde_json::to_string_pretty(&serde_json::Value::Array(items)).unwrap();
    let written = format_transfers(&transfers, None, &OutputFormat::Json);
    assert_eq!(written, expected);
    let parsed: serde_json::Value = serde_json::from_str(&written).unwrap();
    assert_eq!(parsed[0]["value"], "5.000000000000000000");
    assert_eq!(parsed[1]["log_index"], 7);
    assert_eq!(parsed[2]["block_number"], u64::MAX);
    assert_eq!(format_transfers(&vec![], None, &OutputFormat::Json), "[]");
}

#[test]
fn transfers_as_comma_separated_values() {
    let transfers = sample_transfers();
    let mut records = vec![strings(&[
        "block_number",
        "from",
        "to",
        "value",
        "value_wei",
        "transaction_hash",
        "log_index",
    ])];
    for t in &transfers {
        records.push(vec![
            t.block_number.to_string(),
            to_hex_text(&t.from_address.bytes),
            to_hex_text(&t.to_address.bytes),
            units(&t.value, 18),
            outside_value(&t.value).to_string(),
            to_hex_text(&t.transaction_hash.bytes),
            t.log_index.to_string(),
        ]);
    }
    let written = format_transfers(&transfers, None, &OutputFormat::Csv);
    assert_eq!(written, csv(records));
    let first_lines: Vec<&str> = written.lines().take(2).collect();
    assert_eq!(first_lines[0], "block_number,from,to,value,value_wei,transaction_hash,log_index");
    assert!(first_lines[1].starts_with("100,0xab111111"));
    assert!(first_lines[1].ends_with(",0"));
    assert_eq!(
        format_transfers(&vec![], None, &OutputFormat::Csv),
        "block_number,from,to,value,value_wei,transaction_hash,log_index\n"
    );
}

#[test]
fn a_balance_in_each_format() {
    let info = BalanceInfo { balance: ether(3), total_incoming: ether(5), total_outgoing: ether(2) };
    let wei = |x: &U256| outside_value(x).to_string();
    let expected_table = table(
        vec!["Metric", "Value (Formatted)", "Value (Wei)"],
        vec![
            vec!["Balance".to_string(), units(&info.balance, 18), wei(&info.balance)],
            vec!["Total Incoming".to_string(), units(&info.total_incoming, 18), wei(&info.total_incoming)],
            vec!["Total Outgoing".to_string(), units(&info.total_outgoing, 18), wei(&info.total_outgoing)],
        ],
    );
    assert_eq!(format_balance(info, None, &OutputFormat::Table), expected_table);
    let expected_json = object(vec![
        ("balance", text(units(&info.balance, 2))),
        ("balance_wei", text(wei(&info.balance))),
        ("total_incoming", text(units(&info.total_incoming, 2))),
        ("total_incoming_wei", text(wei(&info.total_incoming))),
        ("total_outgoing", text(units(&info.total_outgoing, 2))),
        ("total_outgoing_wei", text(wei(&info.total_outgoing))),
    ])
    .to_string();
    let written = format_balance(info, Some(2), &OutputFormat::Json);
    assert_eq!(written, expected_json);
    assert!(!written.contains('\n'));
    assert!(written.contains("\"balance_wei\":\"3000000000000000000\""));
    let expected_csv = csv(vec![
        strings(&["metric", "value_formatted", "value_wei"]),
        vec!["balance".to_string(), units(&info.balance, 18), wei(&info.balance)],
        vec!["total_incoming".to_string(), units(&info.total_incoming, 18), wei(&info.total_incoming)],
        vec!["total_outgoing".to_string(), units(&info.total_outgoing, 18), wei(&info.total_outgoing)],
    ]);
    assert_eq!(format_balance(info, None, &OutputFormat::Csv), expected_csv);
}

#[test]
fn holders_in_each_format() {
    let holders = vec![
        TokenHolder { address: address(1), balance: ether(9) },
        TokenHolder { address: address(2), balance: U256::from_u64(15) },
    ];
    let wei = |x: &U256| outside_value(x).to_string();
    let rows = holders
        .iter()
        .enumerate()
        .map(|(i, h)| {
            vec![
                (i + 1).to_string(),
                format!("{:#}", outside_address(&h.address)),
                units(&h.balance, 18),
                wei(&h.balance),
            ]
        })
        .collect();
    assert_eq!(
        format_top_holders(holders.clone(), None, &OutputFormat::Table),
        table(vec!["Rank", "Address", "Balance", "Balance (Wei)"], rows)
    );
    assert_eq!(format_top_holders(vec![], None, &OutputFormat::Table), "No holders found.");
    let items: Vec<serde_json::Value> = holders
        .iter()
        .enumerate()
        .map(|(i, h)| {
            object(vec![
                ("rank", serde_json::Value::from(i + 1)),
                ("address", text(format!("{:?}", outside_address(&h.address)))),
                ("balance", text(units(&h.balance, 18))),
                ("balance_wei", text(wei(&h.balance))),
            ])
        })
        .collect();
    assert_eq!(
        format_top_holders(holders.clone(), None, &OutputFormat::Json),
        serde_json::to_string_pretty(&serde_json::Value::Array(items)).unwrap()
    );
    let mut records = vec![strings(&["rank", "address", "balance", "balance_wei"])];
    for (i, h) in holders.iter().enumerate() {
        records.push(vec![
            (i + 1).to_string(),
            format!("{:?}", outside_address(&h.address)),
            units(&h.balance, 0),
            wei(&h.balance),
        ]);
    }
    assert_eq!(format_top_holders(holders, Some(0), &OutputFormat::Csv), csv(records));
}

#[test]
fn statistics_in_each_format() {
    let stats =
        TransferStats { total_transfers: 12, unique_addresses: 5, earliest_block: Some(100), latest_block: None };
    let expected_table = table(
        vec!["Metric", "Value"],
        vec![
            strings(&["Total Transfers", "12"]),
            strings(&["Unique Addresses", "5"]),
            strings(&["Earliest Block", "100"]),
            strings(&["Latest Block", "N/A"]),
        ],
    );
    assert_eq!(format_stats(&stats, &OutputFormat::Table), expected_table);
    let expected_json = serde_json::to_string_pretty(&object(vec![
        ("total_transfers", serde_json::Value::from(12u64)),
        ("unique_addresses", serde_json::Value::from(5u64)),
        ("earliest_block", serde_json::Value::from(100u64)),
        ("latest_block", serde_json::Value::Null),
    ]))
    .unwrap();
    let written = format_stats(&stats, &OutputFormat::Json);
    assert_eq!(written, expected_json);
    assert!(written.starts_with("{\n"));
    assert!(written.contains("\"latest_block\": null"));
    assert_eq!(
        format_stats(&stats, &OutputFormat::Csv),
        "metric,value\ntotal_transfers,12\nunique_addresses,5\nearliest_block,100\nlatest_block,N/A\n"
    );
}

fn store() -> (TransferRepository, TokenRepository) {
    let mut transfers = TransferRepository::new();
    transfers.insert_batch(&vec![
        transfer(1, 0, 1, 2, ether(5), 100),
        transfer(2, 0, 2, 3, ether(2), 101),
        transfer(3, 0, 1, 3, ether(1), 102),
    ]);
    let mut tokens = TokenRepository::new();
    tokens.insert(Token {
        address: address(200),
        deployment_block: 1,
        last_processed_block: None,
        last_processed_finalized_block: None,
        name: None,
        symbol: None,
        decimals: Some(18),
    });
    (transfers, tokens)
}

#[test]
fn the_balance_command() {
    let (transfers, tokens) = store();
    let who = to_hex_text(&address(2).bytes);
    let written = cmd_balance(&transfers, &tokens, &address(200), &who, &OutputFormat::Csv).unwrap();
    assert_eq!(
        written,
        "metric,value_formatted,value_wei\n\
         balance,3.000000000000000000,3000000000000000000\n\
         total_incoming,5.000000000000000000,5000000000000000000\n\
         total_outgoing,2.000000000000000000,2000000000000000000\n"
    );
    assert_eq!(
        cmd_balance(&transfers, &tokens, &address(200), "nobody", &OutputFormat::Csv),
        Err(CommandError::Query(QueryError::InvalidAddress))
    );
    let mut heavy = TransferRepository::new();
    heavy.insert(&transfer(1, 0, 1, 2, U256::max_value(), 1));
    heavy.insert(&transfer(2, 0, 1, 2, U256::from_u64(1), 2));
    assert_eq!(
        cmd_balance(&heavy, &tokens, &address(200), &who, &OutputFormat::Csv),
        Err(CommandError::SumOverflow)
    );
    assert_eq!(cmd_top_holders(&heavy, &tokens, &address(200), 3, &OutputFormat::Csv), Err(CommandError::SumOverflow));
}

#[test]
fn the_transfers_command() {
    let (transfers, tokens) = store();
    let query = TransferQuery { from: Some(to_hex_text(&address(1).bytes)), limit: 1, offset: 1, ..Default::default() };
    let written = cmd_transfers(&transfers, &tokens, &address(200), query, &OutputFormat::Csv).unwrap();
    let lines: Vec<&str> = written.lines().collect();
    assert_eq!(lines.len(), 2);
    assert!(lines[1].starts_with("102,"));
    assert!(lines[1].contains(",1.000000000000000000,1000000000000000000,"));
    let none = TransferQuery { limit: 10, ..Default::default() };
    assert_eq!(
        cmd_transfers(&transfers, &tokens, &address(200), none, &OutputFormat::Csv),
        Err(CommandError::Query(QueryError::NoFilter))
    );
    let unknown_token = cmd_transfers(
        &transfers,
        &tokens,
        &address(201),
        TransferQuery { block: Some(100), limit: 10, ..Default::default() },
        &OutputFormat::Json,
    )
    .unwrap();
    let parsed: serde_json::Value = serde_json::from_str(&unknown_token).unwrap();
    assert_eq!(parsed.as_array().unwrap().len(), 1);
    assert_eq!(parsed[0]["value"], "5.000000000000000000");
}

#[test]
fn the_other_commands() {
    let (transfers, tokens) = store();
    let top = cmd_top_holders(&transfers, &tokens, &address(200), 1, &OutputFormat::Csv).unwrap();
    assert_eq!(
        top,
        format!(
            "rank,address,balance,balance_wei\n1,{},3.000000000000000000,3000000000000000000\n",
            to_hex_text(&address(2).bytes)
        )
    );
    assert_eq!(
        cmd_stats(&transfers, &OutputFormat::Csv),
        "metric,value\ntotal_transfers,3\nunique_addresses,3\nearliest_block,100\nlatest_block,102\n"
    );
    let who = to_hex_text(&address(3).bytes);
    let history =
        cmd_address_history(&transfers, &tokens, &address(200), &who, 10, 0, &OutputFormat::Csv).unwrap();
    let blocks: Vec<&str> = history.lines().skip(1).map(|l| l.split(',').next().unwrap()).collect();
    assert_eq!(blocks, vec!["101", "102"]);
    assert_eq!(
        cmd_address_history(&transfers, &tokens, &address(200), "0x", 10, 0, &OutputFormat::Csv),
        Err(CommandError::Query(QueryError::InvalidAddress))
    );
}
