use eth_indexer::decimal::{pad_balance, parse_balance, parse_digits, parse_u64};
use eth_indexer::primitives::{Address, B256};
use eth_indexer::repository::balance_repository::{
    aggregate_deltas, compute_next_balance, total_credit, total_debit, touched_addresses, BalanceRepository,
    BalanceRow,
};
use eth_indexer::repository::models::Transfer;
use eth_indexer::uint::U256;

fn address(n: u8) -> Address {
    let mut bytes = [0u8; 20];
    bytes[19] = n;
    Address::new(bytes)
}

fn hash(n: u8) -> B256 {
    let mut bytes = [0u8; 32];
    bytes[31] = n;
    B256::new(bytes)
}

fn transfer(tx: u8, from: u8, to: u8, value: u64, block: u64, finalized: bool) -> Transfer {
    Transfer {
        transaction_hash: hash(tx),
        log_index: 0,
        token_address: address(200),
        from_address: address(from),
        to_address: address(to),
        value: U256::from_u64(value),
        block_number: block,
        block_hash: hash(100),
        is_finalized: finalized,
    }
}

fn outside(x: &U256) -> alloy_primitives::U256 {
    alloy_primitives::U256::from_limbs(x.into_limbs())
}

fn inside(x: alloy_primitives::U256) -> U256 {
    U256::from_limbs(x.into_limbs())
}

fn samples() -> Vec<U256> {
    vec![
        U256::zero(),
        U256::from_u64(1),
        U256::from_u64(9),
        U256::from_u64(10),
        U256::from_u64(u64::MAX),
        U256::from_u128(u128::MAX),
        U256::from_limbs([0, 0, 1, 0]),
        U256::from_limbs([u64::MAX, 0, u64::MAX, 7]),
        U256::from_limbs([1, 2, 3, 4]),
        U256::from_limbs([0, 0, 0, 0x8000_0000_0000_0000]),
        U256::max_value(),
    ]
}

#[test]
fn pad_zero_is_78_zeros() {
    let padded = pad_balance(&U256::zero());
    assert_eq!(padded.len(), 78);
    assert!(padded.chars().all(|c| c == '0'));
    assert_eq!(padded, "0".repeat(78));
}

#[test]
fn pad_of_one_thousand() {
    let padded = pad_balance(&U256::from_u64(1000));
    assert_eq!(padded, format!("{}1000", "0".repeat(74)));
}

#[test]
fn pad_of_largest_value_has_no_leading_zero() {
    let padded = pad_balance(&U256::max_value());
    assert_eq!(
        padded,
        "115792089237316195423570985008687907853269984665640564039457584007913129639935"
    );
    assert_eq!(padded.len(), 78);
}

#[test]
fn pad_agrees_with_alloy_formatting() {
    for x in samples() {
        let expected = format!("{:0>78}", outside(&x));
        assert_eq!(pad_balance(&x), expected);
        assert_eq!(BalanceRepository::pad_balance(&x), expected);
    }
}

#[test]
fn parse_reads_back_what_pad_wrote() {
    for x in samples() {
        let padded = pad_balance(&x);
        assert_eq!(parse_balance(&padded), Some(x));
    }
}

#[test]
fn padded_order_is_numeric_order() {
    let values = samples();
    for a in &values {
        for b in &values {
            let numeric = outside(a).cmp(&outside(b));
            let textual = pad_balance(a).cmp(&pad_balance(b));
            assert_eq!(numeric, textual);
            assert_eq!(a.lt(b), numeric == std::cmp::Ordering::Less);
            assert_eq!(a.le(b), numeric != std::cmp::Ordering::Greater);
        }
    }
}

#[test]
fn parse_of_empty_text_is_zero() {
    assert_eq!(parse_balance(""), Some(U256::zero()));
}

#[test]
fn parse_ignores_leading_zeros() {
    assert_eq!(parse_balance("000123"), Some(U256::from_u64(123)));
    assert_eq!(parse_balance("123"), Some(U256::from_u64(123)));
    let long = format!("{}5", "0".repeat(200));
    assert_eq!(parse_balance(&long), Some(U256::from_u64(5)));
}

#[test]
fn parse_refuses_what_is_no_digit() {
    assert_eq!(parse_balance("12a"), None);
    assert_eq!(parse_balance("0x10"), None);
    assert_eq!(parse_balance("-1"), None);
    assert_eq!(parse_balance("1_000"), None);
    assert_eq!(parse_balance("１２"), None);
    assert_eq!(parse_digits(&vec!['4', ' ', '2']), None);
}

#[test]
fn parse_refuses_what_does_not_fit() {
    let too_large = "115792089237316195423570985008687907853269984665640564039457584007913129639936";
    assert_eq!(parse_balance(too_large), None);
    let largest = "115792089237316195423570985008687907853269984665640564039457584007913129639935";
    assert_eq!(parse_balance(largest), Some(U256::max_value()));
}

#[test]
fn parse_u64_follows_the_standard_library() {
    for text in ["0", "7", "+7", "007", "18446744073709551615", "18446744073709551616", "", "+", "-1", "1 ", "٣", "1e3"] {
        assert_eq!(parse_u64(text), text.parse::<u64>().ok());
    }
    assert_eq!(parse_u64("18446744073709551615"), Some(u64::MAX));
    assert_eq!(parse_u64("18446744073709551616"), None);
}

#[test]
fn arithmetic_agrees_with_alloy() {
    let values = samples();
    for a in &values {
        for b in &values {
            let (x, y) = (outside(a), outside(b));
            assert_eq!(a.wrapping_add(b), inside(x.wrapping_add(y)));
            assert_eq!(a.wrapping_sub(b), inside(x.wrapping_sub(y)));
            assert_eq!(a.saturating_sub(b), inside(x.saturating_sub(y)));
            assert_eq!(a.checked_add(b), x.checked_add(y).map(inside));
            assert_eq!(a.overflowing_add(b).1, x.overflowing_add(y).1);
            assert_eq!(a.overflowing_sub(b).1, x.overflowing_sub(y).1);
        }
        let (q, r) = a.div_rem_10();
        let ten = alloy_primitives::U256::from(10u64);
        assert_eq!(q, inside(outside(a) / ten));
        assert_eq!(alloy_primitives::U256::from(r), outside(a) % ten);
        assert_eq!(a.is_zero(), outside(a).is_zero());
    }
}

#[test]
fn exact_values_of_the_arithmetic() {
    let max = U256::max_value();
    let one = U256::from_u64(1);
    assert_eq!(max.wrapping_add(&one), U256::zero());
    assert_eq!(U256::zero().wrapping_sub(&one), max);
    assert_eq!(U256::from_u64(5).saturating_sub(&U256::from_u64(7)), U256::zero());
    assert_eq!(U256::from_u64(7).saturating_sub(&U256::from_u64(5)), U256::from_u64(2));
    assert_eq!(max.checked_add(&one), None);
    assert_eq!(U256::from_u64(2).checked_add(&U256::from_u64(3)), Some(U256::from_u64(5)));
    assert_eq!(U256::from_u64(1234).div_rem_10(), (U256::from_u64(123), 4));
    assert_eq!(U256::from_u64(123).mul10_add(4), Some(U256::from_u64(1234)));
    assert_eq!(max.mul10_add(0), None);
    assert_eq!(U256::from_u128(1u128 << 64).into_limbs(), [0, 1, 0, 0]);
    assert_eq!(U256::from_limbs([u64::MAX, 0, 0, 0]).wrapping_add(&one), U256::from_limbs([0, 1, 0, 0]));
}

#[test]
fn next_balance_adds_then_subtracts_with_a_floor_of_zero() {
    let n = |x: u64| U256::from_u64(x);
    assert_eq!(compute_next_balance(&n(10), &n(5), &n(3)), n(12));
    assert_eq!(compute_next_balance(&n(10), &n(0), &n(10)), n(0));
    assert_eq!(compute_next_balance(&n(10), &n(5), &n(100)), n(0));
    assert_eq!(compute_next_balance(&U256::max_value(), &n(2), &n(0)), n(1));
}

#[test]
fn aggregation_counts_finalized_transfers_only() {
    let batch = vec![
        transfer(1, 1, 2, 100, 10, true),
        transfer(2, 2, 3, 40, 11, true),
        transfer(3, 1, 2, 7, 12, false),
        transfer(4, 3, 2, 5, 13, true),
    ];
    assert_eq!(touched_addresses(&batch), vec![address(2), address(1), address(3)]);
    assert_eq!(total_credit(&batch, &address(2)), U256::from_u64(105));
    assert_eq!(total_debit(&batch, &address(2)), U256::from_u64(40));
    assert_eq!(total_debit(&batch, &address(1)), U256::from_u64(100));
    assert_eq!(total_credit(&batch, &address(9)), U256::zero());
    let deltas = aggregate_deltas(&batch);
    assert_eq!(deltas.len(), 3);
    assert_eq!(deltas[0].address, address(2));
    assert_eq!(deltas[0].credit, U256::from_u64(105));
    assert_eq!(deltas[0].debit, U256::from_u64(40));
    assert_eq!(deltas[2].address, address(3));
    assert_eq!(deltas[2].credit, U256::from_u64(40));
    assert_eq!(deltas[2].debit, U256::from_u64(5));
}

#[test]
fn ledger_is_received_less_sent_and_zero_balances_are_absent() {
    let mut ledger = BalanceRepository::new();
    ledger.update_balance(&address(1), &U256::from_u64(1000));
    ledger.apply_transfers(&vec![transfer(1, 1, 2, 300, 10, true), transfer(2, 2, 3, 300, 11, true)]);
    assert_eq!(ledger.get_balance(&address(1)), U256::from_u64(700));
    assert_eq!(ledger.get_balance(&address(2)), U256::zero());
    assert_eq!(ledger.get_balance(&address(3)), U256::from_u64(300));
    assert_eq!(ledger.rows.len(), 2);
    assert!(ledger.rows.iter().all(|row| row.address != address(2)));
    ledger.apply_transfers(&vec![transfer(3, 1, 3, 700, 12, true)]);
    assert_eq!(ledger.get_balance(&address(1)), U256::zero());
    assert_eq!(ledger.get_balance(&address(3)), U256::from_u64(1000));
    assert_eq!(ledger.rows.len(), 1);
}

#[test]
fn ledger_ignores_transfers_that_are_not_finalized() {
    let mut ledger = BalanceRepository::new();
    ledger.apply_transfers(&vec![transfer(1, 1, 2, 300, 10, false)]);
    assert_eq!(ledger.rows.len(), 0);
    ledger.apply_transfers(&vec![]);
    assert_eq!(ledger.rows.len(), 0);
}

#[test]
fn overdrawn_sender_stops_at_zero() {
    let mut ledger = BalanceRepository::new();
    ledger.update_balance(&address(1), &U256::from_u64(10));
    ledger.apply_transfers(&vec![transfer(1, 1, 2, 25, 10, true)]);
    assert_eq!(ledger.get_balance(&address(1)), U256::zero());
    assert_eq!(ledger.get_balance(&address(2)), U256::from_u64(25));
    ledger.apply_transfers(&vec![transfer(2, 3, 1, 5, 11, true)]);
    assert_eq!(ledger.get_balance(&address(1)), U256::from_u64(5));
}

#[test]
fn update_balance_with_zero_removes_the_row() {
    let mut ledger = BalanceRepository::new();
    ledger.update_balance(&address(1), &U256::from_u64(10));
    ledger.update_balance(&address(1), &U256::from_u64(11));
    assert_eq!(ledger.rows.len(), 1);
    assert_eq!(ledger.get_balance(&address(1)), U256::from_u64(11));
    ledger.update_balance(&address(1), &U256::zero());
    assert_eq!(ledger.rows.len(), 0);
    ledger.update_balance(&address(2), &U256::zero());
    assert_eq!(ledger.rows.len(), 0);
}

#[test]
fn batch_update_takes_the_later_entry() {
    let mut ledger = BalanceRepository::new();
    ledger.update_balances_batch(&vec![
        BalanceRow { address: address(1), balance: U256::from_u64(5) },
        BalanceRow { address: address(2), balance: U256::from_u64(6) },
        BalanceRow { address: address(1), balance: U256::from_u64(7) },
    ]);
    assert_eq!(ledger.get_balance(&address(1)), U256::from_u64(7));
    assert_eq!(ledger.get_balance(&address(2)), U256::from_u64(6));
}

#[test]
fn populate_fills_the_ledger_from_finalized_transfers() {
    let rows = vec![
        transfer(1, 1, 2, 100, 10, true),
        transfer(2, 9, 1, 150, 9, true),
        transfer(3, 2, 3, 100, 11, true),
        transfer(4, 3, 4, 1, 12, false),
    ];
    let mut ledger = BalanceRepository::new();
    ledger.populate_from_transfers(&rows);
    assert_eq!(ledger.get_balance(&address(1)), U256::from_u64(50));
    assert_eq!(ledger.get_balance(&address(2)), U256::zero());
    assert_eq!(ledger.get_balance(&address(3)), U256::from_u64(100));
    assert_eq!(ledger.get_balance(&address(4)), U256::zero());
    let wrapped = U256::zero().wrapping_sub(&U256::from_u64(150));
    assert_eq!(ledger.get_balance(&address(9)), wrapped);
}

#[test]
fn recomputed_balances_replace_what_the_ledger_shows() {
    let rows = vec![
        transfer(1, 1, 2, 100, 10, true),
        transfer(2, 2, 3, 30, 11, true),
        transfer(3, 3, 1, 500, 12, true),
    ];
    let mut ledger = BalanceRepository::new();
    ledger.update_balance(&address(2), &U256::from_u64(999));
    ledger.update_balance(&address(3), &U256::from_u64(999));
    ledger.update_balance(&address(7), &U256::from_u64(1));
    ledger.update_balances_for_addresses(&rows, &vec![address(2), address(3)]);
    assert_eq!(ledger.get_balance(&address(2)), U256::from_u64(70));
    assert_eq!(ledger.get_balance(&address(3)), U256::zero());
    assert_eq!(ledger.get_balance(&address(7)), U256::from_u64(1));
    assert_eq!(ledger.get_balance(&address(1)), U256::zero());
}

#[test]
fn top_holders_come_largest_first() {
    let mut ledger = BalanceRepository::new();
    for (who, amount) in [(1u8, 50u64), (2, 900), (3, 50), (4, 7), (5, 1000)] {
        ledger.update_balance(&address(who), &U256::from_u64(amount));
    }
    let top = ledger.get_top_holders(3);
    let seen: Vec<(Address, U256)> = top.iter().map(|row| (row.address, row.balance)).collect();
    assert_eq!(
        seen,
        vec![
            (address(5), U256::from_u64(1000)),
            (address(2), U256::from_u64(900)),
            (address(1), U256::from_u64(50)),
        ]
    );
    assert_eq!(ledger.get_top_holders(0).len(), 0);
    assert_eq!(ledger.get_top_holders(10).len(), 5);
}
