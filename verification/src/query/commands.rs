//! The query commands: what each asks of the store, and which requests are
//! refused.

use vstd::prelude::*;
use crate::primitives::{address_of_text, parse_address, Address};
use crate::query::formatters::{
    balance_output, format_balance, format_stats, format_top_holders, format_transfers, holders_output,
    stats_output, transfers_output, OutputFormat,
};
use crate::repository::token_repository::{decimals_of, TokenRepository};
use crate::repository::transfer_repository::{
    balance_from_transfers, history_of, matching, names, page_rows, received_sum, sent_sum, sum_overflows,
    BalanceInfo, TokenHolder, TransferRepository, TransferStats,
};

verus! {

/// The filters of the `transfers` command as the user gave them.
#[derive(Default)]
pub struct TransferQuery {
    pub from: Option<String>,
    pub to: Option<String>,
    pub block: Option<u64>,
    pub block_range: Option<(u64, u64)>,
    pub limit: usize,
    pub offset: usize,
}

/// The filters of the `transfers` command, checked.
#[derive(Clone, Copy, Debug)]
pub struct TransferFilter {
    pub from_address: Option<Address>,
    pub to_address: Option<Address>,
    pub block_range: Option<(u64, u64)>,
    pub limit: usize,
    pub offset: usize,
}

/// Why a query is refused.
#[derive(Clone, Copy, Debug, PartialEq, Eq, Structural)]
pub enum QueryError {
    /// The sender is no address.
    InvalidFromAddress,
    /// The receiver is no address.
    InvalidToAddress,
    /// The address is no address.
    InvalidAddress,
    /// No filter is given.
    NoFilter,
}

/// The block range that a query asks for: the single block where one is
/// given, else the range.
pub open spec fn requested_range(query: TransferQuery) -> Option<(u64, u64)> {
    match query.block {
        Some(b) => Some((b, b)),
        None => query.block_range,
    }
}

/// The first thing that is wrong with a query, if anything.
pub open spec fn query_error(query: TransferQuery) -> Option<QueryError> {
    if query.from matches Some(text) && address_of_text(text@) is None {
        Some(QueryError::InvalidFromAddress)
    } else if query.to matches Some(text) && address_of_text(text@) is None {
        Some(QueryError::InvalidToAddress)
    } else if query.from is None && query.to is None && requested_range(query) is None {
        Some(QueryError::NoFilter)
    } else {
        None
    }
}

/// Checks the filters of the `transfers` command: the addresses have to be
/// addresses, a single block stands for the range of that block alone, and
/// at least one filter has to be given.
pub fn resolve_transfer_query(query: &TransferQuery) -> (r: Result<TransferFilter, QueryError>)
    ensures
        r matches Err(e) ==> query_error(*query) == Some(e),
        r matches Ok(f) ==> {
            &&& query_error(*query) is None
            &&& f.from_address is Some <==> query.from is Some
            &&& f.from_address matches Some(a) ==> address_of_text(query.from->0@) == Some(a.bytes@)
            &&& f.to_address is Some <==> query.to is Some
            &&& f.to_address matches Some(a) ==> address_of_text(query.to->0@) == Some(a.bytes@)
            &&& f.block_range == requested_range(*query)
            &&& f.limit == query.limit
            &&& f.offset == query.offset
        },
{
    let from_address = match &query.from {
        Some(text) => match parse_address(text.as_str()) {
            Some(a) => Some(a),
            None => {
                return Err(QueryError::InvalidFromAddress);
            },
        },
        None => None,
    };
    let to_address = match &query.to {
        Some(text) => match parse_address(text.as_str()) {
            Some(a) => Some(a),
            None => {
                return Err(QueryError::InvalidToAddress);
            },
        },
        None => None,
    };
    let block_range = match query.block {
        Some(b) => Some((b, b)),
        None => query.block_range,
    };
    if from_address.is_none() && to_address.is_none() && block_range.is_none() {
        return Err(QueryError::NoFilter);
    }
    Ok(TransferFilter { from_address, to_address, block_range, limit: query.limit, offset: query.offset })
}

/// Reads the address that a command was given.
pub fn resolve_address(address: &str) -> (r: Result<Address, QueryError>)
    ensures
        r is Ok <==> address_of_text(address@) is Some,
        r matches Ok(a) ==> address_of_text(address@) == Some(a.bytes@),
        r matches Err(e) ==> e == QueryError::InvalidAddress,
{
    match parse_address(address) {
        Some(a) => Ok(a),
        None => Err(QueryError::InvalidAddress),
    }
}

/// Why a command gives no answer.
#[derive(Clone, Copy, Debug, PartialEq, Eq, Structural)]
pub enum CommandError {
    /// The request is refused.
    Query(QueryError),
    /// A sum over the table does not fit in 256 bits.
    SumOverflow,
}

/// The answer of the `balance` command: the balance of an address as the
/// transfers of the table give it, with what came in and went out.
pub fn cmd_balance(
    transfer_repo: &TransferRepository,
    token_repo: &TokenRepository,
    token_address: &Address,
    address: &str,
    format: &OutputFormat,
) -> (r: Result<String, CommandError>)
    requires
        token_repo.wf(),
    ensures
        match address_of_text(address@) {
            None => r == Err::<String, CommandError>(CommandError::Query(QueryError::InvalidAddress)),
            Some(bytes) => exists|a: Address|
                a.bytes@ == bytes && (if sum_overflows(transfer_repo@, a) {
                    r == Err::<String, CommandError>(CommandError::SumOverflow)
                } else {
                    r matches Ok(text) && exists|info: BalanceInfo|
                        {
                            &&& info.total_incoming@ == received_sum(transfer_repo@, a)
                            &&& info.total_outgoing@ == sent_sum(transfer_repo@, a)
                            &&& info.balance@ == balance_from_transfers(transfer_repo@, a)
                            &&& text@ == balance_output(
                                info,
                                decimals_of(token_repo@, *token_address),
                                *format,
                            )
                        }
                }),
        },
{
    let address = match resolve_address(address) {
        Ok(a) => a,
        Err(e) => {
            return Err(CommandError::Query(e));
        },
    };
    let balance_info = match transfer_repo.get_balance(&address) {
        Ok(info) => info,
        Err(_) => {
            return Err(CommandError::SumOverflow);
        },
    };
    let decimals = token_repo.get_token_decimals(token_address);
    Ok(format_balance(balance_info, decimals, format))
}

/// The answer of the `transfers` command: one page of the transfers that
/// pass the filters of the query.
pub fn cmd_transfers(
    transfer_repo: &TransferRepository,
    token_repo: &TokenRepository,
    token_address: &Address,
    query: TransferQuery,
    format: &OutputFormat,
) -> (r: Result<String, CommandError>)
    requires
        token_repo.wf(),
    ensures
        r matches Err(e) ==> query_error(query) matches Some(q) && e == CommandError::Query(q),
        r matches Ok(text) ==> query_error(query) is None && exists|from: Option<Address>, to: Option<Address>|
            {
                &&& from is Some <==> query.from is Some
                &&& from matches Some(a) ==> address_of_text(query.from->0@) == Some(a.bytes@)
                &&& to is Some <==> query.to is Some
                &&& to matches Some(a) ==> address_of_text(query.to->0@) == Some(a.bytes@)
                &&& text@ == transfers_output(
                    page_rows(
                        matching(transfer_repo@, from, to, requested_range(query)),
                        query.limit,
                        query.offset,
                    ),
                    decimals_of(token_repo@, *token_address),
                    *format,
                )
            },
{
    let filter = match resolve_transfer_query(&query) {
        Ok(f) => f,
        Err(e) => {
            return Err(CommandError::Query(e));
        },
    };
    let transfers = transfer_repo.select_transfers(
        filter.from_address.as_ref(),
        filter.to_address.as_ref(),
        filter.block_range,
        filter.limit,
        filter.offset,
    );
    let decimals = token_repo.get_token_decimals(token_address);
    let text = format_transfers(&transfers, decimals, format);
    proof {
        let from = filter.from_address;
        let to = filter.to_address;
        assert(text@ == transfers_output(
            page_rows(
                matching(transfer_repo@, from, to, requested_range(query)),
                query.limit,
                query.offset,
            ),
            decimals_of(token_repo@, *token_address),
            *format,
        ));
    }
    Ok(text)
}

/// The answer of the `top-holders` command: the `count` largest holders as
/// the transfers of the table give them.
pub fn cmd_top_holders(
    transfer_repo: &TransferRepository,
    token_repo: &TokenRepository,
    token_address: &Address,
    count: usize,
    format: &OutputFormat,
) -> (r: Result<String, CommandError>)
    requires
        token_repo.wf(),
    ensures
        r is Err <==> exists|a: Address| names(transfer_repo@, a) && sum_overflows(transfer_repo@, a),
        r matches Err(e) ==> e == CommandError::SumOverflow,
        r matches Ok(text) ==> exists|holders: Seq<TokenHolder>|
            {
                &&& holders.len() <= count
                &&& forall|k: int|
                    0 <= k < holders.len() ==> names(transfer_repo@, (#[trigger] holders[k]).address)
                        && holders[k].balance@ == balance_from_transfers(
                        transfer_repo@,
                        holders[k].address,
                    )
                &&& forall|k: int| 0 <= k < holders.len() ==> (#[trigger] holders[k]).balance@ > 0
                &&& forall|i: int, j: int|
                    0 <= i < j < holders.len() ==> (#[trigger] holders[i]).address != (
                    #[trigger] holders[j]).address
                &&& forall|i: int, j: int|
                    0 <= i < j < holders.len() ==> (#[trigger] holders[i]).balance@ >= (
                    #[trigger] holders[j]).balance@
                &&& forall|a: Address, k: int|
                    #[trigger] names(transfer_repo@, a) && 0 <= k < holders.len() && !(exists|j: int|
                        0 <= j < holders.len() && (#[trigger] holders[j]).address == a)
                        ==> balance_from_transfers(transfer_repo@, a) <= (#[trigger] holders[k]).balance@
                &&& holders.len() < count ==> forall|a: Address|
                    names(transfer_repo@, a) && balance_from_transfers(transfer_repo@, a) > 0 ==> exists|j: int|
                        0 <= j < holders.len() && (#[trigger] holders[j]).address == a
                &&& text@ == holders_output(holders, decimals_of(token_repo@, *token_address), *format)
            },
{
    let holders = match transfer_repo.get_top_holders(count) {
        Ok(h) => h,
        Err(_) => {
            return Err(CommandError::SumOverflow);
        },
    };
    let decimals = token_repo.get_token_decimals(token_address);
    let ghost listed = holders@;
    let text = format_top_holders(holders, decimals, format);
    assert(text@ == holders_output(listed, decimals_of(token_repo@, *token_address), *format));
    Ok(text)
}

/// The answer of the `stats` command: the counts over the table.
pub fn cmd_stats(repo: &TransferRepository, format: &OutputFormat) -> (r: String)
    ensures
        exists|stats: TransferStats|
            {
                &&& stats.total_transfers == repo@.len()
                &&& stats.unique_addresses == crate::repository::transfer_repository::named_addresses(
                    repo@,
                ).len()
                &&& repo@.len() == 0 ==> stats.earliest_block is None && stats.latest_block is None
                &&& repo@.len() > 0 ==> stats.earliest_block is Some && stats.latest_block is Some
                &&& stats.earliest_block matches Some(b) ==> (forall|i: int|
                    0 <= i < repo@.len() ==> b <= (#[trigger] repo@[i]).block_number) && exists|i: int|
                    0 <= i < repo@.len() && (#[trigger] repo@[i]).block_number == b
                &&& stats.latest_block matches Some(b) ==> (forall|i: int|
                    0 <= i < repo@.len() ==> b >= (#[trigger] repo@[i]).block_number) && exists|i: int|
                    0 <= i < repo@.len() && (#[trigger] repo@[i]).block_number == b
                &&& r@ == stats_output(stats, *format)
            },
{
    let stats = repo.get_statistics();
    format_stats(&stats, format)
}

/// The answer of the `address-history` command: one page of the transfers
/// that name the address as sender or receiver.
pub fn cmd_address_history(
    transfer_repo: &TransferRepository,
    token_repo: &TokenRepository,
    token_address: &Address,
    address: &str,
    limit: usize,
    offset: usize,
    format: &OutputFormat,
) -> (r: Result<String, CommandError>)
    requires
        token_repo.wf(),
    ensures
        r is Err <==> address_of_text(address@) is None,
        r matches Err(e) ==> e == CommandError::Query(QueryError::InvalidAddress),
        r matches Ok(text) ==> exists|a: Address|
            address_of_text(address@) == Some(a.bytes@) && text@ == transfers_output(
                page_rows(history_of(transfer_repo@, a), limit, offset),
                decimals_of(token_repo@, *token_address),
                *format,
            ),
{
    let address = match resolve_address(address) {
        Ok(a) => a,
        Err(e) => {
            return Err(CommandError::Query(e));
        },
    };
    let transfers = transfer_repo.select_history(&address, limit, offset);
    let decimals = token_repo.get_token_decimals(token_address);
    let text = format_transfers(&transfers, decimals, format);
    Ok(text)
}

} // verus!
