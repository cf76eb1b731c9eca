//! The configuration of the indexer, built from the values of its
//! environment variables.

use vstd::prelude::*;
use crate::decimal::{parse_u64, parse_u64_spec};
use crate::primitives::{address_of_text, parse_address, Address};
use crate::text::{split_commas, split_list, trimmed_parts};

verus! {

/// The batch size where none is configured.
pub const DEFAULT_BATCH_SIZE: u64 = 1000;

/// The delay of the rate limiter, in milliseconds, where none is configured.
pub const DEFAULT_RATE_LIMIT_DELAY_MS: u64 = 500;

/// The number of fetches in flight where none is configured.
pub const DEFAULT_MAX_PENDING_REQUESTS: usize = 30;

/// The deadline of a request, in seconds, where none is configured.
pub const DEFAULT_REQUEST_TIMEOUT_SECS: u64 = 120;

/// The interval of the finality reconciler, in seconds, where none is
/// configured.
pub const DEFAULT_FINALITY_UPDATE_INTERVAL_SECS: u64 = 60;

/// The block time of the chain, in seconds, where none is configured.
pub const DEFAULT_BLOCK_TIME_SECS: u64 = 12;

/// The values of the environment variables that the configuration reads,
/// each `None` where the variable is not set.
pub struct EnvVars {
    pub json_rpc_urls: Option<String>,
    pub json_rpc_url: Option<String>,
    pub erc20_contract_address: Option<String>,
    pub database_url: Option<String>,
    pub batch_size: Option<String>,
    pub rate_limit_delay_ms: Option<String>,
    pub max_pending_requests: Option<String>,
    pub request_timeout_secs: Option<String>,
    pub finality_update_interval_secs: Option<String>,
    pub block_time_secs: Option<String>,
}

/// The configuration.
#[derive(Debug)]
pub struct Config {
    pub json_rpc_urls: Vec<String>,
    pub erc20_contract_address: Address,
    pub database_url: String,
    pub batch_size: u64,
    pub rate_limit_delay_ms: u64,
    pub max_pending_requests: usize,
    pub request_timeout_secs: u64,
    pub finality_update_interval_secs: u64,
    pub block_time_secs: u64,
}

/// Why there is no configuration.
#[derive(Clone, Copy, Debug, PartialEq, Eq, Structural)]
pub enum ConfigError {
    /// Neither the list of endpoints nor the single endpoint is set.
    MissingRpcUrl,
    /// The list of endpoints is set and has no entry.
    NoRpcUrl,
    /// The contract address is not set.
    MissingContractAddress,
    /// The contract address is no address.
    InvalidContractAddress,
}

/// The number that a variable gives: what its text writes, or the default
/// where the variable is not set or its text writes no number.
pub open spec fn number_or(text: Option<String>, default: u64) -> u64 {
    match text {
        Some(s) => match parse_u64_spec(s@) {
            Some(v) => v,
            None => default,
        },
        None => default,
    }
}

/// The same for a number that has to fit in a machine word.
pub open spec fn count_or(text: Option<String>, default: usize) -> usize {
    match text {
        Some(s) => match parse_u64_spec(s@) {
            Some(v) => if v <= usize::MAX {
                v as usize
            } else {
                default
            },
            None => default,
        },
        None => default,
    }
}

/// The first thing that is wrong with the variables, if anything.
pub open spec fn config_error(vars: EnvVars) -> Option<ConfigError> {
    if vars.json_rpc_urls is None && vars.json_rpc_url is None {
        Some(ConfigError::MissingRpcUrl)
    } else if vars.json_rpc_urls matches Some(list) && trimmed_parts(split_commas(list@)).len() == 0 {
        Some(ConfigError::NoRpcUrl)
    } else if vars.erc20_contract_address is None {
        Some(ConfigError::MissingContractAddress)
    } else if address_of_text(vars.erc20_contract_address->0@) is None {
        Some(ConfigError::InvalidContractAddress)
    } else {
        None
    }
}

/// The endpoints that the variables give: the entries of the list, or the
/// single endpoint where no list is set.
pub open spec fn endpoints_of(vars: EnvVars) -> Seq<Seq<char>> {
    match vars.json_rpc_urls {
        Some(list) => trimmed_parts(split_commas(list@)),
        None => match vars.json_rpc_url {
            Some(url) => seq![url@],
            None => Seq::empty(),
        },
    }
}

fn read_number(text: &Option<String>, default: u64) -> (r: u64)
    ensures
        r == number_or(*text, default),
{
    match text {
        Some(s) => match parse_u64(s.as_str()) {
            Some(v) => v,
            None => default,
        },
        None => default,
    }
}

fn read_count(text: &Option<String>, default: usize) -> (r: usize)
    ensures
        r == count_or(*text, default),
{
    match text {
        Some(s) => match parse_u64(s.as_str()) {
            Some(v) => if v <= usize::MAX as u64 {
                v as usize
            } else {
                default
            },
            None => default,
        },
        None => default,
    }
}

impl Config {
    /// Builds the configuration from the values of the variables. The list
    /// of endpoints wins over the single endpoint; the numbers and the
    /// location of the store have defaults; the contract address is required.
    pub fn from_vars(vars: EnvVars) -> (r: Result<Config, ConfigError>)
        ensures
            r matches Err(e) ==> config_error(vars) == Some(e),
            r matches Ok(c) ==> {
                &&& config_error(vars) is None
                &&& c.json_rpc_urls@.len() == endpoints_of(vars).len()
                &&& forall|i: int|
                    0 <= i < c.json_rpc_urls@.len() ==> (#[trigger] c.json_rpc_urls@[i])@ == endpoints_of(
                        vars,
                    )[i]
                &&& c.json_rpc_urls@.len() > 0
                &&& address_of_text(vars.erc20_contract_address->0@) == Some(
                    c.erc20_contract_address.bytes@,
                )
                &&& c.database_url@ == (match vars.database_url {
                    Some(url) => url@,
                    None => "sqlite:./indexer.db"@,
                })
                &&& c.batch_size == number_or(vars.batch_size, DEFAULT_BATCH_SIZE)
                &&& c.rate_limit_delay_ms == number_or(
                    vars.rate_limit_delay_ms,
                    DEFAULT_RATE_LIMIT_DELAY_MS,
                )
                &&& c.max_pending_requests == count_or(
                    vars.max_pending_requests,
                    DEFAULT_MAX_PENDING_REQUESTS,
                )
                &&& c.request_timeout_secs == number_or(
                    vars.request_timeout_secs,
                    DEFAULT_REQUEST_TIMEOUT_SECS,
                )
                &&& c.finality_update_interval_secs == number_or(
                    vars.finality_update_interval_secs,
                    DEFAULT_FINALITY_UPDATE_INTERVAL_SECS,
                )
                &&& c.block_time_secs == number_or(vars.block_time_secs, DEFAULT_BLOCK_TIME_SECS)
            },
    {
        let batch_size = read_number(&vars.batch_size, DEFAULT_BATCH_SIZE);
        let rate_limit_delay_ms = read_number(&vars.rate_limit_delay_ms, DEFAULT_RATE_LIMIT_DELAY_MS);
        let max_pending_requests = read_count(&vars.max_pending_requests, DEFAULT_MAX_PENDING_REQUESTS);
        let request_timeout_secs = read_number(&vars.request_timeout_secs, DEFAULT_REQUEST_TIMEOUT_SECS);
        let finality_update_interval_secs = read_number(
            &vars.finality_update_interval_secs,
            DEFAULT_FINALITY_UPDATE_INTERVAL_SECS,
        );
        let block_time_secs = read_number(&vars.block_time_secs, DEFAULT_BLOCK_TIME_SECS);
        let json_rpc_urls: Vec<String> = match vars.json_rpc_urls {
            Some(list) => {
                let urls = split_list(list.as_str());
                if urls.len() == 0 {
                    return Err(ConfigError::NoRpcUrl);
                }
                urls
            },
            None => match vars.json_rpc_url {
                Some(url) => {
                    let mut urls: Vec<String> = Vec::new();
                    urls.push(url);
                    urls
                },
                None => {
                    return Err(ConfigError::MissingRpcUrl);
                },
            },
        };
        let erc20_contract_address = match vars.erc20_contract_address {
            Some(text) => match parse_address(text.as_str()) {
                Some(address) => address,
                None => {
                    return Err(ConfigError::InvalidContractAddress);
                },
            },
            None => {
                return Err(ConfigError::MissingContractAddress);
            },
        };
        let database_url = match vars.database_url {
            Some(url) => url,
            None => "sqlite:./indexer.db".to_owned(),
        };
        Ok(
            Config {
                json_rpc_urls,
                erc20_contract_address,
                database_url,
                batch_size,
                rate_limit_delay_ms,
                max_pending_requests,
                request_timeout_secs,
                finality_update_interval_secs,
                block_time_secs,
            },
        )
    }
}

} // verus!
