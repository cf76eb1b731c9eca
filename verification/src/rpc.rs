//! The endpoint pool of the client: which endpoint is current, when to
//! rotate and how long to wait before the next attempt, and how a ranged log
//! query is split when the server refuses it as too large.

use vstd::prelude::*;
use crate::decimal::{parse_u64, parse_u64_spec};
use crate::events::RawLog;
use crate::text::{contains_text, occurs};

verus! {

/// How many times one request is attempted before the client gives up.
pub const MAX_ATTEMPTS: usize = 5;

/// The wait before the first retry, in milliseconds.
pub const BASE_DELAY_MS: u64 = 100;

/// The longest wait before a retry, in milliseconds.
pub const MAX_DELAY_MS: u64 = 10_000;

/// Why a client cannot be made.
#[derive(Clone, Copy, Debug, PartialEq, Eq, Structural)]
pub enum RpcError {
    /// The list of endpoints is empty.
    NoEndpoints,
}

/// What to do after an attempt has failed.
#[derive(Clone, Copy, Debug, PartialEq, Eq, Structural)]
pub enum RetryDecision {
    /// Wait up to this many milliseconds, then try again.
    RetryAfter { delay_ms: u64 },
    /// The attempts are used up: report the failure.
    GiveUp,
}

/// The pool of endpoints and the cursor that selects the current one.
#[derive(Debug)]
pub struct RpcClient {
    pub urls: Vec<String>,
    pub current_provider: usize,
    pub max_attempts: usize,
}

/// Two to the power `e`.
pub open spec fn pow2(e: nat) -> nat
    decreases e,
{
    if e == 0 {
        1
    } else {
        2 * pow2((e - 1) as nat)
    }
}

/// The wait before retry number `retry`, counted from zero: 100 ms doubled
/// `retry` times, but no more than 10 s.
pub open spec fn backoff_spec(retry: nat) -> nat {
    if 100 * pow2(retry) <= 10_000 {
        100 * pow2(retry)
    } else {
        10_000
    }
}

/// The powers of two grow with the exponent and are at least one.
pub proof fn lemma_pow2_grows(a: nat, b: nat)
    requires
        a <= b,
    ensures
        pow2(a) <= pow2(b),
        pow2(a) >= 1,
    decreases b,
{
    if a < b {
        lemma_pow2_grows(a, (b - 1) as nat);
    } else if b > 0 {
        lemma_pow2_grows((a - 1) as nat, (b - 1) as nat);
    }
}

/// The wait before a retry, in milliseconds, before jitter.
pub fn backoff_delay_ms(retry: u32) -> (delay: u64)
    ensures
        delay == backoff_spec(retry as nat),
        BASE_DELAY_MS <= delay <= MAX_DELAY_MS,
{
    let mut delay: u64 = BASE_DELAY_MS;
    let mut i: u32 = 0;
    while i < retry && delay < MAX_DELAY_MS
        invariant
            i <= retry,
            delay == backoff_spec(i as nat),
            BASE_DELAY_MS <= delay <= MAX_DELAY_MS,
            delay < MAX_DELAY_MS ==> delay == 100 * pow2(i as nat),
        decreases retry - i,
    {
        assert(pow2((i + 1) as nat) == 2 * pow2(i as nat));
        delay = if delay * 2 <= MAX_DELAY_MS {
            delay * 2
        } else {
            MAX_DELAY_MS
        };
        i += 1;
    }
    proof {
        if i < retry {
            lemma_pow2_grows(i as nat, retry as nat);
        }
    }
    delay
}

impl RpcClient {
    /// Whether the client is well formed: it has an endpoint.
    pub open spec fn wf(&self) -> bool {
        self.urls@.len() > 0
    }

    /// A client over the given endpoints, the first of them current.
    pub fn new(rpc_urls: Vec<String>) -> (r: Result<RpcClient, RpcError>)
        ensures
            r is Err <==> rpc_urls@.len() == 0,
            r matches Ok(client) ==> client.wf() && client.urls == rpc_urls && client.current_provider
                == 0 && client.max_attempts == MAX_ATTEMPTS,
    {
        if rpc_urls.len() == 0 {
            return Err(RpcError::NoEndpoints);
        }
        Ok(RpcClient { urls: rpc_urls, current_provider: 0, max_attempts: MAX_ATTEMPTS })
    }

    /// The place of the current endpoint in the pool.
    pub open spec fn current_index(&self) -> int {
        (self.current_provider as int) % (self.urls@.len() as int)
    }

    /// The current endpoint.
    pub fn get_current_url(&self) -> (url: &str)
        requires
            self.wf(),
        ensures
            url@ == self.urls@[self.current_index()]@,
    {
        let index = self.current_provider % self.urls.len();
        self.urls[index].as_str()
    }

    /// Moves the cursor to the next endpoint, and from the last to the first.
    pub fn rotate_provider(&mut self)
        requires
            old(self).wf(),
        ensures
            final(self).wf(),
            final(self).urls == old(self).urls,
            final(self).max_attempts == old(self).max_attempts,
            final(self).current_provider == (old(self).current_index() + 1) % (old(
                self,
            ).urls@.len() as int),
            final(self).current_provider < final(self).urls@.len(),
    {
        let n = self.urls.len();
        let current = self.current_provider % n;
        self.current_provider = (current + 1) % n;
    }

    /// The waits before the retries of one request, in order and before
    /// jitter: one fewer than there are attempts.
    pub fn get_retry_strategy(&self) -> (delays: Vec<u64>)
        requires
            self.max_attempts <= u32::MAX,
        ensures
            delays@.len() == (if self.max_attempts == 0 {
                0
            } else {
                self.max_attempts - 1
            }),
            forall|i: int| 0 <= i < delays@.len() ==> #[trigger] delays@[i] == backoff_spec(i as nat),
    {
        let count: usize = if self.max_attempts == 0 {
            0
        } else {
            self.max_attempts - 1
        };
        let mut delays: Vec<u64> = Vec::new();
        while delays.len() < count
            invariant
                delays@.len() <= count,
                count <= u32::MAX,
                forall|k: int| 0 <= k < delays@.len() ==> #[trigger] delays@[k] == backoff_spec(k as nat),
            decreases count - delays@.len(),
        {
            let retry = delays.len() as u32;
            delays.push(backoff_delay_ms(retry));
        }
        delays
    }

    /// An attempt has failed, by an error of the transport or the server:
    /// the cursor moves to the next endpoint, and the request is tried again
    /// unless `attempts_made` attempts use up the budget.
    pub fn handle_error(&mut self, attempts_made: usize) -> (decision: RetryDecision)
        requires
            old(self).wf(),
            attempts_made >= 1,
        ensures
            rotated(*old(self), *final(self)),
            decision == retry_decision(attempts_made, old(self).max_attempts),
    {
        self.rotate_provider();
        if attempts_made < self.max_attempts {
            let retry: u32 = if attempts_made - 1 <= u32::MAX as usize {
                (attempts_made - 1) as u32
            } else {
                u32::MAX
            };
            RetryDecision::RetryAfter { delay_ms: backoff_delay_ms(retry) }
        } else {
            RetryDecision::GiveUp
        }
    }

    /// An attempt has run into its deadline: handled as any other failure.
    pub fn handle_timeout(&mut self, attempts_made: usize) -> (decision: RetryDecision)
        requires
            old(self).wf(),
            attempts_made >= 1,
        ensures
            rotated(*old(self), *final(self)),
            decision == retry_decision(attempts_made, old(self).max_attempts),
    {
        self.handle_error(attempts_made)
    }

    /// An attempt has failed with the given error. Where the caller wants
    /// errors of a range that is too large, and this is one, it is handed
    /// out at once: the pool stays as it is and no attempt is spent on the
    /// same range. Any other error is handled as `handle_error` does.
    pub fn on_failure(&mut self, error: &str, attempts_made: usize, surface_range_errors: bool) -> (decision:
        FailureDecision)
        requires
            old(self).wf(),
            attempts_made >= 1,
        ensures
            final(self).wf(),
            surface_range_errors && is_range_too_large_spec(error@) ==> decision is Surface && *final(self)
                == *old(self),
            !(surface_range_errors && is_range_too_large_spec(error@)) ==> rotated(*old(self), *final(self))
                && decision == (match retry_decision(attempts_made, old(self).max_attempts) {
                RetryDecision::RetryAfter { delay_ms } => FailureDecision::RetryAfter { delay_ms },
                RetryDecision::GiveUp => FailureDecision::GiveUp,
            }),
    {
        if surface_range_errors && is_range_too_large(error) {
            return FailureDecision::Surface;
        }
        match self.handle_error(attempts_made) {
            RetryDecision::RetryAfter { delay_ms } => FailureDecision::RetryAfter { delay_ms },
            RetryDecision::GiveUp => FailureDecision::GiveUp,
        }
    }
}

/// What to do after failed attempt number `attempts_made` of a request that
/// may be attempted `max_attempts` times.
pub open spec fn retry_decision(attempts_made: usize, max_attempts: usize) -> RetryDecision {
    if attempts_made < max_attempts {
        RetryDecision::RetryAfter {
            delay_ms: backoff_spec(
                (if attempts_made - 1 <= u32::MAX {
                    attempts_made - 1
                } else {
                    u32::MAX as int
                }) as nat,
            ) as u64,
        }
    } else {
        RetryDecision::GiveUp
    }
}

/// Whether `after` is `before` with the cursor at the next endpoint.
pub open spec fn rotated(before: RpcClient, after: RpcClient) -> bool {
    &&& after.wf()
    &&& after.urls == before.urls
    &&& after.max_attempts == before.max_attempts
    &&& after.current_provider == (before.current_index() + 1) % (before.urls@.len() as int)
}

/// What to do with an attempt that has failed.
#[derive(Clone, Copy, Debug, PartialEq, Eq, Structural)]
pub enum FailureDecision {
    /// Hand the error to the caller at once.
    Surface,
    /// Wait up to this many milliseconds, then try again.
    RetryAfter { delay_ms: u64 },
    /// The attempts are used up: report the failure.
    GiveUp,
}

/// Whether an error text tells that a ranged query would return too many
/// results.
pub open spec fn is_range_too_large_spec(error: Seq<char>) -> bool {
    occurs(error, "exceeds max results"@)
}

/// Whether an error text tells that a ranged query would return too many
/// results. Such an error is not retried: the same range would fail again.
pub fn is_range_too_large(error: &str) -> (r: bool)
    ensures
        r == is_range_too_large_spec(error@),
{
    contains_text(error, "exceeds max results")
}

/// What the first two groups of a regular expression capture in a text at
/// its leftmost match: `None` where the expression is not valid, does not
/// match, or one of the two groups takes no part in the match.
pub uninterp spec fn regex_two_groups(pattern: Seq<char>, text: Seq<char>) -> Option<(Seq<char>, Seq<char>)>;

/// Calls `regex::Regex::new` and `Regex::captures`, and hands out the text
/// of the groups 1 and 2 of the match. The contract names what comes back
/// for a pattern and a text; nothing is proved of it.
#[verifier::external_body]
fn capture_two_groups(pattern: &str, text: &str) -> (r: Option<(String, String)>)
    ensures
        r is Some <==> regex_two_groups(pattern@, text@) is Some,
        r matches Some(groups) ==> regex_two_groups(pattern@, text@) == Some((groups.0@, groups.1@)),
{
    let re = regex::Regex::new(pattern).ok()?;
    let captures = re.captures(text)?;
    let first = captures.get(1)?.as_str().to_string();
    let second = captures.get(2)?.as_str().to_string();
    Some((first, second))
}

/// The range that two captured texts give: both have to write a 64-bit
/// number.
pub open spec fn range_of_groups(first: Seq<char>, second: Seq<char>) -> Option<(u64, u64)> {
    match (parse_u64_spec(first), parse_u64_spec(second)) {
        (Some(from), Some(to)) => Some((from, to)),
        _ => None,
    }
}

/// Reads the two ends of a suggested range from the texts that were captured
/// for them.
pub fn range_from_groups(first: &str, second: &str) -> (r: Option<(u64, u64)>)
    ensures
        r == range_of_groups(first@, second@),
{
    let from = match parse_u64(first) {
        Some(from) => from,
        None => {
            return None;
        },
    };
    match parse_u64(second) {
        Some(to) => Some((from, to)),
        None => None,
    }
}

/// The range that an error text suggests.
pub open spec fn suggested_range(error: Seq<char>) -> Option<(u64, u64)> {
    match regex_two_groups("retry with the range (\\d+)-(\\d+)"@, error) {
        Some((first, second)) => range_of_groups(first, second),
        None => None,
    }
}

/// Reads the range that the server suggests from an error text of the form
/// `... retry with the range A-B ...`.
pub fn parse_max_results_error(error: &str) -> (r: Option<(u64, u64)>)
    ensures
        r == suggested_range(error@),
{
    match capture_two_groups("retry with the range (\\d+)-(\\d+)", error) {
        Some((first, second)) => range_from_groups(first.as_str(), second.as_str()),
        None => None,
    }
}

/// What the adaptive splitter asks of its caller next.
#[derive(Debug)]
pub enum LogFetchAction {
    /// Fetch the logs of this range and report back.
    Fetch { from: u64, to: u64 },
    /// All logs are here.
    Done { logs: Vec<RawLog> },
    /// The query failed with this error.
    Failed { error: String },
}

/// A ranged log query in progress.
#[derive(Debug)]
pub struct LogFetch {
    /// The first block that is still to be fetched.
    pub current_from: u64,
    /// The last block of the query.
    pub to_block: u64,
    /// The logs fetched so far, in block order.
    pub all_logs: Vec<RawLog>,
    /// The range that the server suggested and that is being fetched, if the
    /// query was split.
    pub suggested: Option<(u64, u64)>,
}

impl LogFetch {
    /// Begins a query for `[from_block, to_block]`. The caller handles the
    /// returned action and then reports with `on_logs` or `on_error`.
    pub fn start(from_block: u64, to_block: u64) -> (r: (LogFetch, LogFetchAction))
        ensures
            r.0.current_from == from_block,
            r.0.to_block == to_block,
            r.0.all_logs@.len() == 0,
            r.0.suggested is None,
            from_block <= to_block ==> (r.1 matches LogFetchAction::Fetch { from, to } && from
                == from_block && to == to_block),
            from_block > to_block ==> (r.1 matches LogFetchAction::Done { logs } && logs@.len() == 0),
    {
        let fetch = LogFetch {
            current_from: from_block,
            to_block,
            all_logs: Vec::new(),
            suggested: None,
        };
        if from_block <= to_block {
            (fetch, LogFetchAction::Fetch { from: from_block, to: to_block })
        } else {
            (fetch, LogFetchAction::Done { logs: Vec::new() })
        }
    }

    /// The fetch that was asked for has delivered. The logs of the whole
    /// remaining range end the query. The logs of a suggested range are kept,
    /// and the query goes on one block after that range, if blocks are left.
    pub fn on_logs(self, logs: Vec<RawLog>) -> (r: (LogFetch, LogFetchAction))
        ensures
            match self.suggested {
                None => (r.1 matches LogFetchAction::Done { logs: all } && all@ == self.all_logs@ + logs@),
                Some((_, suggested_to)) => {
                    &&& r.0.to_block == self.to_block
                    &&& r.0.suggested is None
                    &&& if suggested_to < self.to_block {
                        &&& r.0.all_logs@ == self.all_logs@ + logs@
                        &&& r.0.current_from == suggested_to + 1
                        &&& r.1 matches LogFetchAction::Fetch { from, to }
                        &&& from == suggested_to + 1
                        &&& to == self.to_block
                    } else {
                        (r.1 matches LogFetchAction::Done { logs: all } && all@ == self.all_logs@
                            + logs@)
                    }
                },
            },
    {
        let mut fetch = self;
        let mut incoming = logs;
        let ghost before = fetch.all_logs@;
        let ghost added = incoming@;
        fetch.all_logs.append(&mut incoming);
        assert(fetch.all_logs@ =~= before + added);
        match fetch.suggested {
            None => {
                let all = fetch.all_logs;
                let rest = LogFetch {
                    current_from: fetch.current_from,
                    to_block: fetch.to_block,
                    all_logs: Vec::new(),
                    suggested: None,
                };
                (rest, LogFetchAction::Done { logs: all })
            },
            Some((_, suggested_to)) => {
                if suggested_to < fetch.to_block {
                    let next = LogFetch {
                        current_from: suggested_to + 1,
                        to_block: fetch.to_block,
                        all_logs: fetch.all_logs,
                        suggested: None,
                    };
                    let to = next.to_block;
                    (next, LogFetchAction::Fetch { from: suggested_to + 1, to })
                } else {
                    let all = fetch.all_logs;
                    let done = LogFetch {
                        current_from: fetch.current_from,
                        to_block: fetch.to_block,
                        all_logs: Vec::new(),
                        suggested: None,
                    };
                    (done, LogFetchAction::Done { logs: all })
                }
            },
        }
    }

    /// The fetch that was asked for has failed for good. Where the whole
    /// remaining range was refused as too large and the error suggests a
    /// range, that range is fetched next; any other failure, and any failure
    /// of a suggested range, ends the query with the error.
    pub fn on_error(self, error: String) -> (r: (LogFetch, LogFetchAction))
        ensures
            r.0.all_logs@ == self.all_logs@,
            r.0.to_block == self.to_block,
            r.0.current_from == self.current_from,
            match self.split_on(error@) {
                Some((from, to)) => {
                    &&& r.0.suggested == Some((from, to))
                    &&& r.1 matches LogFetchAction::Fetch { from: f, to: t }
                    &&& f == from
                    &&& t == to
                },
                None => (r.1 matches LogFetchAction::Failed { error: e } && e == error),
            },
    {
        let fetch = self;
        if fetch.suggested.is_none() && is_range_too_large(error.as_str()) {
            match parse_max_results_error(error.as_str()) {
                Some((from, to)) => {
                    let next = LogFetch {
                        current_from: fetch.current_from,
                        to_block: fetch.to_block,
                        all_logs: fetch.all_logs,
                        suggested: Some((from, to)),
                    };
                    return (next, LogFetchAction::Fetch { from, to });
                },
                None => {},
            }
        }
        (fetch, LogFetchAction::Failed { error })
    }

    /// The range to fetch after the given error, if the query is to be split.
    pub open spec fn split_on(&self, error: Seq<char>) -> Option<(u64, u64)> {
        if self.suggested is None && is_range_too_large_spec(error) {
            suggested_range(error)
        } else {
            None
        }
    }
}

} // verus!
