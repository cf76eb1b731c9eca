//! The search for the block at which a contract was deployed, and what is
//! known of the token besides its address.

use vstd::prelude::*;

verus! {

/// The name, symbol and decimals of a token, each absent where the contract
/// does not tell.
#[derive(Clone, Debug)]
pub struct TokenMetadata {
    pub name: Option<String>,
    pub symbol: Option<String>,
    pub decimals: Option<u8>,
}

impl TokenMetadata {
    /// The metadata made of what the three lookups gave.
    pub fn new(name: Option<String>, symbol: Option<String>, decimals: Option<u8>) -> (r: TokenMetadata)
        ensures
            r.name == name,
            r.symbol == symbol,
            r.decimals == decimals,
    {
        TokenMetadata { name, symbol, decimals }
    }
}

/// The address has no code at the latest block: it is no deployed contract.
#[derive(Clone, Copy, Debug, PartialEq, Eq, Structural)]
pub struct NotDeployed;

/// A binary search for the first block at which an address has code. The
/// caller probes the block that `next_probe` names and reports with
/// `observe` whether the code there is empty.
#[derive(Clone, Copy, Debug, PartialEq, Eq, Structural)]
pub struct DeploymentSearch {
    pub left: u64,
    pub right: u64,
}

/// Whether code, once deployed, stays: a block with code is followed by
/// blocks with code.
pub open spec fn code_stays(has_code: spec_fn(u64) -> bool) -> bool {
    forall|a: u64, b: u64| a <= b && #[trigger] has_code(a) ==> #[trigger] has_code(b)
}

impl DeploymentSearch {
    /// Whether the search is consistent with where the code is: no block
    /// before `left` has code, and `right` has.
    pub open spec fn brackets(&self, has_code: spec_fn(u64) -> bool) -> bool {
        &&& self.left <= self.right
        &&& has_code(self.right)
        &&& forall|b: u64| b < self.left ==> !#[trigger] has_code(b)
    }

    /// Begins the search over the blocks up to `latest_block`, of which the
    /// caller has looked up the code. Fails where that code is empty.
    pub fn start(latest_block: u64, code_is_empty: bool) -> (r: Result<DeploymentSearch, NotDeployed>)
        ensures
            r is Err <==> code_is_empty,
            r matches Ok(s) ==> s.left == 0 && s.right == latest_block,
    {
        if code_is_empty {
            Err(NotDeployed)
        } else {
            Ok(DeploymentSearch { left: 0, right: latest_block })
        }
    }

    /// The block in the middle of what is left.
    pub open spec fn middle(&self) -> u64 {
        (self.left + (self.right - self.left) / 2) as u64
    }

    /// The block to probe next, or `None` when the search is over.
    pub fn next_probe(&self) -> (r: Option<u64>)
        ensures
            r == (if self.left < self.right {
                Some(self.middle())
            } else {
                None
            }),
            r matches Some(mid) ==> self.left <= mid < self.right,
    {
        if self.left < self.right {
            Some(self.left + (self.right - self.left) / 2)
        } else {
            None
        }
    }

    /// Takes in what the probe found: with empty code the deployment is
    /// later than the probed block, else at it or earlier.
    pub fn observe(&mut self, code_is_empty: bool)
        requires
            old(self).left < old(self).right,
        ensures
            final(self).left == (if code_is_empty {
                (old(self).middle() + 1) as u64
            } else {
                old(self).left
            }),
            final(self).right == (if code_is_empty {
                old(self).right
            } else {
                old(self).middle()
            }),
            final(self).left <= final(self).right,
            final(self).right - final(self).left < old(self).right - old(self).left,
    {
        let mid = self.left + (self.right - self.left) / 2;
        if code_is_empty {
            self.left = mid + 1;
        } else {
            self.right = mid;
        }
    }

    /// The deployment block, once the search is over.
    pub fn result(&self) -> (r: u64)
        ensures
            r == self.left,
    {
        self.left
    }

    /// A probe that is answered truthfully keeps the search consistent with
    /// where the code is.
    pub proof fn lemma_observe_keeps_bracket(self, after: DeploymentSearch, has_code: spec_fn(u64) -> bool)
        requires
            code_stays(has_code),
            self.brackets(has_code),
            self.left < self.right,
            after.left == (if !has_code(self.middle()) {
                (self.middle() + 1) as u64
            } else {
                self.left
            }),
            after.right == (if !has_code(self.middle()) {
                self.right
            } else {
                self.middle()
            }),
        ensures
            after.brackets(has_code),
    {
        let mid = self.middle();
        if !has_code(mid) {
            assert forall|b: u64| b < after.left implies !#[trigger] has_code(b) by {
                if has_code(b) {
                    assert(has_code(mid));
                }
            }
        }
    }

    /// A search that is over and consistent with where the code is has found
    /// the first block with code.
    pub proof fn lemma_result_is_first(self, has_code: spec_fn(u64) -> bool)
        requires
            self.brackets(has_code),
            self.left >= self.right,
        ensures
            has_code(self.left),
            forall|b: u64| b < self.left ==> !#[trigger] has_code(b),
    {
    }
}

} // verus!
