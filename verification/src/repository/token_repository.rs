//! The table of indexed tokens with their two watermarks.

use vstd::prelude::*;
use crate::primitives::Address;
use crate::repository::models::Token;

verus! {

/// Whether the table has a row for `a`.
pub open spec fn has_token(rows: Seq<Token>, a: Address) -> bool {
    exists|i: int| 0 <= i < rows.len() && (#[trigger] rows[i]).address == a
}

/// The place of the row of `a`; meaningful where the table has one.
pub open spec fn token_index(rows: Seq<Token>, a: Address) -> int {
    choose|i: int| 0 <= i < rows.len() && (#[trigger] rows[i]).address == a
}

/// Whether each address has at most one row.
pub open spec fn tokens_unique(rows: Seq<Token>) -> bool {
    forall|i: int, j: int|
        0 <= i < j < rows.len() ==> (#[trigger] rows[i]).address != (#[trigger] rows[j]).address
}

/// The deployment block recorded for `a`.
pub open spec fn deployment_block_of(rows: Seq<Token>, a: Address) -> Option<u64> {
    if has_token(rows, a) {
        Some(rows[token_index(rows, a)].deployment_block)
    } else {
        None
    }
}

/// The last processed block recorded for `a`.
pub open spec fn processed_block_of(rows: Seq<Token>, a: Address) -> Option<u64> {
    if has_token(rows, a) {
        rows[token_index(rows, a)].last_processed_block
    } else {
        None
    }
}

/// The last processed finalized block recorded for `a`.
pub open spec fn finalized_block_of(rows: Seq<Token>, a: Address) -> Option<u64> {
    if has_token(rows, a) {
        rows[token_index(rows, a)].last_processed_finalized_block
    } else {
        None
    }
}

/// The decimals recorded for `a`.
pub open spec fn decimals_of(rows: Seq<Token>, a: Address) -> Option<u8> {
    if has_token(rows, a) {
        rows[token_index(rows, a)].decimals
    } else {
        None
    }
}

/// With one row per address, the row of the address of a row is that row.
pub proof fn lemma_token_at(rows: Seq<Token>, i: int)
    requires
        tokens_unique(rows),
        0 <= i < rows.len(),
    ensures
        has_token(rows, rows[i].address),
        token_index(rows, rows[i].address) == i,
{
    let a = rows[i].address;
    assert(has_token(rows, a));
    let k = token_index(rows, a);
    if k < i {
        assert(rows[k].address != rows[i].address);
    } else if i < k {
        assert(rows[i].address != rows[k].address);
    }
}

/// The tokens that are indexed.
pub struct TokenRepository {
    pub rows: Vec<Token>,
}

impl View for TokenRepository {
    type V = Seq<Token>;

    open spec fn view(&self) -> Seq<Token> {
        self.rows@
    }
}

impl TokenRepository {
    /// Whether the table is well formed: one row per address.
    pub open spec fn wf(&self) -> bool {
        tokens_unique(self@)
    }

    /// An empty table.
    pub fn new() -> (r: TokenRepository)
        ensures
            r.wf(),
            r@.len() == 0,
    {
        TokenRepository { rows: Vec::new() }
    }

    /// The place of the row of `a`, if there is one.
    fn find(&self, a: &Address) -> (r: Option<usize>)
        ensures
            r matches Some(k) ==> k < self.rows@.len() && self.rows@[k as int].address == *a,
            r is None ==> !has_token(self.rows@, *a),
    {
        let mut i: usize = 0;
        while i < self.rows.len()
            invariant
                i <= self.rows.len(),
                forall|k: int| 0 <= k < i ==> (#[trigger] self.rows@[k]).address != *a,
            decreases self.rows.len() - i,
        {
            if self.rows[i].address == *a {
                return Some(i);
            }
            i += 1;
        }
        None
    }

    /// Records a token unless its address has a row already. Both
    /// watermarks start at the given values, or at the deployment block
    /// where none is given. Says whether the row went in.
    pub fn insert(&mut self, token: Token) -> (inserted: bool)
        requires
            old(self).wf(),
        ensures
            final(self).wf(),
            inserted == !has_token(old(self)@, token.address),
            !inserted ==> final(self)@ == old(self)@,
            inserted ==> final(self)@ == old(self)@.push(
                Token {
                    last_processed_block: Some(
                        match token.last_processed_block {
                            Some(b) => b,
                            None => token.deployment_block,
                        },
                    ),
                    last_processed_finalized_block: Some(
                        match token.last_processed_finalized_block {
                            Some(b) => b,
                            None => token.deployment_block,
                        },
                    ),
                    ..token
                },
            ),
    {
        match self.find(&token.address) {
            Some(_) => false,
            None => {
                let processed = match token.last_processed_block {
                    Some(b) => b,
                    None => token.deployment_block,
                };
                let finalized = match token.last_processed_finalized_block {
                    Some(b) => b,
                    None => token.deployment_block,
                };
                let row = Token {
                    address: token.address,
                    deployment_block: token.deployment_block,
                    last_processed_block: Some(processed),
                    last_processed_finalized_block: Some(finalized),
                    name: token.name,
                    symbol: token.symbol,
                    decimals: token.decimals,
                };
                self.rows.push(row);
                true
            },
        }
    }

    /// The deployment block of a token, if it is recorded.
    pub fn get_deployment_block(&self, address: &Address) -> (r: Option<u64>)
        requires
            self.wf(),
        ensures
            r == deployment_block_of(self@, *address),
    {
        match self.find(address) {
            Some(k) => {
                proof {
                    lemma_token_at(self.rows@, k as int);
                }
                Some(self.rows[k].deployment_block)
            },
            None => None,
        }
    }

    /// The last block whose transfers were ingested.
    pub fn get_last_processed_block(&self, address: &Address) -> (r: Option<u64>)
        requires
            self.wf(),
        ensures
            r == processed_block_of(self@, *address),
    {
        match self.find(address) {
            Some(k) => {
                proof {
                    lemma_token_at(self.rows@, k as int);
                }
                self.rows[k].last_processed_block
            },
            None => None,
        }
    }

    /// The decimals of a token, if they are recorded.
    pub fn get_token_decimals(&self, address: &Address) -> (r: Option<u8>)
        requires
            self.wf(),
        ensures
            r == decimals_of(self@, *address),
    {
        match self.find(address) {
            Some(k) => {
                proof {
                    lemma_token_at(self.rows@, k as int);
                }
                self.rows[k].decimals
            },
            None => None,
        }
    }

    /// The last block up to which the transfers were reconciled with the
    /// finalized chain.
    pub fn get_last_processed_finalized_block(&self, address: &Address) -> (r: Option<u64>)
        requires
            self.wf(),
        ensures
            r == finalized_block_of(self@, *address),
    {
        match self.find(address) {
            Some(k) => {
                proof {
                    lemma_token_at(self.rows@, k as int);
                }
                self.rows[k].last_processed_finalized_block
            },
            None => None,
        }
    }

    /// Sets the last processed block of a token; nothing changes where the
    /// token has no row.
    pub fn update_last_processed_block(&mut self, address: &Address, block_number: u64)
        requires
            old(self).wf(),
        ensures
            final(self).wf(),
            final(self)@.len() == old(self)@.len(),
            forall|i: int|
                0 <= i < old(self)@.len() ==> #[trigger] final(self)@[i] == (if old(self)@[i].address
                    == *address {
                    Token { last_processed_block: Some(block_number), ..old(self)@[i] }
                } else {
                    old(self)@[i]
                }),
            forall|a: Address| has_token(final(self)@, a) == has_token(old(self)@, a),
            forall|a: Address|
                #[trigger] processed_block_of(final(self)@, a) == (if a == *address && has_token(
                    old(self)@,
                    a,
                ) {
                    Some(block_number)
                } else {
                    processed_block_of(old(self)@, a)
                }),
            forall|a: Address|
                #[trigger] finalized_block_of(final(self)@, a) == finalized_block_of(old(self)@, a),
            forall|a: Address|
                #[trigger] deployment_block_of(final(self)@, a) == deployment_block_of(old(self)@, a),
    {
        let ghost before = self.rows@;
        match self.find(address) {
            Some(k) => {
                let mut row = self.rows.remove(k);
                row.last_processed_block = Some(block_number);
                self.rows.insert(k, row);
                proof {
                    let after = self.rows@;
                    assert(after.len() == before.len());
                    assert forall|i: int| 0 <= i < before.len() implies #[trigger] after[i] == (
                    if before[i].address == *address {
                        Token { last_processed_block: Some(block_number), ..before[i] }
                    } else {
                        before[i]
                    }) by {
                        if i != k {
                            if i < k {
                                assert(before[i].address != before[k as int].address);
                            } else {
                                assert(before[k as int].address != before[i].address);
                            }
                        }
                    }
                    lemma_same_addresses(before, after);
                    assert forall|a: Address|
                        #[trigger] processed_block_of(after, a) == (if a == *address && has_token(
                            before,
                            a,
                        ) {
                            Some(block_number)
                        } else {
                            processed_block_of(before, a)
                        }) by {
                        if has_token(before, a) {
                            assert(after[token_index(before, a)].address == a);
                        }
                    }
                    assert forall|a: Address|
                        #[trigger] finalized_block_of(after, a) == finalized_block_of(before, a) by {
                        if has_token(before, a) {
                            assert(after[token_index(before, a)].address == a);
                        }
                    }
                    assert forall|a: Address|
                        #[trigger] deployment_block_of(after, a) == deployment_block_of(before, a) by {
                        if has_token(before, a) {
                            assert(after[token_index(before, a)].address == a);
                        }
                    }
                }
            },
            None => {},
        }
    }

    /// Sets the last processed finalized block of a token; nothing changes
    /// where the token has no row.
    pub fn update_last_processed_finalized_block(&mut self, address: &Address, block_number: u64)
        requires
            old(self).wf(),
        ensures
            final(self).wf(),
            final(self)@.len() == old(self)@.len(),
            forall|i: int|
                0 <= i < old(self)@.len() ==> #[trigger] final(self)@[i] == (if old(self)@[i].address
                    == *address {
                    Token { last_processed_finalized_block: Some(block_number), ..old(self)@[i] }
                } else {
                    old(self)@[i]
                }),
            forall|a: Address| has_token(final(self)@, a) == has_token(old(self)@, a),
            forall|a: Address|
                #[trigger] finalized_block_of(final(self)@, a) == (if a == *address && has_token(
                    old(self)@,
                    a,
                ) {
                    Some(block_number)
                } else {
                    finalized_block_of(old(self)@, a)
                }),
            forall|a: Address|
                #[trigger] processed_block_of(final(self)@, a) == processed_block_of(old(self)@, a),
            forall|a: Address|
                #[trigger] deployment_block_of(final(self)@, a) == deployment_block_of(old(self)@, a),
    {
        let ghost before = self.rows@;
        match self.find(address) {
            Some(k) => {
                let mut row = self.rows.remove(k);
                row.last_processed_finalized_block = Some(block_number);
                self.rows.insert(k, row);
                proof {
                    let after = self.rows@;
                    assert(after.len() == before.len());
                    assert forall|i: int| 0 <= i < before.len() implies #[trigger] after[i] == (
                    if before[i].address == *address {
                        Token { last_processed_finalized_block: Some(block_number), ..before[i] }
                    } else {
                        before[i]
                    }) by {
                        if i != k {
                            if i < k {
                                assert(before[i].address != before[k as int].address);
                            } else {
                                assert(before[k as int].address != before[i].address);
                            }
                        }
                    }
                    lemma_same_addresses(before, after);
                    assert forall|a: Address|
                        #[trigger] finalized_block_of(after, a) == (if a == *address && has_token(
                            before,
                            a,
                        ) {
                            Some(block_number)
                        } else {
                            finalized_block_of(before, a)
                        }) by {
                        if has_token(before, a) {
                            assert(after[token_index(before, a)].address == a);
                        }
                    }
                    assert forall|a: Address|
                        #[trigger] processed_block_of(after, a) == processed_block_of(before, a) by {
                        if has_token(before, a) {
                            assert(after[token_index(before, a)].address == a);
                        }
                    }
                    assert forall|a: Address|
                        #[trigger] deployment_block_of(after, a) == deployment_block_of(before, a) by {
                        if has_token(before, a) {
                            assert(after[token_index(before, a)].address == a);
                        }
                    }
                }
            },
            None => {},
        }
    }
}

/// Two tables whose rows carry the same addresses in the same places have
/// rows for the same addresses, at the same places.
pub proof fn lemma_same_addresses(before: Seq<Token>, after: Seq<Token>)
    requires
        tokens_unique(before),
        before.len() == after.len(),
        forall|i: int| 0 <= i < before.len() ==> (#[trigger] after[i]).address == before[i].address,
    ensures
        tokens_unique(after),
        forall|a: Address| has_token(after, a) == has_token(before, a),
        forall|a: Address| has_token(before, a) ==> token_index(after, a) == token_index(before, a),
{
    assert forall|i: int, j: int| 0 <= i < j < after.len() implies (#[trigger] after[i]).address != (
    #[trigger] after[j]).address by {
        assert(before[i].address != before[j].address);
    }
    assert forall|a: Address| has_token(after, a) == has_token(before, a) by {
        if has_token(after, a) {
            let i = token_index(after, a);
            assert(before[i].address == a);
        }
        if has_token(before, a) {
            let i = token_index(before, a);
            assert(after[i].address == a);
        }
    }
    assert forall|a: Address| has_token(before, a) implies token_index(after, a) == token_index(
        before,
        a,
    ) by {
        let i = token_index(before, a);
        assert(after[i].address == a);
        lemma_token_at(after, i);
    }
}

} // verus!
