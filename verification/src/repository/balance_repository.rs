//! The balance ledger: for each address with a balance above zero, that
//! balance. It follows the finalized transfers only.

use vstd::prelude::*;
use crate::decimal::pad_spec;
use crate::primitives::Address;
use crate::repository::models::Transfer;
use crate::uint::{u256_modulus, U256};

verus! {

/// How many rows are written at once when the ledger is filled from the
/// finalized transfers.
pub const POPULATE_CHUNK_SIZE: usize = 10_000;

/// One row of the ledger.
#[derive(Clone, Copy, Debug)]
pub struct BalanceRow {
    pub address: Address,
    pub balance: U256,
}

/// What one batch of transfers adds to and takes from one address, each sum
/// taken modulo two to the power 256.
#[derive(Clone, Copy, Debug)]
pub struct BalanceDelta {
    pub address: Address,
    pub credit: U256,
    pub debit: U256,
}

/// Whether the ledger has a row for `a`.
pub open spec fn holds(rows: Seq<BalanceRow>, a: Address) -> bool {
    exists|i: int| 0 <= i < rows.len() && (#[trigger] rows[i]).address == a
}

/// The balance that the ledger shows for `a`: that of its row, or zero
/// without one.
pub open spec fn balance_of(rows: Seq<BalanceRow>, a: Address) -> nat {
    if holds(rows, a) {
        let i = choose|i: int| 0 <= i < rows.len() && (#[trigger] rows[i]).address == a;
        rows[i].balance@
    } else {
        0
    }
}

/// Whether each address has at most one row, and no row a zero balance.
pub open spec fn ledger_wf(rows: Seq<BalanceRow>) -> bool {
    &&& forall|i: int, j: int|
        0 <= i < j < rows.len() ==> (#[trigger] rows[i]).address != (#[trigger] rows[j]).address
    &&& forall|i: int| 0 <= i < rows.len() ==> (#[trigger] rows[i]).balance@ > 0
}

/// The sum of the values that the finalized transfers among `ts` send to `a`.
pub open spec fn credit_sum(ts: Seq<Transfer>, a: Address) -> nat
    decreases ts.len(),
{
    if ts.len() == 0 {
        0
    } else {
        credit_sum(ts.drop_last(), a) + (if ts.last().is_finalized && ts.last().to_address == a {
            ts.last().value@
        } else {
            0
        })
    }
}

/// The sum of the values that the finalized transfers among `ts` take from `a`.
pub open spec fn debit_sum(ts: Seq<Transfer>, a: Address) -> nat
    decreases ts.len(),
{
    if ts.len() == 0 {
        0
    } else {
        debit_sum(ts.drop_last(), a) + (if ts.last().is_finalized && ts.last().from_address == a {
            ts.last().value@
        } else {
            0
        })
    }
}

/// Whether a finalized transfer among `ts` names `a` as sender or receiver.
pub open spec fn touches(ts: Seq<Transfer>, a: Address) -> bool {
    exists|i: int|
        0 <= i < ts.len() && (#[trigger] ts[i]).is_finalized && (ts[i].to_address == a
            || ts[i].from_address == a)
}

/// The balance after a batch: the credit is added modulo two to the power
/// 256, then the debit is taken off, stopping at zero.
pub open spec fn next_balance(current: nat, credit: nat, debit: nat) -> nat {
    let raised = (current + credit) % u256_modulus();
    if raised >= debit {
        (raised - debit) as nat
    } else {
        0
    }
}

/// What received less what was sent, over the finalized transfers of `ts`.
pub open spec fn net_balance(ts: Seq<Transfer>, a: Address) -> int {
    credit_sum(ts, a) - debit_sum(ts, a)
}

/// Whether the deltas name each address once.
pub open spec fn deltas_distinct(deltas: Seq<BalanceDelta>) -> bool {
    forall|i: int, j: int|
        0 <= i < j < deltas.len() ==> (#[trigger] deltas[i]).address != (#[trigger] deltas[j]).address
}

/// Whether `deltas` is the aggregate of `ts`: one entry for each address that
/// a finalized transfer touches, with its two sums.
pub open spec fn is_aggregate(deltas: Seq<BalanceDelta>, ts: Seq<Transfer>) -> bool {
    &&& deltas_distinct(deltas)
    &&& forall|i: int|
        0 <= i < deltas.len() ==> {
            &&& touches(ts, (#[trigger] deltas[i]).address)
            &&& deltas[i].credit@ == credit_sum(ts, deltas[i].address) % u256_modulus()
            &&& deltas[i].debit@ == debit_sum(ts, deltas[i].address) % u256_modulus()
        }
    &&& forall|a: Address|
        touches(ts, a) ==> exists|i: int| 0 <= i < deltas.len() && (#[trigger] deltas[i]).address == a
}

/// The balance after one step of the incremental update.
pub fn compute_next_balance(current: &U256, credit: &U256, debit: &U256) -> (r: U256)
    ensures
        r@ == next_balance(current@, credit@, debit@),
{
    current.wrapping_add(credit).saturating_sub(debit)
}

/// Whether a list of addresses holds `a`.
pub fn vec_contains_address(addresses: &Vec<Address>, a: &Address) -> (r: bool)
    ensures
        r == addresses@.contains(*a),
{
    let mut i: usize = 0;
    while i < addresses.len()
        invariant
            i <= addresses.len(),
            forall|k: int| 0 <= k < i ==> addresses@[k] != *a,
        decreases addresses.len() - i,
    {
        if addresses[i] == *a {
            return true;
        }
        i += 1;
    }
    false
}

/// Nothing is sent to or taken from an address that no finalized transfer of
/// the list names.
pub proof fn lemma_untouched_sums(ts: Seq<Transfer>, a: Address)
    requires
        !touches(ts, a),
    ensures
        credit_sum(ts, a) == 0,
        debit_sum(ts, a) == 0,
    decreases ts.len(),
{
    if ts.len() > 0 {
        let head = ts.drop_last();
        assert(!touches(head, a)) by {
            if touches(head, a) {
                let i = choose|i: int|
                    0 <= i < head.len() && (#[trigger] head[i]).is_finalized && (head[i].to_address
                        == a || head[i].from_address == a);
                assert(ts[i].is_finalized);
            }
        }
        lemma_untouched_sums(head, a);
        assert(ts[ts.len() - 1] == ts.last());
    }
}

/// The addresses that the finalized transfers of the list name, each once.
pub fn touched_addresses(transfers: &Vec<Transfer>) -> (addresses: Vec<Address>)
    ensures
        addresses@.no_duplicates(),
        forall|a: Address| addresses@.contains(a) <==> touches(transfers@, a),
{
    let mut addresses: Vec<Address> = Vec::new();
    let mut i: usize = 0;
    while i < transfers.len()
        invariant
            i <= transfers.len(),
            addresses@.no_duplicates(),
            forall|a: Address| addresses@.contains(a) <==> touches(transfers@.take(i as int), a),
        decreases transfers.len() - i,
    {
        let t = transfers[i];
        let ghost before = addresses@;
        let ghost prefix = transfers@.take(i as int);
        let ghost next = transfers@.take(i + 1);
        if t.is_finalized {
            if !vec_contains_address(&addresses, &t.to_address) {
                addresses.push(t.to_address);
                assert(addresses@[addresses@.len() - 1] == t.to_address);
            }
            let ghost mid = addresses@;
            assert(mid.contains(t.to_address));
            if !vec_contains_address(&addresses, &t.from_address) {
                addresses.push(t.from_address);
                assert(addresses@[addresses@.len() - 1] == t.from_address);
            }
            assert(addresses@.contains(t.from_address));
            assert(addresses@.contains(t.to_address)) by {
                let k = choose|k: int| 0 <= k < mid.len() && mid[k] == t.to_address;
                assert(addresses@[k] == t.to_address);
            }
        }
        proof {
            assert(next[i as int] == t);
            assert forall|a: Address| addresses@.contains(a) <==> touches(next, a) by {
                if touches(next, a) {
                    let w = choose|w: int|
                        0 <= w < next.len() && (#[trigger] next[w]).is_finalized && (
                        next[w].to_address == a || next[w].from_address == a);
                    if w < i {
                        assert(prefix[w] == next[w]);
                        assert(touches(prefix, a));
                        assert(before.contains(a));
                        let k = choose|k: int| 0 <= k < before.len() && before[k] == a;
                        assert(addresses@[k] == a);
                    } else {
                        assert(addresses@.contains(a));
                    }
                }
                if addresses@.contains(a) {
                    if before.contains(a) {
                        let w = choose|w: int|
                            0 <= w < prefix.len() && (#[trigger] prefix[w]).is_finalized && (
                            prefix[w].to_address == a || prefix[w].from_address == a);
                        assert(next[w] == prefix[w]);
                    } else {
                        assert(t.is_finalized && (t.to_address == a || t.from_address == a));
                        assert(next[i as int].is_finalized);
                    }
                }
            }
        }
        i += 1;
    }
    assert(transfers@.take(i as int) =~= transfers@);
    addresses
}

/// The sum, modulo two to the power 256, of what the finalized transfers of
/// the list send to `a`.
pub fn total_credit(transfers: &Vec<Transfer>, a: &Address) -> (r: U256)
    ensures
        r@ == credit_sum(transfers@, *a) % u256_modulus(),
{
    let mut acc = U256::zero();
    let mut i: usize = 0;
    while i < transfers.len()
        invariant
            i <= transfers.len(),
            acc@ == credit_sum(transfers@.take(i as int), *a) % u256_modulus(),
        decreases transfers.len() - i,
    {
        let t = transfers[i];
        proof {
            let next = transfers@.take(i + 1);
            assert(next.drop_last() =~= transfers@.take(i as int));
            assert(next.last() == t);
        }
        if t.is_finalized && t.to_address == *a {
            proof {
                t.value.lemma_bounded();
                vstd::arithmetic::div_mod::lemma_add_mod_noop(
                    credit_sum(transfers@.take(i as int), *a) as int,
                    t.value@ as int,
                    u256_modulus() as int,
                );
                vstd::arithmetic::div_mod::lemma_small_mod(t.value@, u256_modulus());
            }
            acc = acc.wrapping_add(&t.value);
        }
        i += 1;
    }
    assert(transfers@.take(i as int) =~= transfers@);
    acc
}

/// The sum, modulo two to the power 256, of what the finalized transfers of
/// the list take from `a`.
pub fn total_debit(transfers: &Vec<Transfer>, a: &Address) -> (r: U256)
    ensures
        r@ == debit_sum(transfers@, *a) % u256_modulus(),
{
    let mut acc = U256::zero();
    let mut i: usize = 0;
    while i < transfers.len()
        invariant
            i <= transfers.len(),
            acc@ == debit_sum(transfers@.take(i as int), *a) % u256_modulus(),
        decreases transfers.len() - i,
    {
        let t = transfers[i];
        proof {
            let next = transfers@.take(i + 1);
            assert(next.drop_last() =~= transfers@.take(i as int));
            assert(next.last() == t);
        }
        if t.is_finalized && t.from_address == *a {
            proof {
                t.value.lemma_bounded();
                vstd::arithmetic::div_mod::lemma_add_mod_noop(
                    debit_sum(transfers@.take(i as int), *a) as int,
                    t.value@ as int,
                    u256_modulus() as int,
                );
                vstd::arithmetic::div_mod::lemma_small_mod(t.value@, u256_modulus());
            }
            acc = acc.wrapping_add(&t.value);
        }
        i += 1;
    }
    assert(transfers@.take(i as int) =~= transfers@);
    acc
}

/// What a batch of transfers adds to and takes from each address that its
/// finalized transfers name.
pub fn aggregate_deltas(transfers: &Vec<Transfer>) -> (deltas: Vec<BalanceDelta>)
    ensures
        is_aggregate(deltas@, transfers@),
{
    let addresses = touched_addresses(transfers);
    let mut deltas: Vec<BalanceDelta> = Vec::new();
    let mut i: usize = 0;
    while i < addresses.len()
        invariant
            i <= addresses.len(),
            deltas@.len() == i,
            addresses@.no_duplicates(),
            forall|a: Address| addresses@.contains(a) <==> touches(transfers@, a),
            forall|k: int|
                0 <= k < i ==> {
                    &&& (#[trigger] deltas@[k]).address == addresses@[k]
                    &&& deltas@[k].credit@ == credit_sum(transfers@, addresses@[k]) % u256_modulus()
                    &&& deltas@[k].debit@ == debit_sum(transfers@, addresses@[k]) % u256_modulus()
                },
        decreases addresses.len() - i,
    {
        let a = addresses[i];
        let credit = total_credit(transfers, &a);
        let debit = total_debit(transfers, &a);
        deltas.push(BalanceDelta { address: a, credit, debit });
        i += 1;
    }
    proof {
        assert forall|x: int, y: int| 0 <= x < y < deltas@.len() implies (#[trigger] deltas@[x]).address
            != (#[trigger] deltas@[y]).address by {
            assert(addresses@[x] != addresses@[y]);
        }
        assert forall|k: int| 0 <= k < deltas@.len() implies touches(
            transfers@,
            (#[trigger] deltas@[k]).address,
        ) by {
            assert(addresses@.contains(addresses@[k]));
        }
        assert forall|a: Address| touches(transfers@, a) implies exists|k: int|
            0 <= k < deltas@.len() && (#[trigger] deltas@[k]).address == a by {
            assert(addresses@.contains(a));
            let k = choose|k: int| 0 <= k < addresses@.len() && addresses@[k] == a;
            assert(deltas@[k].address == a);
        }
    }
    deltas
}

/// With one row per address, the balance shown for the address of a row is
/// that of the row.
pub proof fn lemma_balance_at(rows: Seq<BalanceRow>, i: int)
    requires
        ledger_wf(rows),
        0 <= i < rows.len(),
    ensures
        holds(rows, rows[i].address),
        balance_of(rows, rows[i].address) == rows[i].balance@,
        balance_of(rows, rows[i].address) > 0,
{
    let a = rows[i].address;
    assert(holds(rows, a));
    let k = choose|k: int| 0 <= k < rows.len() && (#[trigger] rows[k]).address == a;
    if k < i {
        assert(rows[k].address != rows[i].address);
    } else if i < k {
        assert(rows[i].address != rows[k].address);
    }
}

/// A well-formed ledger has a row for exactly the addresses whose balance is
/// above zero.
pub proof fn lemma_absent_iff_zero(rows: Seq<BalanceRow>, a: Address)
    requires
        ledger_wf(rows),
    ensures
        holds(rows, a) <==> balance_of(rows, a) > 0,
        balance_of(rows, a) < u256_modulus(),
{
    if holds(rows, a) {
        let k = choose|k: int| 0 <= k < rows.len() && (#[trigger] rows[k]).address == a;
        lemma_balance_at(rows, k);
        rows[k].balance.lemma_bounded();
    }
}

/// Whether `after` shows `v` for `a` and, for every other address, what
/// `before` shows.
pub open spec fn ledger_set(before: Seq<BalanceRow>, after: Seq<BalanceRow>, a: Address, v: nat) -> bool {
    forall|x: Address|
        #[trigger] balance_of(after, x) == (if x == a {
            v
        } else {
            balance_of(before, x)
        })
}

/// The ledger: one row for each address whose balance is above zero.
pub struct BalanceRepository {
    pub rows: Vec<BalanceRow>,
}

impl View for BalanceRepository {
    type V = Seq<BalanceRow>;

    open spec fn view(&self) -> Seq<BalanceRow> {
        self.rows@
    }
}

impl BalanceRepository {
    /// Whether the ledger is well formed: one row per address, none of them
    /// with a zero balance.
    pub open spec fn wf(&self) -> bool {
        ledger_wf(self@)
    }

    /// The balance that the ledger shows for `a`.
    pub open spec fn balance(&self, a: Address) -> nat {
        balance_of(self@, a)
    }

    /// An empty ledger.
    pub fn new() -> (r: BalanceRepository)
        ensures
            r.wf(),
            r@.len() == 0,
            forall|a: Address| r.balance(a) == 0,
    {
        BalanceRepository { rows: Vec::new() }
    }

    /// Writes a balance as 78 decimal digits, zeros in front, so that the
    /// texts sort as the balances do.
    pub fn pad_balance(balance: &U256) -> (s: String)
        ensures
            s@ == pad_spec(balance@),
            s@.len() == 78,
    {
        crate::decimal::pad_balance(balance)
    }

    /// The place of the row of `a`, if there is one.
    fn find(&self, a: &Address) -> (r: Option<usize>)
        ensures
            r matches Some(k) ==> k < self.rows@.len() && self.rows@[k as int].address == *a,
            r is None ==> !holds(self.rows@, *a),
    {
        let mut i: usize = 0;
        while i < self.rows.len()
            invariant
                i <= self.rows.len(),
                forall|k: int| 0 <= k < i ==> (#[trigger] self.rows@[k]).address != *a,
            decreases self.rows.len() - i,
        {
            if self.rows[i].address == *a {
                return Some(i);
            }
            i += 1;
        }
        None
    }

    /// The balance of an address; zero where the ledger has no row for it.
    pub fn get_balance(&self, address: &Address) -> (r: U256)
        requires
            self.wf(),
        ensures
            r@ == self.balance(*address),
    {
        match self.find(address) {
            Some(k) => {
                proof {
                    lemma_balance_at(self.rows@, k as int);
                }
                self.rows[k].balance
            },
            None => U256::zero(),
        }
    }

    /// Sets the balance of one address. A balance of zero leaves the address
    /// without a row.
    pub fn update_balance(&mut self, address: &Address, balance: &U256)
        requires
            old(self).wf(),
        ensures
            final(self).wf(),
            ledger_set(old(self)@, final(self)@, *address, balance@),
    {
        let ghost before = self.rows@;
        let found = self.find(address);
        match found {
            Some(k) => {
                if balance.is_zero() {
                    self.rows.remove(k);
                    let ghost after = self.rows@;
                    assert(after =~= before.remove(k as int));
                    assert(ledger_wf(after)) by {
                        assert forall|i: int, j: int| 0 <= i < j < after.len() implies (#[trigger] after[i]).address
                            != (#[trigger] after[j]).address by {
                            let oi = if i < k { i } else { i + 1 };
                            let oj = if j < k { j } else { j + 1 };
                            assert(before[oi].address != before[oj].address);
                        }
                        assert forall|i: int| 0 <= i < after.len() implies (#[trigger] after[i]).balance@
                            > 0 by {
                            let oi = if i < k { i } else { i + 1 };
                            assert(before[oi].balance@ > 0);
                        }
                    }
                    assert forall|x: Address| #[trigger]
                        balance_of(after, x) == (if x == *address {
                            balance@
                        } else {
                            balance_of(before, x)
                        }) by {
                        if holds(after, x) {
                            let i = choose|i: int| 0 <= i < after.len() && (#[trigger] after[i]).address == x;
                            let oi = if i < k { i } else { i + 1 };
                            assert(before[oi] == after[i]);
                            lemma_balance_at(after, i);
                            lemma_balance_at(before, oi);
                            if x == *address {
                                if oi < k {
                                    assert(before[oi].address != before[k as int].address);
                                } else {
                                    assert(before[k as int].address != before[oi].address);
                                }
                            }
                        } else {
                            if x != *address && holds(before, x) {
                                let oi = choose|oi: int|
                                    0 <= oi < before.len() && (#[trigger] before[oi]).address == x;
                                let i = if oi < k { oi } else { oi - 1 };
                                assert(after[i].address == x);
                            }
                        }
                    }
                } else {
                    self.rows.set(k, BalanceRow { address: *address, balance: *balance });
                    let ghost after = self.rows@;
                    assert(ledger_wf(after)) by {
                        assert forall|i: int, j: int| 0 <= i < j < after.len() implies (#[trigger] after[i]).address
                            != (#[trigger] after[j]).address by {
                            assert(before[i].address != before[j].address);
                        }
                        assert forall|i: int| 0 <= i < after.len() implies (#[trigger] after[i]).balance@
                            > 0 by {
                            if i != k {
                                assert(before[i].balance@ > 0);
                            }
                        }
                    }
                    assert forall|x: Address| #[trigger]
                        balance_of(after, x) == (if x == *address {
                            balance@
                        } else {
                            balance_of(before, x)
                        }) by {
                        if x == *address {
                            lemma_balance_at(after, k as int);
                        } else if holds(after, x) {
                            let i = choose|i: int| 0 <= i < after.len() && (#[trigger] after[i]).address == x;
                            assert(before[i] == after[i]);
                            lemma_balance_at(after, i);
                            lemma_balance_at(before, i);
                        } else {
                            if holds(before, x) {
                                let oi = choose|oi: int|
                                    0 <= oi < before.len() && (#[trigger] before[oi]).address == x;
                                assert(after[oi].address == x);
                            }
                        }
                    }
                }
            },
            None => {
                if !balance.is_zero() {
                    self.rows.push(BalanceRow { address: *address, balance: *balance });
                    let ghost after = self.rows@;
                    let ghost n = before.len() as int;
                    assert(ledger_wf(after)) by {
                        assert forall|i: int, j: int| 0 <= i < j < after.len() implies (#[trigger] after[i]).address
                            != (#[trigger] after[j]).address by {
                            if j < n {
                                assert(before[i].address != before[j].address);
                            } else {
                                assert(before[i].address != *address);
                            }
                        }
                        assert forall|i: int| 0 <= i < after.len() implies (#[trigger] after[i]).balance@
                            > 0 by {
                            if i < n {
                                assert(before[i].balance@ > 0);
                            }
                        }
                    }
                    assert forall|x: Address| #[trigger]
                        balance_of(after, x) == (if x == *address {
                            balance@
                        } else {
                            balance_of(before, x)
                        }) by {
                        if x == *address {
                            lemma_balance_at(after, n);
                        } else if holds(after, x) {
                            let i = choose|i: int| 0 <= i < after.len() && (#[trigger] after[i]).address == x;
                            assert(before[i] == after[i]);
                            lemma_balance_at(after, i);
                            lemma_balance_at(before, i);
                        } else {
                            if holds(before, x) {
                                let oi = choose|oi: int|
                                    0 <= oi < before.len() && (#[trigger] before[oi]).address == x;
                                assert(after[oi].address == x);
                            }
                        }
                    }
                }
            },
        }
    }

    /// Applies the finalized transfers of a batch to the ledger. For each
    /// address the credit is added to its balance, then the debit taken off,
    /// stopping at zero; an address left with zero loses its row.
    pub fn apply_transfers(&mut self, transfers: &Vec<Transfer>)
        requires
            old(self).wf(),
        ensures
            final(self).wf(),
            forall|a: Address|
                #[trigger] final(self).balance(a) == next_balance(
                    old(self).balance(a),
                    credit_sum(transfers@, a) % u256_modulus(),
                    debit_sum(transfers@, a) % u256_modulus(),
                ),
    {
        let deltas = aggregate_deltas(transfers);
        self.apply_deltas(&deltas);
        proof {
            assert forall|a: Address|
                #[trigger] self.balance(a) == next_balance(
                    old(self).balance(a),
                    credit_sum(transfers@, a) % u256_modulus(),
                    debit_sum(transfers@, a) % u256_modulus(),
                ) by {
                lemma_absent_iff_zero(old(self)@, a);
                if touches(transfers@, a) {
                    let k = choose|k: int| 0 <= k < deltas@.len() && (#[trigger] deltas@[k]).address == a;
                    assert(delta_for(deltas@, a) == Some(k)) by {
                        lemma_delta_for(deltas@, a, k);
                    }
                } else {
                    lemma_untouched_sums(transfers@, a);
                    assert(delta_for(deltas@, a) is None) by {
                        if delta_for(deltas@, a) is Some {
                            let k = delta_for(deltas@, a)->0;
                            assert(touches(transfers@, deltas@[k].address));
                        }
                    }
                    vstd::arithmetic::div_mod::lemma_small_mod(
                        balance_of(old(self)@, a),
                        u256_modulus(),
                    );
                }
            }
        }
    }

    /// Applies one delta after the other: the balance of each address named
    /// goes through one step of the incremental update.
    pub fn apply_deltas(&mut self, deltas: &Vec<BalanceDelta>)
        requires
            old(self).wf(),
            deltas_distinct(deltas@),
        ensures
            final(self).wf(),
            forall|a: Address|
                #[trigger] final(self).balance(a) == (match delta_for(deltas@, a) {
                    Some(k) => next_balance(
                        old(self).balance(a),
                        deltas@[k].credit@,
                        deltas@[k].debit@,
                    ),
                    None => old(self).balance(a),
                }),
    {
        let mut i: usize = 0;
        while i < deltas.len()
            invariant
                i <= deltas.len(),
                self.wf(),
                deltas_distinct(deltas@),
                forall|a: Address|
                    #[trigger] balance_of(self@, a) == (match delta_for(deltas@.take(i as int), a) {
                        Some(k) => next_balance(
                            balance_of(old(self)@, a),
                            deltas@[k].credit@,
                            deltas@[k].debit@,
                        ),
                        None => balance_of(old(self)@, a),
                    }),
            decreases deltas.len() - i,
        {
            let d = deltas[i];
            let ghost before = self@;
            let ghost prefix = deltas@.take(i as int);
            let ghost next = deltas@.take(i + 1);
            let current = self.get_balance(&d.address);
            let updated = compute_next_balance(&current, &d.credit, &d.debit);
            self.update_balance(&d.address, &updated);
            proof {
                assert(delta_for(prefix, d.address) is None) by {
                    if delta_for(prefix, d.address) is Some {
                        let k = delta_for(prefix, d.address)->0;
                        assert(prefix[k] == deltas@[k]);
                        assert(deltas@[k].address != deltas@[i as int].address);
                    }
                }
                assert(deltas_distinct(next)) by {
                    assert forall|x: int, y: int| 0 <= x < y < next.len() implies (#[trigger] next[x]).address
                        != (#[trigger] next[y]).address by {
                        assert(deltas@[x].address != deltas@[y].address);
                    }
                }
                assert forall|a: Address|
                    #[trigger] balance_of(self@, a) == (match delta_for(next, a) {
                        Some(k) => next_balance(
                            balance_of(old(self)@, a),
                            deltas@[k].credit@,
                            deltas@[k].debit@,
                        ),
                        None => balance_of(old(self)@, a),
                    }) by {
                    assert(balance_of(self@, a) == (if a == d.address {
                        updated@
                    } else {
                        balance_of(before, a)
                    }));
                    if a == d.address {
                        assert(next[i as int].address == a);
                        lemma_delta_for(next, a, i as int);
                    } else {
                        match delta_for(prefix, a) {
                            Some(k) => {
                                assert(next[k] == prefix[k]);
                                lemma_delta_for(next, a, k);
                            },
                            None => {
                                if delta_for(next, a) is Some {
                                    let k = delta_for(next, a)->0;
                                    assert(k < i);
                                    assert(prefix[k].address == a);
                                    assert(false);
                                }
                            },
                        }
                    }
                }
            }
            i += 1;
        }
        assert(deltas@.take(i as int) =~= deltas@);
    }

    /// Sets each of the given balances, in order; for an address listed
    /// twice the later entry stands.
    pub fn update_balances_batch(&mut self, balances: &Vec<BalanceRow>)
        requires
            old(self).wf(),
        ensures
            final(self).wf(),
            forall|a: Address|
                #[trigger] final(self).balance(a) == (match last_entry(balances@, a) {
                    Some(v) => v,
                    None => old(self).balance(a),
                }),
    {
        let mut i: usize = 0;
        while i < balances.len()
            invariant
                i <= balances.len(),
                self.wf(),
                forall|a: Address|
                    #[trigger] balance_of(self@, a) == (match last_entry(balances@.take(i as int), a) {
                        Some(v) => v,
                        None => balance_of(old(self)@, a),
                    }),
            decreases balances.len() - i,
        {
            let b = balances[i];
            let ghost before = self@;
            let ghost next = balances@.take(i + 1);
            assert(next.drop_last() =~= balances@.take(i as int));
            assert(next.last() == b);
            self.update_balance(&b.address, &b.balance);
            assert forall|a: Address|
                #[trigger] balance_of(self@, a) == (match last_entry(next, a) {
                    Some(v) => v,
                    None => balance_of(old(self)@, a),
                }) by {
                assert(balance_of(self@, a) == (if a == b.address {
                    b.balance@
                } else {
                    balance_of(before, a)
                }));
            }
            i += 1;
        }
        assert(balances@.take(i as int) =~= balances@);
    }

    /// Computes the balance of each listed address again from the finalized
    /// transfers of the table: what it received less what it sent, stopping
    /// at zero.
    pub fn update_balances_for_addresses(&mut self, transfers: &Vec<Transfer>, addresses: &Vec<Address>)
        requires
            old(self).wf(),
        ensures
            final(self).wf(),
            forall|a: Address|
                #[trigger] final(self).balance(a) == (if addresses@.contains(a) {
                    recomputed_balance(transfers@, a)
                } else {
                    old(self).balance(a)
                }),
    {
        let mut i: usize = 0;
        while i < addresses.len()
            invariant
                i <= addresses.len(),
                self.wf(),
                forall|a: Address|
                    #[trigger] balance_of(self@, a) == (if addresses@.take(i as int).contains(a) {
                        recomputed_balance(transfers@, a)
                    } else {
                        balance_of(old(self)@, a)
                    }),
            decreases addresses.len() - i,
        {
            let address = addresses[i];
            let ghost before = self@;
            let ghost prefix = addresses@.take(i as int);
            let ghost next = addresses@.take(i + 1);
            let total_incoming = total_credit(transfers, &address);
            let total_outgoing = total_debit(transfers, &address);
            let balance = total_incoming.saturating_sub(&total_outgoing);
            self.update_balance(&address, &balance);
            assert forall|a: Address|
                #[trigger] balance_of(self@, a) == (if next.contains(a) {
                    recomputed_balance(transfers@, a)
                } else {
                    balance_of(old(self)@, a)
                }) by {
                assert(balance_of(self@, a) == (if a == address {
                    balance@
                } else {
                    balance_of(before, a)
                }));
                assert(next[i as int] == address);
                if prefix.contains(a) {
                    let k = choose|k: int| 0 <= k < prefix.len() && prefix[k] == a;
                    assert(next[k] == a);
                }
                if next.contains(a) && a != address {
                    let k = choose|k: int| 0 <= k < next.len() && next[k] == a;
                    assert(prefix[k] == a);
                }
            }
            i += 1;
        }
        assert(addresses@.take(i as int) =~= addresses@);
    }

    /// Fills the ledger from the finalized transfers of the table. The
    /// balance of each address they name is what it received less what it
    /// sent, modulo two to the power 256; where that is not zero it is
    /// written, and every other row stays as it is.
    pub fn populate_from_transfers(&mut self, transfers: &Vec<Transfer>)
        requires
            old(self).wf(),
        ensures
            final(self).wf(),
            forall|a: Address|
                #[trigger] final(self).balance(a) == (if touches(transfers@, a) && wrapped_net(
                    transfers@,
                    a,
                ) != 0 {
                    wrapped_net(transfers@, a)
                } else {
                    old(self).balance(a)
                }),
    {
        let addresses = touched_addresses(transfers);
        let mut i: usize = 0;
        while i < addresses.len()
            invariant
                i <= addresses.len(),
                self.wf(),
                forall|a: Address| addresses@.contains(a) <==> touches(transfers@, a),
                forall|a: Address|
                    #[trigger] balance_of(self@, a) == (if addresses@.take(i as int).contains(a)
                        && wrapped_net(transfers@, a) != 0 {
                        wrapped_net(transfers@, a)
                    } else {
                        balance_of(old(self)@, a)
                    }),
            decreases addresses.len() - i,
        {
            let address = addresses[i];
            let ghost before = self@;
            let ghost prefix = addresses@.take(i as int);
            let ghost next = addresses@.take(i + 1);
            let received = total_credit(transfers, &address);
            let sent = total_debit(transfers, &address);
            let balance = received.wrapping_sub(&sent);
            proof {
                vstd::arithmetic::div_mod::lemma_sub_mod_noop(
                    credit_sum(transfers@, address) as int,
                    debit_sum(transfers@, address) as int,
                    u256_modulus() as int,
                );
            }
            assert(balance@ == wrapped_net(transfers@, address));
            if !balance.is_zero() {
                self.update_balance(&address, &balance);
            }
            assert forall|a: Address|
                #[trigger] balance_of(self@, a) == (if next.contains(a) && wrapped_net(transfers@, a)
                    != 0 {
                    wrapped_net(transfers@, a)
                } else {
                    balance_of(old(self)@, a)
                }) by {
                if balance@ != 0 {
                    assert(balance_of(self@, a) == (if a == address {
                        balance@
                    } else {
                        balance_of(before, a)
                    }));
                }
                assert(next[i as int] == address);
                if prefix.contains(a) {
                    let k = choose|k: int| 0 <= k < prefix.len() && prefix[k] == a;
                    assert(next[k] == a);
                }
                if next.contains(a) && a != address {
                    let k = choose|k: int| 0 <= k < next.len() && next[k] == a;
                    assert(prefix[k] == a);
                }
            }
            i += 1;
        }
        assert(addresses@.take(i as int) =~= addresses@);
    }

    /// The holders with the largest balances, largest first, at most `limit`
    /// of them.
    pub fn get_top_holders(&self, limit: usize) -> (r: Vec<BalanceRow>)
        requires
            self.wf(),
        ensures
            r@.len() == (if limit <= self@.len() {
                limit as int
            } else {
                self@.len() as int
            }),
            forall|k: int| 0 <= k < r@.len() ==> self@.contains(#[trigger] r@[k]),
            forall|i: int, j: int|
                0 <= i < j < r@.len() ==> (#[trigger] r@[i]).address != (#[trigger] r@[j]).address,
            forall|i: int, j: int|
                0 <= i < j < r@.len() ==> (#[trigger] r@[i]).balance@ >= (#[trigger] r@[j]).balance@,
            forall|i: int, k: int|
                0 <= i < self@.len() && 0 <= k < r@.len() && !r@.contains(#[trigger] self@[i])
                    ==> self@[i].balance@ <= (#[trigger] r@[k]).balance@,
    {
        top_rows(&self.rows, limit)
    }
}

/// The place of the delta of `a`, if there is one.
pub open spec fn delta_for(deltas: Seq<BalanceDelta>, a: Address) -> Option<int> {
    if exists|k: int| 0 <= k < deltas.len() && (#[trigger] deltas[k]).address == a {
        Some(choose|k: int| 0 <= k < deltas.len() && (#[trigger] deltas[k]).address == a)
    } else {
        None
    }
}

/// Among deltas that name each address once, the delta of an address is the
/// one that names it.
pub proof fn lemma_delta_for(deltas: Seq<BalanceDelta>, a: Address, k: int)
    requires
        deltas_distinct(deltas),
        0 <= k < deltas.len(),
        deltas[k].address == a,
    ensures
        delta_for(deltas, a) == Some(k),
{
    let c = choose|c: int| 0 <= c < deltas.len() && (#[trigger] deltas[c]).address == a;
    if c < k {
        assert(deltas[c].address != deltas[k].address);
    } else if k < c {
        assert(deltas[k].address != deltas[c].address);
    }
}

/// The balance of the last entry for `a` in a list of balances to set.
pub open spec fn last_entry(balances: Seq<BalanceRow>, a: Address) -> Option<nat>
    decreases balances.len(),
{
    if balances.len() == 0 {
        None
    } else if balances.last().address == a {
        Some(balances.last().balance@)
    } else {
        last_entry(balances.drop_last(), a)
    }
}

/// The balance computed from scratch: received less sent, each sum taken
/// modulo two to the power 256, the difference stopping at zero.
pub open spec fn recomputed_balance(ts: Seq<Transfer>, a: Address) -> nat {
    let received = credit_sum(ts, a) % u256_modulus();
    let sent = debit_sum(ts, a) % u256_modulus();
    if received >= sent {
        (received - sent) as nat
    } else {
        0
    }
}

/// What was received less what was sent, modulo two to the power 256.
pub open spec fn wrapped_net(ts: Seq<Transfer>, a: Address) -> nat {
    ((credit_sum(ts, a) - debit_sum(ts, a)) % (u256_modulus() as int)) as nat
}

/// The sums of a list of transfers followed by another are the sums of the
/// two lists added.
pub proof fn lemma_sums_concat(first: Seq<Transfer>, second: Seq<Transfer>, a: Address)
    ensures
        credit_sum(first + second, a) == credit_sum(first, a) + credit_sum(second, a),
        debit_sum(first + second, a) == debit_sum(first, a) + debit_sum(second, a),
        net_balance(first + second, a) == net_balance(first, a) + net_balance(second, a),
    decreases second.len(),
{
    if second.len() == 0 {
        assert(first + second =~= first);
    } else {
        lemma_sums_concat(first, second.drop_last(), a);
        assert((first + second).drop_last() =~= first + second.drop_last());
        assert((first + second).last() == second.last());
    }
}

/// One step of the ledger keeps it equal to the net balance of the history.
/// Where the ledger shows for an address what it received less what it sent
/// so far, and adding the credit of the next batch stays below two to the
/// power 256, the balance after the batch is what the address received less
/// what it sent over history and batch together, or zero where that is
/// below zero.
pub proof fn lemma_ledger_step(history: Seq<Transfer>, batch: Seq<Transfer>, a: Address)
    requires
        net_balance(history, a) >= 0,
        net_balance(history, a) + credit_sum(batch, a) < u256_modulus(),
        debit_sum(batch, a) < u256_modulus(),
    ensures
        next_balance(
            net_balance(history, a) as nat,
            credit_sum(batch, a) % u256_modulus(),
            debit_sum(batch, a) % u256_modulus(),
        ) == (if net_balance(history + batch, a) >= 0 {
            net_balance(history + batch, a)
        } else {
            0
        }),
{
    lemma_sums_concat(history, batch, a);
    let m = u256_modulus();
    vstd::arithmetic::div_mod::lemma_small_mod(credit_sum(batch, a), m);
    vstd::arithmetic::div_mod::lemma_small_mod(debit_sum(batch, a), m);
    vstd::arithmetic::div_mod::lemma_small_mod(
        (net_balance(history, a) + credit_sum(batch, a)) as nat,
        m,
    );
}

/// The transfers of a list of batches, one batch after the other.
pub open spec fn flatten_batches(batches: Seq<Seq<Transfer>>) -> Seq<Transfer>
    decreases batches.len(),
{
    if batches.len() == 0 {
        Seq::empty()
    } else {
        flatten_batches(batches.drop_last()) + batches.last()
    }
}

/// The balance that the ledger shows for `a` after the batches were applied
/// to an empty ledger, one after the other.
pub open spec fn balance_after(batches: Seq<Seq<Transfer>>, a: Address) -> nat
    decreases batches.len(),
{
    if batches.len() == 0 {
        0
    } else {
        next_balance(
            balance_after(batches.drop_last(), a),
            credit_sum(batches.last(), a) % u256_modulus(),
            debit_sum(batches.last(), a) % u256_modulus(),
        )
    }
}

/// Whether, for `a`, no batch but the last finds the address having sent
/// more than it received, and no sum leaves the 256-bit range on the way.
pub open spec fn never_overdrawn(batches: Seq<Seq<Transfer>>, a: Address) -> bool
    decreases batches.len(),
{
    if batches.len() == 0 {
        true
    } else {
        let history = flatten_batches(batches.drop_last());
        &&& never_overdrawn(batches.drop_last(), a)
        &&& net_balance(history, a) >= 0
        &&& net_balance(history, a) + credit_sum(batches.last(), a) < u256_modulus()
        &&& debit_sum(batches.last(), a) < u256_modulus()
    }
}

/// The ledger follows the finalized transfers. After any run of batches
/// applied to an empty ledger in which the address was never overdrawn
/// before a batch, the balance shown for it is what it received less what it
/// sent, or zero where that is below zero.
pub proof fn lemma_ledger_follows_history(batches: Seq<Seq<Transfer>>, a: Address)
    requires
        never_overdrawn(batches, a),
    ensures
        balance_after(batches, a) == (if net_balance(flatten_batches(batches), a) >= 0 {
            net_balance(flatten_batches(batches), a)
        } else {
            0
        }),
    decreases batches.len(),
{
    if batches.len() > 0 {
        lemma_ledger_follows_history(batches.drop_last(), a);
        lemma_ledger_step(flatten_batches(batches.drop_last()), batches.last(), a);
    }
}

/// Filling an empty ledger from a list of transfers in which no address sent
/// more than it received, and no address received two to the power 256 or
/// more, shows for each address what it received less what it sent.
pub proof fn lemma_populate_exact(ts: Seq<Transfer>, a: Address)
    requires
        0 <= net_balance(ts, a) < u256_modulus(),
    ensures
        wrapped_net(ts, a) == net_balance(ts, a),
{
    vstd::arithmetic::div_mod::lemma_small_mod(net_balance(ts, a) as nat, u256_modulus());
}

/// The rows with the largest balances, largest first, at most `limit` of
/// them.
pub fn top_rows(rows: &Vec<BalanceRow>, limit: usize) -> (r: Vec<BalanceRow>)
    requires
        ledger_wf(rows@),
    ensures
        r@.len() == (if limit <= rows@.len() {
            limit as int
        } else {
            rows@.len() as int
        }),
        forall|k: int| 0 <= k < r@.len() ==> rows@.contains(#[trigger] r@[k]),
        forall|i: int, j: int|
            0 <= i < j < r@.len() ==> (#[trigger] r@[i]).address != (#[trigger] r@[j]).address,
        forall|i: int, j: int|
            0 <= i < j < r@.len() ==> (#[trigger] r@[i]).balance@ >= (#[trigger] r@[j]).balance@,
        forall|i: int, k: int|
            0 <= i < rows@.len() && 0 <= k < r@.len() && !r@.contains(#[trigger] rows@[i])
                ==> rows@[i].balance@ <= (#[trigger] r@[k]).balance@,
{
    let mut rest: Vec<BalanceRow> = rows.clone();
    assert(rest@ =~= rows@);
    let mut top: Vec<BalanceRow> = Vec::new();
    while top.len() < limit && rest.len() > 0
        invariant
            top@.len() + rest@.len() == rows@.len(),
            top@.len() <= limit,
            ledger_wf(rest@),
            forall|k: int| 0 <= k < top@.len() ==> rows@.contains(#[trigger] top@[k]),
            forall|k: int| 0 <= k < rest@.len() ==> rows@.contains(#[trigger] rest@[k]),
            forall|i: int|
                0 <= i < rows@.len() ==> top@.contains(#[trigger] rows@[i]) || rest@.contains(
                    rows@[i],
                ),
            forall|i: int, j: int|
                0 <= i < j < top@.len() ==> (#[trigger] top@[i]).address != (#[trigger] top@[j]).address,
            forall|i: int, j: int|
                0 <= i < top@.len() && 0 <= j < rest@.len() ==> (#[trigger] top@[i]).address != (
                #[trigger] rest@[j]).address,
            forall|i: int, j: int|
                0 <= i < j < top@.len() ==> (#[trigger] top@[i]).balance@ >= (#[trigger] top@[j]).balance@,
            forall|i: int, j: int|
                0 <= i < top@.len() && 0 <= j < rest@.len() ==> (#[trigger] top@[i]).balance@ >= (
                #[trigger] rest@[j]).balance@,
        decreases rest@.len(),
    {
        let mut best: usize = 0;
        let mut j: usize = 1;
        while j < rest.len()
            invariant
                1 <= j <= rest.len(),
                best < j,
                forall|k: int| 0 <= k < j ==> (#[trigger] rest@[k]).balance@ <= rest@[best as int].balance@,
            decreases rest.len() - j,
        {
            if rest[best].balance.lt(&rest[j].balance) {
                best = j;
            }
            j += 1;
        }
        let ghost old_rest = rest@;
        let ghost old_top = top@;
        let row = rest.remove(best);
        top.push(row);
        proof {
            assert(rest@ =~= old_rest.remove(best as int));
            assert(top@ =~= old_top.push(row));
            assert(row == old_rest[best as int]);
            assert forall|k: int| 0 <= k < rest@.len() implies rows@.contains(#[trigger] rest@[k]) by {
                let ok = if k < best { k } else { k + 1 };
                assert(rest@[k] == old_rest[ok]);
            }
            assert(ledger_wf(rest@)) by {
                assert forall|x: int, y: int| 0 <= x < y < rest@.len() implies (#[trigger] rest@[x]).address
                    != (#[trigger] rest@[y]).address by {
                    let ox = if x < best { x } else { x + 1 };
                    let oy = if y < best { y } else { y + 1 };
                    assert(old_rest[ox].address != old_rest[oy].address);
                }
                assert forall|x: int| 0 <= x < rest@.len() implies (#[trigger] rest@[x]).balance@ > 0 by {
                    let ox = if x < best { x } else { x + 1 };
                    assert(old_rest[ox].balance@ > 0);
                }
            }
            assert forall|k: int| 0 <= k < top@.len() implies rows@.contains(#[trigger] top@[k]) by {
                if k < old_top.len() {
                    assert(top@[k] == old_top[k]);
                }
            }
            assert forall|i: int| 0 <= i < rows@.len() implies top@.contains(#[trigger] rows@[i])
                || rest@.contains(rows@[i]) by {
                if old_top.contains(rows@[i]) {
                    let k = choose|k: int| 0 <= k < old_top.len() && old_top[k] == rows@[i];
                    assert(top@[k] == rows@[i]);
                } else {
                    let k = choose|k: int| 0 <= k < old_rest.len() && old_rest[k] == rows@[i];
                    if k == best {
                        assert(top@[old_top.len() as int] == rows@[i]);
                    } else {
                        let nk = if k < best { k } else { k - 1 };
                        assert(rest@[nk] == rows@[i]);
                    }
                }
            }
            assert forall|x: int, y: int| 0 <= x < y < top@.len() implies (#[trigger] top@[x]).address
                != (#[trigger] top@[y]).address by {
                if y < old_top.len() {
                    assert(old_top[x].address != old_top[y].address);
                } else {
                    assert(old_top[x].address != old_rest[best as int].address);
                }
            }
            assert forall|x: int, y: int| 0 <= x < top@.len() && 0 <= y < rest@.len() implies (
            #[trigger] top@[x]).address != (#[trigger] rest@[y]).address by {
                let oy = if y < best { y } else { y + 1 };
                if x < old_top.len() {
                    assert(old_top[x].address != old_rest[oy].address);
                } else {
                    if oy < best {
                        assert(old_rest[oy].address != old_rest[best as int].address);
                    } else {
                        assert(old_rest[best as int].address != old_rest[oy].address);
                    }
                }
            }
            assert forall|x: int, y: int| 0 <= x < y < top@.len() implies (#[trigger] top@[x]).balance@
                >= (#[trigger] top@[y]).balance@ by {
                if y < old_top.len() {
                    assert(old_top[x].balance@ >= old_top[y].balance@);
                } else {
                    assert(old_top[x].balance@ >= old_rest[best as int].balance@);
                }
            }
            assert forall|x: int, y: int| 0 <= x < top@.len() && 0 <= y < rest@.len() implies (
            #[trigger] top@[x]).balance@ >= (#[trigger] rest@[y]).balance@ by {
                let oy = if y < best { y } else { y + 1 };
                if x < old_top.len() {
                    assert(old_top[x].balance@ >= old_rest[oy].balance@);
                } else {
                    assert(old_rest[oy].balance@ <= old_rest[best as int].balance@);
                }
            }
        }
    }
    proof {
        assert forall|i: int, k: int|
            0 <= i < rows@.len() && 0 <= k < top@.len() && !top@.contains(
                #[trigger] rows@[i],
            ) implies rows@[i].balance@ <= (#[trigger] top@[k]).balance@ by {
            assert(rest@.contains(rows@[i]));
            let j = choose|j: int| 0 <= j < rest@.len() && rest@[j] == rows@[i];
            assert(top@[k].balance@ >= rest@[j].balance@);
        }
    }
    top
}

} // verus!
