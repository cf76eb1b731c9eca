//! The store as a whole: the three tables and the record of the schema
//! migrations that were applied.

use vstd::prelude::*;
use crate::repository::balance_repository::BalanceRepository;
use crate::repository::token_repository::TokenRepository;
use crate::repository::transfer_repository::TransferRepository;
use crate::text::{strip_prefix, strip_prefix_spec};

verus! {

/// The newest schema version: the one that added finality tracking.
pub const SCHEMA_VERSION: i32 = 1;

/// The store.
pub struct Database {
    pub tokens: TokenRepository,
    pub transfers: TransferRepository,
    pub balances: BalanceRepository,
    pub db_path: String,
    pub applied_migrations: Vec<i32>,
}

impl Database {
    /// Whether the store is well formed: each table is, and no migration is
    /// recorded twice.
    pub open spec fn wf(&self) -> bool {
        &&& self.tokens.wf()
        &&& self.transfers.wf()
        &&& self.balances.wf()
        &&& self.applied_migrations@.no_duplicates()
    }

    /// An empty store at the given location, with every migration applied. A
    /// `sqlite:` in front of the location is dropped.
    pub fn new(db_path: &str) -> (db: Database)
        ensures
            db.wf(),
            db.db_path@ == strip_prefix_spec(db_path@, "sqlite:"@),
            db.tokens@.len() == 0,
            db.transfers@.len() == 0,
            db.balances@.len() == 0,
            db.applied_migrations@ == seq![SCHEMA_VERSION],
    {
        let mut db = Database {
            tokens: TokenRepository::new(),
            transfers: TransferRepository::new(),
            balances: BalanceRepository::new(),
            db_path: strip_prefix(db_path, "sqlite:"),
            applied_migrations: Vec::new(),
        };
        db.run_migrations();
        db
    }

    /// Brings the record of migrations up to date. The tables of this store
    /// have the columns of the newest schema from the start, so that a
    /// migration that is pending has nothing to alter and is recorded.
    pub fn run_migrations(&mut self)
        requires
            old(self).wf(),
        ensures
            final(self).wf(),
            final(self).applied_migrations@.contains(SCHEMA_VERSION),
            final(self).applied_migrations@ == (if old(self).applied_migrations@.contains(
                SCHEMA_VERSION,
            ) {
                old(self).applied_migrations@
            } else {
                old(self).applied_migrations@.push(SCHEMA_VERSION)
            }),
            final(self).tokens == old(self).tokens,
            final(self).transfers == old(self).transfers,
            final(self).balances == old(self).balances,
            final(self).db_path == old(self).db_path,
    {
        if self.migration_pending(SCHEMA_VERSION) {
            self.record_migration(SCHEMA_VERSION);
        }
    }

    /// Whether a migration has to run: it is not recorded yet. A migration
    /// runs at most once per store.
    pub fn migration_pending(&self, version: i32) -> (r: bool)
        ensures
            r == !self.applied_migrations@.contains(version),
    {
        migration_pending(&self.applied_migrations, version)
    }

    /// Records a migration that was pending and has run without error. One
    /// that failed is not recorded, and is pending again at the next start.
    pub fn record_migration(&mut self, version: i32)
        requires
            old(self).wf(),
            !old(self).applied_migrations@.contains(version),
        ensures
            final(self).wf(),
            final(self).applied_migrations@ == old(self).applied_migrations@.push(version),
            final(self).applied_migrations@.contains(version),
            final(self).tokens == old(self).tokens,
            final(self).transfers == old(self).transfers,
            final(self).balances == old(self).balances,
            final(self).db_path == old(self).db_path,
    {
        let ghost before = self.applied_migrations@;
        self.applied_migrations.push(version);
        assert(self.applied_migrations@[before.len() as int] == version);
        assert(self.applied_migrations@.no_duplicates()) by {
            assert forall|i: int, j: int|
                0 <= i < self.applied_migrations@.len() && 0 <= j < self.applied_migrations@.len() && i
                    != j implies self.applied_migrations@[i] != self.applied_migrations@[j] by {
                if i < before.len() && j < before.len() {
                    assert(before[i] != before[j]);
                } else if i < before.len() {
                    assert(before.contains(before[i]));
                } else if j < before.len() {
                    assert(before.contains(before[j]));
                }
            }
        }
    }
}

/// Whether a migration is missing from the versions that were applied.
pub fn migration_pending(applied: &Vec<i32>, version: i32) -> (r: bool)
    ensures
        r == !applied@.contains(version),
{
    let mut i: usize = 0;
    while i < applied.len()
        invariant
            i <= applied.len(),
            forall|k: int| 0 <= k < i ==> applied@[k] != version,
        decreases applied.len() - i,
    {
        if applied[i] == version {
            return false;
        }
        i += 1;
    }
    true
}

} // verus!
