use vstd::prelude::*;

use crate::error::Error;
use crate::model::{current_of, has_version, ledger_sorted, lemma_strict_insert_by, RecordModel};

verus! {

/// A persisted fact: the migration with this version was applied at this
/// epoch timestamp.  Created by a successful application, deleted by a
/// successful rollback.
pub struct MigrationRecord {
    pub version: u64,
    pub name: String,
    pub applied_at: u64,
}

impl View for MigrationRecord {
    type V = RecordModel;

    open spec fn view(&self) -> RecordModel {
        RecordModel { version: self.version, name: self.name@, applied_at: self.applied_at }
    }
}

impl Clone for MigrationRecord {
    fn clone(&self) -> (r: Self)
        ensures
            r@ == self@,
    {
        MigrationRecord {
            version: self.version,
            name: self.name.clone(),
            applied_at: self.applied_at,
        }
    }
}

/// The durable ledger of applied migrations.
///
/// An implementation exposes its committed records as a sequence that is
/// strictly ascending by version; every operation keeps it so, reflects only
/// committed state, and reports persistence failures as `Error::Store`
/// without leaving the ledger half-written.
pub trait MigrationStore: Sized {
    /// The committed records, ascending by version.
    spec fn ledger(&self) -> Seq<RecordModel>;

    /// Ensure the underlying tracking structure exists.  Idempotent: the
    /// recorded history is never changed by it, so calling it any number of
    /// times leaves `applied` unchanged.
    fn init(&mut self) -> (r: Result<(), Error>)
        requires
            ledger_sorted(old(self).ledger()),
        ensures
            ledger_sorted(final(self).ledger()),
            final(self).ledger() == old(self).ledger(),
            r matches Err(e) ==> e is Store,
    ;

    /// All recorded applications, ordered by ascending version.
    fn applied(&self) -> (r: Result<Vec<MigrationRecord>, Error>)
        requires
            ledger_sorted(self.ledger()),
        ensures
            r matches Ok(v) ==> v@.map_values(|rec: MigrationRecord| rec@) == self.ledger(),
            r matches Err(e) ==> e is Store,
    ;

    /// Record that `version` was applied, stamped with the store's clock.
    /// Fails, leaving the ledger unchanged, if a record for that version
    /// already exists or the persistence layer fails.
    fn mark_applied(&mut self, version: u64, name: &str) -> (r: Result<(), Error>)
        requires
            ledger_sorted(old(self).ledger()),
        ensures
            ledger_sorted(final(self).ledger()),
            r is Ok ==> !has_version(old(self).ledger(), version) && (exists|i: int, t: u64|
                0 <= i <= old(self).ledger().len() && final(self).ledger() == old(
                    self,
                ).ledger().insert(i, (RecordModel { version, name: name@, applied_at: t }))),
            r is Err ==> final(self).ledger() == old(self).ledger(),
            has_version(old(self).ledger(), version) ==> r is Err,
            r matches Err(e) ==> e is Store,
    ;

    /// Remove the record for `version`.  Fails, leaving the ledger
    /// unchanged, if no such record exists or the persistence layer fails.
    fn mark_rolled_back(&mut self, version: u64) -> (r: Result<(), Error>)
        requires
            ledger_sorted(old(self).ledger()),
        ensures
            ledger_sorted(final(self).ledger()),
            r is Ok ==> has_version(old(self).ledger(), version) && (exists|i: int|
                0 <= i < old(self).ledger().len() && old(self).ledger()[i].version == version
                    && final(self).ledger() == old(self).ledger().remove(i)),
            r is Err ==> final(self).ledger() == old(self).ledger(),
            !has_version(old(self).ledger(), version) ==> r is Err,
            r matches Err(e) ==> e is Store,
    ;

    /// The derived current version: the greatest recorded version, or 0.
    fn current_version(&self) -> (r: Result<u64, Error>)
        requires
            ledger_sorted(self.ledger()),
        ensures
            r matches Ok(v) ==> v == current_of(self.ledger()),
            r matches Err(e) ==> e is Store,
    ;
}

/// The in-memory reference implementation of the ledger: a vector of
/// records kept strictly ascending by version, stamped by a logical clock
/// that advances on every successful application.  Its tracking structure
/// always exists, so `init` is a no-op and every operation works without it.
pub struct MemoryStore {
    records: Vec<MigrationRecord>,
    clock: u64,
}

impl MemoryStore {
    /// An empty ledger whose logical clock starts at 1.
    pub fn new() -> (r: MemoryStore)
        ensures
            r.ledger() == Seq::<RecordModel>::empty(),
            ledger_sorted(r.ledger()),
    {
        let r = MemoryStore { records: Vec::new(), clock: 1 };
        proof {
            assert(r.records@.map_values(|rec: MigrationRecord| rec@)
                =~= Seq::<RecordModel>::empty());
        }
        r
    }
}

impl MigrationStore for MemoryStore {
    closed spec fn ledger(&self) -> Seq<RecordModel> {
        self.records@.map_values(|rec: MigrationRecord| rec@)
    }

    fn init(&mut self) -> (r: Result<(), Error>)
        ensures
            r is Ok,
    {
        Ok(())
    }

    fn applied(&self) -> (r: Result<Vec<MigrationRecord>, Error>)
        ensures
            r is Ok,
    {
        let mut out: Vec<MigrationRecord> = Vec::new();
        let mut i: usize = 0;
        while i < self.records.len()
            invariant
                0 <= i <= self.records.len(),
                out@.len() == i as int,
                forall|k: int| 0 <= k < i as int ==> #[trigger] out@[k]@ == self.records@[k]@,
            decreases self.records.len() - i,
        {
            out.push(self.records[i].clone());
            i = i + 1;
        }
        proof {
            assert(out@.map_values(|rec: MigrationRecord| rec@) =~= self.ledger());
        }
        Ok(out)
    }

    fn mark_applied(&mut self, version: u64, name: &str) -> (r: Result<(), Error>)
        ensures
            !has_version(old(self).ledger(), version) ==> r is Ok,
    {
        let ghost l0 = self.ledger();
        let mut i: usize = 0;
        while i < self.records.len() && self.records[i].version < version
            invariant
                0 <= i <= self.records.len(),
                forall|k: int| 0 <= k < i as int ==> #[trigger] self.records@[k].version
                    < version,
            decreases self.records.len() - i,
        {
            i = i + 1;
        }
        if i < self.records.len() && self.records[i].version == version {
            proof {
                assert(l0[i as int].version == version);
            }
            return Err(Error::store("a record for this version already exists".to_owned()));
        }
        proof {
            assert forall|k: int| i as int <= k < l0.len() implies #[trigger] l0[k].version
                > version by {
                assert(self.records@[i as int].version >= version);
                assert(self.records@[i as int].version != version);
                if k > i as int {
                    assert(l0[i as int].version < l0[k].version);
                }
            }
            assert forall|k: int| 0 <= k < l0.len() implies #[trigger] l0[k].version
                != version by {
                if k < i as int {
                    assert(self.records@[k].version < version);
                }
            }
        }
        let rec = MigrationRecord { version, name: name.to_owned(), applied_at: self.clock };
        let ghost stamp: u64 = rec.applied_at;
        if self.clock < u64::MAX {
            self.clock = self.clock + 1;
        }
        self.records.insert(i, rec);
        proof {
            let lf = self.ledger();
            let rm = RecordModel { version, name: name@, applied_at: stamp };
            assert(lf =~= l0.insert(i as int, rm));
            lemma_strict_insert_by(l0, rm, i as int, |r: RecordModel| r.version);
            assert forall|a: int, b: int| 0 <= a < b < lf.len() implies #[trigger] lf[a].version
                < #[trigger] lf[b].version by {
                assert(lf[a] == l0.insert(i as int, rm)[a]);
                assert(lf[b] == l0.insert(i as int, rm)[b]);
            }
        }
        Ok(())
    }

    fn mark_rolled_back(&mut self, version: u64) -> (r: Result<(), Error>)
        ensures
            has_version(old(self).ledger(), version) ==> r is Ok,
    {
        let ghost l0 = self.ledger();
        let mut i: usize = 0;
        while i < self.records.len() && self.records[i].version != version
            invariant
                0 <= i <= self.records.len(),
                forall|k: int| 0 <= k < i as int ==> #[trigger] self.records@[k].version
                    != version,
            decreases self.records.len() - i,
        {
            i = i + 1;
        }
        if i == self.records.len() {
            proof {
                assert forall|k: int| 0 <= k < l0.len() implies #[trigger] l0[k].version
                    != version by {
                    assert(self.records@[k].version != version);
                }
            }
            return Err(Error::store("no record for this version exists".to_owned()));
        }
        proof {
            assert(l0[i as int].version == version);
        }
        self.records.remove(i);
        proof {
            let lf = self.ledger();
            assert(lf =~= l0.remove(i as int));
            assert forall|a: int, b: int| 0 <= a < b < lf.len() implies #[trigger] lf[a].version
                < #[trigger] lf[b].version by {
                if b < i as int {
                    assert(lf[a] == l0[a] && lf[b] == l0[b]);
                } else if a >= i as int {
                    assert(lf[a] == l0[a + 1] && lf[b] == l0[b + 1]);
                } else {
                    assert(lf[a] == l0[a] && lf[b] == l0[b + 1]);
                }
            }
        }
        Ok(())
    }

    fn current_version(&self) -> (r: Result<u64, Error>)
        ensures
            r is Ok,
    {
        if self.records.len() == 0 {
            Ok(0)
        } else {
            Ok(self.records[self.records.len() - 1].version)
        }
    }
}

} // verus!
