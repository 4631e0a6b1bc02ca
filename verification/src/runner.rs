use vstd::prelude::*;

use crate::error::Error;
use crate::migration::{Phase, SqlExecutor, SqlMigration};
use crate::model::{
    current_of, downs_of, has_version, ledger_sorted, lemma_current_is_max,
    lemma_reg_down_sql_at, lemma_retained_is_take, lemma_roll_targets_cut,
    lemma_roll_targets_prefix, lemma_selection_exact, lemma_sorted_insert_is_push,
    lemma_strict_insert_by, pending_of, records_extend, reg_down_sql, reg_has_version, reg_sorted,
    retained_of, roll_targets, selection_of, selects, ups_of, MigrationModel, RecordModel,
};
use crate::store::{MigrationRecord, MigrationStore};

verus! {

/// The action a dry-run step would take.
#[derive(Clone, Copy, PartialEq, Eq, Structural, Debug)]
pub enum PlanAction {
    Apply,
    Rollback,
}

/// One step of a dry-run plan: the version and name it concerns, and whether
/// the real run would apply or roll back.
pub struct PlanStep {
    pub version: u64,
    pub name: String,
    pub action: PlanAction,
}

/// The plan lists one Apply step per selected migration, in the same order.
pub open spec fn plan_applies(p: Seq<PlanStep>, sel: Seq<MigrationModel>) -> bool {
    &&& p.len() == sel.len()
    &&& forall|i: int|
        0 <= i < p.len() ==> (#[trigger] p[i]).version == sel[i].version && p[i].name@
            == sel[i].name && p[i].action == PlanAction::Apply
}

/// The plan lists one Rollback step per visited record, in the same order.
pub open spec fn plan_rollbacks(p: Seq<PlanStep>, rt: Seq<RecordModel>) -> bool {
    &&& p.len() == rt.len()
    &&& forall|i: int|
        0 <= i < p.len() ==> (#[trigger] p[i]).version == rt[i].version && p[i].name@
            == rt[i].name && p[i].action == PlanAction::Rollback
}

/// How a halted forward pass left the system: `k` migrations of the selection
/// over `(current, target]` were applied and recorded, in ascending order;
/// the context was handed exactly the forward SQL of the first `k` selected
/// migrations, plus that of the failing one when its own action failed; a
/// failing action's error carries the version at position `k`.
pub open spec fn up_halted(
    regm: Seq<MigrationModel>,
    l0: Seq<RecordModel>,
    lf: Seq<RecordModel>,
    log0: Seq<Seq<char>>,
    logf: Seq<Seq<char>>,
    target: u64,
    e: Error,
    k: int,
) -> bool {
    let sel = selection_of(regm, current_of(l0), target, None);
    &&& 0 <= k <= sel.len()
    &&& records_extend(l0, lf, sel.take(k))
    &&& (e matches Error::MigrationFailed(v, _) ==> k < sel.len() && v == sel[k].version)
    &&& (e is MigrationFailed ==> logf == log0 + ups_of(sel.take(k + 1)))
    &&& (e is Store ==> logf == log0 + ups_of(sel.take(k)) || (k < sel.len() && logf == log0
        + ups_of(sel.take(k + 1))))
}

/// How a halted backward pass left the system: the ledger is cut to its first
/// `m` records, everything from `m` on (all above the target) was rolled back
/// and removed, most recent first; the context was handed exactly the
/// rollback SQL of those records, plus that of the failing one when its own
/// action failed; the error names the record at the halt, and for
/// `RollbackNotSupported` its registry entry has no backward action.
pub open spec fn down_halted(
    regm: Seq<MigrationModel>,
    l0: Seq<RecordModel>,
    lf: Seq<RecordModel>,
    log0: Seq<Seq<char>>,
    logf: Seq<Seq<char>>,
    target: u64,
    e: Error,
    m: int,
) -> bool {
    let downs = downs_of(regm, roll_targets(l0, target));
    &&& 0 <= m <= l0.len()
    &&& lf == l0.take(m)
    &&& (forall|x: int| m <= x < l0.len() ==> (#[trigger] l0[x]).version > target)
    &&& (e matches Error::RollbackNotSupported(v) ==> m > 0 && l0[m - 1].version == v && (exists|
        j: int,
    |
        0 <= j < regm.len() && (#[trigger] regm[j]).version == v && regm[j].down_sql is None))
    &&& (e matches Error::MigrationNotFound(v) ==> m > 0 && l0[m - 1].version == v
        && !reg_has_version(regm, v))
    &&& (e matches Error::MigrationFailed(v, _) ==> m > 0 && l0[m - 1].version == v)
    &&& ((e is RollbackNotSupported || e is MigrationNotFound) ==> logf == log0 + downs.take(
        l0.len() - m,
    ))
    &&& (e is MigrationFailed ==> m > 0 && logf == log0 + downs.take(l0.len() - m + 1))
    &&& (e is Store ==> logf == log0 + downs.take(l0.len() - m) || (m > 0 && logf == log0
        + downs.take(l0.len() - m + 1)))
}

/// The orchestrator: an ordered registry of migrations and a borrowed store.
///
/// The runner holds no state of its own between calls; the system's state is
/// the store's record set, re-read on every operation.
pub struct MigrationRunner<S: MigrationStore> {
    store: S,
    migrations: Vec<SqlMigration>,
}

impl<S: MigrationStore> MigrationRunner<S> {
    /// The registry, as models, in storage order.
    pub closed spec fn reg(&self) -> Seq<MigrationModel> {
        self.migrations@.map_values(|m: SqlMigration| m@)
    }

    /// The ledger of the owned store.
    pub closed spec fn ledger(&self) -> Seq<RecordModel> {
        self.store.ledger()
    }

    /// Well-formed: the registry is strictly ascending by version (so
    /// versions are unique), and so is the ledger.
    pub open spec fn wf(&self) -> bool {
        &&& reg_sorted(self.reg())
        &&& ledger_sorted(self.ledger())
    }

    /// A runner over the given store, with an empty registry.
    pub fn new(store: S) -> (r: MigrationRunner<S>)
        requires
            ledger_sorted(store.ledger()),
        ensures
            r.wf(),
            r.reg() == Seq::<MigrationModel>::empty(),
            r.ledger() == store.ledger(),
    {
        let r = MigrationRunner { store, migrations: Vec::new() };
        proof {
            assert(r.reg() =~= Seq::<MigrationModel>::empty());
        }
        r
    }

    /// Register one migration, keeping the registry ordered by version.
    /// Rejects a duplicate version with `DuplicateVersion`, exactly when the
    /// registry already holds the version, leaving the registry unchanged.
    pub fn register(&mut self, m: SqlMigration) -> (r: Result<(), Error>)
        requires
            old(self).wf(),
        ensures
            final(self).wf(),
            final(self).ledger() == old(self).ledger(),
            r is Ok ==> !reg_has_version(old(self).reg(), m@.version) && (exists|i: int|
                0 <= i <= old(self).reg().len() && final(self).reg() == old(self).reg().insert(
                    i,
                    m@,
                )),
            r is Err ==> final(self).reg() == old(self).reg() && reg_has_version(
                old(self).reg(),
                m@.version,
            ),
            r matches Err(e) ==> e == Error::DuplicateVersion(m@.version),
            reg_has_version(old(self).reg(), m@.version) ==> r is Err,
    {
        let ghost r0 = self.reg();
        let version = m.version();
        let mut i: usize = 0;
        while i < self.migrations.len() && self.migrations[i].version() < version
            invariant
                0 <= i <= self.migrations.len(),
                forall|k: int| 0 <= k < i as int ==> #[trigger] self.migrations@[k]@.version
                    < version,
            decreases self.migrations.len() - i,
        {
            i = i + 1;
        }
        if i < self.migrations.len() && self.migrations[i].version() == version {
            proof {
                assert(r0[i as int].version == version);
            }
            return Err(Error::DuplicateVersion(version));
        }
        proof {
            assert forall|k: int| i as int <= k < r0.len() implies #[trigger] r0[k].version
                > version by {
                assert(self.migrations@[i as int]@.version >= version);
                assert(self.migrations@[i as int]@.version != version);
                if k > i as int {
                    assert(r0[i as int].version < r0[k].version);
                }
            }
            assert forall|k: int| 0 <= k < r0.len() implies #[trigger] r0[k].version
                != version by {
                if k < i as int {
                    assert(self.migrations@[k]@.version < version);
                }
            }
        }
        self.migrations.insert(i, m);
        proof {
            let rf = self.reg();
            assert(rf =~= r0.insert(i as int, m@));
            lemma_strict_insert_by(r0, m@, i as int, |mm: MigrationModel| mm.version);
            assert forall|a: int, b: int| 0 <= a < b < rf.len() implies #[trigger] rf[a].version
                < #[trigger] rf[b].version by {
                assert(rf[a] == r0.insert(i as int, m@)[a]);
                assert(rf[b] == r0.insert(i as int, m@)[b]);
            }
        }
        Ok(())
    }

    /// Builder-style registration, for registries known to be duplicate-free.
    pub fn add(self, m: SqlMigration) -> (r: MigrationRunner<S>)
        requires
            self.wf(),
            !reg_has_version(self.reg(), m@.version),
        ensures
            r.wf(),
            r.ledger() == self.ledger(),
            exists|i: int| 0 <= i <= self.reg().len() && r.reg() == self.reg().insert(i, m@),
    {
        let mut s = self;
        let res = s.register(m);
        proof {
            assert(res is Ok);
        }
        s
    }

    /// Prepare the store.  Delegates to the store's `init`; idempotent, as
    /// the recorded history is never changed by it.
    pub fn init(&mut self) -> (r: Result<(), Error>)
        requires
            old(self).wf(),
        ensures
            final(self).wf(),
            final(self).reg() == old(self).reg(),
            final(self).ledger() == old(self).ledger(),
            r matches Err(e) ==> e is Store,
    {
        self.store.init()
    }

    /// The current version: the greatest recorded version, or 0.
    pub fn current_version(&self) -> (r: Result<u64, Error>)
        requires
            self.wf(),
        ensures
            r matches Ok(v) ==> v == current_of(self.ledger()),
            r matches Err(e) ==> e is Store,
    {
        self.store.current_version()
    }

    /// All recorded applications, ascending by version.
    pub fn applied(&self) -> (r: Result<Vec<MigrationRecord>, Error>)
        requires
            self.wf(),
        ensures
            r matches Ok(v) ==> v@.map_values(|rec: MigrationRecord| rec@) == self.ledger(),
            r matches Err(e) ==> e is Store,
    {
        self.store.applied()
    }

    /// The registry entries selected for a forward pass over `(cur, hi]`
    /// under an optional phase filter, in registry order.
    fn select(&self, cur: u64, hi: u64, ph: Option<Phase>) -> (r: Vec<SqlMigration>)
        requires
            self.wf(),
        ensures
            r@.map_values(|m: SqlMigration| m@) == selection_of(self.reg(), cur, hi, ph),
    {
        let ghost regm = self.reg();
        let mut out: Vec<SqlMigration> = Vec::new();
        let mut i: usize = 0;
        proof {
            assert(out@.map_values(|m: SqlMigration| m@) =~= selection_of(
                regm.take(0),
                cur,
                hi,
                ph,
            ));
        }
        while i < self.migrations.len()
            invariant
                self.wf(),
                self.reg() == regm,
                0 <= i <= self.migrations.len(),
                out@.map_values(|m: SqlMigration| m@) == selection_of(
                    regm.take(i as int),
                    cur,
                    hi,
                    ph,
                ),
            decreases self.migrations.len() - i,
        {
            let m = &self.migrations[i];
            let phase_ok = match ph {
                Some(p) => m.get_phase() == p,
                None => true,
            };
            let chosen = m.version() > cur && m.version() <= hi && phase_ok;
            proof {
                assert(chosen == selects(regm[i as int], cur, hi, ph));
            }
            let ghost out0 = out@;
            if chosen {
                out.push(self.migrations[i].clone());
            }
            proof {
                let t1 = regm.take(i as int + 1);
                assert(t1.drop_last() =~= regm.take(i as int));
                assert(t1.last() == regm[i as int]);
                if chosen {
                    assert(out@.map_values(|m: SqlMigration| m@) =~= out0.map_values(
                        |m: SqlMigration| m@,
                    ).push(regm[i as int]));
                }
                assert(out@.map_values(|m: SqlMigration| m@) == selection_of(t1, cur, hi, ph));
            }
            i = i + 1;
        }
        proof {
            assert(regm.take(self.migrations@.len() as int) =~= regm);
        }
        out
    }

    /// The pending set: registry entries with version strictly above the
    /// current version, ascending by version.  Read-only.
    pub fn pending(&self) -> (r: Result<Vec<SqlMigration>, Error>)
        requires
            self.wf(),
        ensures
            r matches Ok(v) ==> v@.map_values(|m: SqlMigration| m@) == pending_of(
                self.reg(),
                current_of(self.ledger()),
            ),
            r matches Err(e) ==> e is Store,
    {
        let cur = match self.store.current_version() {
            Ok(c) => c,
            Err(e) => {
                return Err(e);
            },
        };
        Ok(self.select(cur, u64::MAX, None))
    }

    /// The pending set restricted to one phase, ascending by version.
    pub fn pending_in_phase(&self, phase: Phase) -> (r: Result<Vec<SqlMigration>, Error>)
        requires
            self.wf(),
        ensures
            r matches Ok(v) ==> v@.map_values(|m: SqlMigration| m@) == selection_of(
                self.reg(),
                current_of(self.ledger()),
                u64::MAX,
                Some(phase),
            ),
            r matches Err(e) ==> e is Store,
    {
        let cur = match self.store.current_version() {
            Ok(c) => c,
            Err(e) => {
                return Err(e);
            },
        };
        Ok(self.select(cur, u64::MAX, Some(phase)))
    }

    /// Forward pass: apply each selected migration, ascending by version,
    /// recording each success in the store immediately; halt on the first
    /// failure, returning the count of recorded successes beside the error.
    fn migrate_sel<Ctx: SqlExecutor>(&mut self, ctx: &mut Ctx, hi: u64, ph: Option<Phase>) -> (r:
        Result<usize, (usize, Error)>)
        requires
            old(self).wf(),
        ensures
            final(self).wf(),
            final(self).reg() == old(self).reg(),
            ({
                let sel = selection_of(old(self).reg(), current_of(old(self).ledger()), hi, ph);
                &&& (r matches Ok(n) ==> n == sel.len() && records_extend(
                    old(self).ledger(),
                    final(self).ledger(),
                    sel,
                ) && final(ctx).log() == old(ctx).log() + ups_of(sel))
                &&& (r matches Err(f) ==> f.0 <= sel.len() && records_extend(
                    old(self).ledger(),
                    final(self).ledger(),
                    sel.take(f.0 as int),
                ) && (f.1 matches Error::MigrationFailed(v, _) ==> f.0 < sel.len() && v
                    == sel[f.0 as int].version) && (f.1 is MigrationFailed || f.1 is Store) && (
                f.1 is MigrationFailed ==> final(ctx).log() == old(ctx).log() + ups_of(
                    sel.take(f.0 as int + 1),
                )) && (f.1 is Store ==> final(ctx).log() == old(ctx).log() + ups_of(
                    sel.take(f.0 as int),
                ) || (f.0 < sel.len() && final(ctx).log() == old(ctx).log() + ups_of(
                    sel.take(f.0 as int + 1),
                ))))
            }),
    {
        let ghost l0 = self.ledger();
        let ghost regm = self.reg();
        let ghost sel = selection_of(regm, current_of(l0), hi, ph);
        let cur = match self.store.current_version() {
            Ok(c) => c,
            Err(e) => {
                proof {
                    assert(sel.take(0) =~= Seq::<MigrationModel>::empty());
                    assert(self.ledger().take(l0.len() as int) =~= l0);
                    assert(ups_of(sel.take(0)) =~= Seq::<Seq<char>>::empty());
                    assert(ctx.log() + ups_of(sel.take(0)) =~= ctx.log());
                }
                return Err((0, e));
            },
        };
        let selv = self.select(cur, hi, ph);
        proof {
            lemma_current_is_max(l0);
            lemma_selection_exact(regm, cur, hi, ph);
            assert(sel.take(0) =~= Seq::<MigrationModel>::empty());
            assert(self.ledger().take(l0.len() as int) =~= l0);
            assert(records_extend(l0, self.ledger(), sel.take(0)));
            assert(ups_of(sel.take(0)) =~= Seq::<Seq<char>>::empty());
            assert(ctx.log() + ups_of(sel.take(0)) =~= ctx.log());
        }
        let mut k: usize = 0;
        while k < selv.len()
            invariant
                self.wf(),
                self.reg() == regm,
                regm == old(self).reg(),
                l0 == old(self).ledger(),
                ledger_sorted(l0),
                selv@.map_values(|m: SqlMigration| m@) == sel,
                sel == selection_of(regm, cur, hi, ph),
                cur == current_of(l0),
                forall|x: int| 0 <= x < l0.len() ==> #[trigger] l0[x].version <= cur,
                forall|x: int| 0 <= x < sel.len() ==> (#[trigger] sel[x]).version > cur,
                forall|x: int, y: int|
                    0 <= x < y < sel.len() ==> #[trigger] sel[x].version < #[trigger] sel[y].version,
                0 <= k <= sel.len(),
                records_extend(l0, self.ledger(), sel.take(k as int)),
                ctx.log() == old(ctx).log() + ups_of(sel.take(k as int)),
            decreases selv.len() - k,
        {
            let mref = &selv[k];
            proof {
                assert(mref@ == sel[k as int]);
            }
            match mref.apply(ctx) {
                Err(e) => {
                    proof {
                        assert(ups_of(sel.take(k as int + 1)) =~= ups_of(
                            sel.take(k as int),
                        ).push(sel[k as int].up_sql));
                        assert(ctx.log() =~= old(ctx).log() + ups_of(sel.take(k as int + 1)));
                    }
                    return Err((k, e));
                },
                Ok(()) => {},
            }
            proof {
                assert(ups_of(sel.take(k as int + 1)) =~= ups_of(sel.take(k as int)).push(
                    sel[k as int].up_sql,
                ));
                assert(ctx.log() =~= old(ctx).log() + ups_of(sel.take(k as int + 1)));
            }
            let ghost lprev = self.ledger();
            let res = self.store.mark_applied(mref.version(), mref.name());
            match res {
                Err(e) => {
                    return Err((k, e));
                },
                Ok(()) => {},
            }
            proof {
                let v = sel[k as int].version;
                let nm = sel[k as int].name;
                assert forall|x: int| 0 <= x < lprev.len() implies #[trigger] lprev[x].version
                    < v by {
                    if x < l0.len() {
                        assert(lprev.take(l0.len() as int)[x] == lprev[x]);
                        assert(lprev[x] == l0[x]);
                        assert(l0[x].version <= cur);
                    } else {
                        let j = x - l0.len();
                        assert(lprev[l0.len() + j].version == sel.take(k as int)[j].version);
                        assert(sel.take(k as int)[j] == sel[j]);
                        assert(sel[j].version < sel[k as int].version);
                    }
                }
                let (wi, wt): (int, u64) = choose|wi: int, wt: u64|
                    0 <= wi <= lprev.len() && self.ledger() == lprev.insert(
                        wi,
                        (RecordModel { version: v, name: nm, applied_at: wt }),
                    );
                let rec = RecordModel { version: v, name: nm, applied_at: wt };
                assert(rec.version > current_of(lprev)) by {
                    if lprev.len() > 0 {
                        assert(lprev[lprev.len() - 1].version < v);
                    }
                }
                lemma_sorted_insert_is_push(lprev, rec, wi);
                assert(self.ledger() == lprev.push(rec));
                assert(records_extend(l0, self.ledger(), sel.take(k as int + 1))) by {
                    let lf = self.ledger();
                    let s1 = sel.take(k as int + 1);
                    assert(lf.take(l0.len() as int) =~= lprev.take(l0.len() as int));
                    assert forall|j: int|
                        0 <= j < s1.len() implies (#[trigger] lf[l0.len() + j]).version
                        == s1[j].version && lf[l0.len() + j].name == s1[j].name by {
                        assert(s1[j] == sel[j]);
                        if j < k as int {
                            assert(lf[l0.len() + j] == lprev[l0.len() + j]);
                            assert(lprev[l0.len() + j].version == sel.take(k as int)[j].version);
                            assert(lprev[l0.len() + j].name == sel.take(k as int)[j].name);
                            assert(sel.take(k as int)[j] == sel[j]);
                        } else {
                            assert(lf[l0.len() + k as int] == rec);
                        }
                    }
                }
            }
            k = k + 1;
        }
        proof {
            assert(sel.take(sel.len() as int) =~= sel);
            assert(ups_of(sel.take(sel.len() as int)) == ups_of(sel));
        }
        Ok(k)
    }

    /// Apply every pending migration, ascending by version, recording each
    /// success immediately: the context is handed exactly the pending
    /// migrations' forward SQL, in that order.  On full success returns the
    /// number applied; on the first failure halts, returning the count
    /// applied before it beside the failing step's error, so that the ledger
    /// reflects exactly the migrations that succeeded and nothing past the
    /// failure is ever invoked.
    pub fn migrate<Ctx: SqlExecutor>(&mut self, ctx: &mut Ctx) -> (r: Result<
        usize,
        (usize, Error),
    >)
        requires
            old(self).wf(),
        ensures
            final(self).wf(),
            final(self).reg() == old(self).reg(),
            ({
                let pend = pending_of(old(self).reg(), current_of(old(self).ledger()));
                &&& (r matches Ok(n) ==> n == pend.len() && records_extend(
                    old(self).ledger(),
                    final(self).ledger(),
                    pend,
                ) && final(ctx).log() == old(ctx).log() + ups_of(pend))
                &&& (r matches Err(f) ==> f.0 <= pend.len() && records_extend(
                    old(self).ledger(),
                    final(self).ledger(),
                    pend.take(f.0 as int),
                ) && (f.1 matches Error::MigrationFailed(v, _) ==> f.0 < pend.len() && v
                    == pend[f.0 as int].version) && (f.1 is MigrationFailed || f.1 is Store) && (
                f.1 is MigrationFailed ==> final(ctx).log() == old(ctx).log() + ups_of(
                    pend.take(f.0 as int + 1),
                )) && (f.1 is Store ==> final(ctx).log() == old(ctx).log() + ups_of(
                    pend.take(f.0 as int),
                ) || (f.0 < pend.len() && final(ctx).log() == old(ctx).log() + ups_of(
                    pend.take(f.0 as int + 1),
                ))))
            }),
    {
        self.migrate_sel(ctx, u64::MAX, None)
    }

    /// Apply every pending migration of one phase, ascending by version,
    /// with the halt-on-first-failure behavior of `migrate`.
    pub fn migrate_phase<Ctx: SqlExecutor>(&mut self, ctx: &mut Ctx, phase: Phase) -> (r: Result<
        usize,
        (usize, Error),
    >)
        requires
            old(self).wf(),
        ensures
            final(self).wf(),
            final(self).reg() == old(self).reg(),
            ({
                let sel = selection_of(
                    old(self).reg(),
                    current_of(old(self).ledger()),
                    u64::MAX,
                    Some(phase),
                );
                &&& (r matches Ok(n) ==> n == sel.len() && records_extend(
                    old(self).ledger(),
                    final(self).ledger(),
                    sel,
                ) && final(ctx).log() == old(ctx).log() + ups_of(sel))
                &&& (r matches Err(f) ==> f.0 <= sel.len() && records_extend(
                    old(self).ledger(),
                    final(self).ledger(),
                    sel.take(f.0 as int),
                ) && (f.1 matches Error::MigrationFailed(v, _) ==> f.0 < sel.len() && v
                    == sel[f.0 as int].version) && (f.1 is MigrationFailed || f.1 is Store) && (
                f.1 is MigrationFailed ==> final(ctx).log() == old(ctx).log() + ups_of(
                    sel.take(f.0 as int + 1),
                )) && (f.1 is Store ==> final(ctx).log() == old(ctx).log() + ups_of(
                    sel.take(f.0 as int),
                ) || (f.0 < sel.len() && final(ctx).log() == old(ctx).log() + ups_of(
                    sel.take(f.0 as int + 1),
                ))))
            }),
    {
        self.migrate_sel(ctx, u64::MAX, Some(phase))
    }

    /// The registry index of the migration with this version, if any.
    fn find_migration(&self, version: u64) -> (r: Option<usize>)
        requires
            self.wf(),
        ensures
            r matches Some(idx) ==> (idx as int) < self.reg().len() && self.reg()[
                idx as int
            ].version == version,
            r is None ==> !reg_has_version(self.reg(), version),
    {
        let mut i: usize = 0;
        while i < self.migrations.len()
            invariant
                0 <= i <= self.migrations.len(),
                forall|k: int| 0 <= k < i as int ==> #[trigger] self.migrations@[k]@.version
                    != version,
            decreases self.migrations.len() - i,
        {
            if self.migrations[i].version() == version {
                return Some(i);
            }
            i = i + 1;
        }
        None
    }

    /// Drive the system to `target`.  Above the current version, applies the
    /// migrations in `(current, target]` ascending, as `migrate` does; below
    /// it, rolls back the recorded migrations above `target` in descending
    /// version order (most recently applied first), handing the context their
    /// rollback SQL in that order and removing each record on success; at it,
    /// does nothing and touches nothing.
    /// Halts on the first failure, so that on error the ledger is the prior
    /// ledger extended by the successful applications (forward) or cut down
    /// to a prefix still containing every record at or below `target`
    /// (backward).  A recorded version with no registry entry is a fatal
    /// consistency error, `MigrationNotFound`.
    pub fn migrate_to<Ctx: SqlExecutor>(&mut self, ctx: &mut Ctx, target: u64) -> (r: Result<
        (),
        Error,
    >)
        requires
            old(self).wf(),
        ensures
            final(self).wf(),
            final(self).reg() == old(self).reg(),
            ({
                let l0 = old(self).ledger();
                let lf = final(self).ledger();
                let regm = old(self).reg();
                let cur = current_of(l0);
                &&& (r is Ok && target >= cur ==> records_extend(
                    l0,
                    lf,
                    selection_of(regm, cur, target, None),
                ) && final(ctx).log() == old(ctx).log() + ups_of(
                    selection_of(regm, cur, target, None),
                ))
                &&& (r is Ok && target == cur ==> lf == l0 && final(ctx).log() == old(ctx).log())
                &&& (r is Ok && target < cur ==> lf == retained_of(l0, target) && final(ctx).log()
                    == old(ctx).log() + downs_of(regm, roll_targets(l0, target)))
                &&& (r matches Err(e) ==> ({
                    &&& (target == cur ==> e is Store && lf == l0 && final(ctx).log() == old(
                        ctx,
                    ).log())
                    &&& (target > cur ==> (exists|k: int|
                        up_halted(
                            regm,
                            l0,
                            lf,
                            old(ctx).log(),
                            final(ctx).log(),
                            target,
                            e,
                            k,
                        )) && (e is MigrationFailed || e is Store))
                    &&& (target < cur ==> (exists|m: int|
                        down_halted(
                            regm,
                            l0,
                            lf,
                            old(ctx).log(),
                            final(ctx).log(),
                            target,
                            e,
                            m,
                        )) && (e is RollbackNotSupported || e is MigrationNotFound
                        || e is MigrationFailed || e is Store))
                }))
            }),
    {
        let ghost l0 = self.ledger();
        let ghost regm = self.reg();
        let cur = match self.store.current_version() {
            Ok(c) => c,
            Err(e) => {
                proof {
                    let sel = selection_of(regm, current_of(l0), target, None);
                    assert(sel.take(0) =~= Seq::<MigrationModel>::empty());
                    assert(self.ledger().take(l0.len() as int) =~= l0);
                    assert(ups_of(sel.take(0)) =~= Seq::<Seq<char>>::empty());
                    assert(ctx.log() + ups_of(sel.take(0)) =~= ctx.log());
                    let downs = downs_of(regm, roll_targets(l0, target));
                    assert(downs.take(0) =~= Seq::<Seq<char>>::empty());
                    assert(ctx.log() + downs.take(0) =~= ctx.log());
                    assert(l0.take(l0.len() as int) =~= l0);
                    assert(up_halted(regm, l0, self.ledger(), old(ctx).log(), ctx.log(), target, e, 0));
                    assert(down_halted(
                        regm,
                        l0,
                        self.ledger(),
                        old(ctx).log(),
                        ctx.log(),
                        target,
                        e,
                        l0.len() as int,
                    ));
                }
                return Err(e);
            },
        };
        if target >= cur {
            proof {
                if target == cur {
                    lemma_selection_exact(regm, cur, target, None);
                    let sel = selection_of(regm, cur, target, None);
                    if sel.len() > 0 {
                        assert(selects(sel[0], cur, target, None));
                        assert(false);
                    }
                }
            }
            match self.migrate_sel(ctx, target, None) {
                Ok(_n) => {
                    proof {
                        if target == cur {
                            let lf = self.ledger();
                            assert(lf.take(l0.len() as int) =~= lf);
                            let sel = selection_of(regm, cur, target, None);
                            assert(ups_of(sel) =~= Seq::<Seq<char>>::empty());
                            assert(old(ctx).log() + ups_of(sel) =~= old(ctx).log());
                        }
                    }
                    Ok(())
                },
                Err((k0, e)) => {
                    proof {
                        let sel = selection_of(regm, cur, target, None);
                        assert(records_extend(l0, self.ledger(), sel.take(k0 as int)));
                        assert(up_halted(
                            regm,
                            l0,
                            self.ledger(),
                            old(ctx).log(),
                            ctx.log(),
                            target,
                            e,
                            k0 as int,
                        ));
                        if target == cur {
                            let lf = self.ledger();
                            assert(lf.take(l0.len() as int) =~= lf);
                            assert(ups_of(sel.take(k0 as int)) =~= Seq::<Seq<char>>::empty());
                            assert(old(ctx).log() + ups_of(sel.take(k0 as int)) =~= old(
                                ctx,
                            ).log());
                        }
                    }
                    Err(e)
                },
            }
        } else {
            let records = match self.store.applied() {
                Ok(v) => v,
                Err(e) => {
                    proof {
                        assert(l0.take(l0.len() as int) =~= l0);
                        let downs = downs_of(regm, roll_targets(l0, target));
                        assert(downs.take(0) =~= Seq::<Seq<char>>::empty());
                        assert(ctx.log() + downs.take(0) =~= ctx.log());
                        assert(down_halted(
                            regm,
                            l0,
                            self.ledger(),
                            old(ctx).log(),
                            ctx.log(),
                            target,
                            e,
                            l0.len() as int,
                        ));
                    }
                    return Err(e);
                },
            };
            let mut i: usize = records.len();
            proof {
                assert(l0.take(l0.len() as int) =~= l0);
                let downs = downs_of(regm, roll_targets(l0, target));
                assert(downs.take(0) =~= Seq::<Seq<char>>::empty());
                assert(ctx.log() + downs.take(0) =~= ctx.log());
            }
            while i > 0 && records[i - 1].version > target
                invariant
                    self.wf(),
                    self.reg() == regm,
                    regm == old(self).reg(),
                    l0 == old(self).ledger(),
                    ledger_sorted(l0),
                    records@.map_values(|rec: MigrationRecord| rec@) == l0,
                    0 <= i <= records.len(),
                    records@.len() == l0.len(),
                    self.ledger() == l0.take(i as int),
                    forall|x: int| i as int <= x < l0.len() ==> (#[trigger] l0[x]).version
                        > target,
                    ctx.log() == old(ctx).log() + downs_of(regm, roll_targets(l0, target)).take(
                        l0.len() - i as int,
                    ),
                decreases i,
            {
                let version = records[i - 1].version;
                proof {
                    assert(records@[i as int - 1]@ == l0[i as int - 1]);
                }
                let idx = match self.find_migration(version) {
                    Some(idx) => idx,
                    None => {
                        let err = Error::MigrationNotFound(version);
                        proof {
                            assert(down_halted(
                                regm,
                                l0,
                                self.ledger(),
                                old(ctx).log(),
                                ctx.log(),
                                target,
                                err,
                                i as int,
                            ));
                        }
                        return Err(err);
                    },
                };
                proof {
                    assert(self.migrations@[idx as int]@ == regm[idx as int]);
                    lemma_roll_targets_prefix(l0, target, i as int - 1);
                    lemma_reg_down_sql_at(regm, idx as int);
                    assert(roll_targets(l0, target)[l0.len() - i as int] == l0[i as int - 1]);
                    assert(downs_of(regm, roll_targets(l0, target))[l0.len() - i as int]
                        == reg_down_sql(regm, l0[i as int - 1].version));
                }
                match self.migrations[idx].rollback(ctx) {
                    Ok(()) => {
                        proof {
                            let downs = downs_of(regm, roll_targets(l0, target));
                            assert(downs.take(l0.len() - i as int + 1) =~= downs.take(
                                l0.len() - i as int,
                            ).push(downs[l0.len() - i as int]));
                            assert(ctx.log() =~= old(ctx).log() + downs.take(l0.len() - i as int
                                + 1));
                        }
                    },
                    Err(e) => {
                        proof {
                            if regm[idx as int].down_sql is Some {
                                let downs = downs_of(regm, roll_targets(l0, target));
                                assert(downs.take(l0.len() - i as int + 1) =~= downs.take(
                                    l0.len() - i as int,
                                ).push(downs[l0.len() - i as int]));
                                assert(ctx.log() =~= old(ctx).log() + downs.take(l0.len()
                                    - i as int + 1));
                            }
                            assert(down_halted(
                                regm,
                                l0,
                                self.ledger(),
                                old(ctx).log(),
                                ctx.log(),
                                target,
                                e,
                                i as int,
                            ));
                        }
                        return Err(e);
                    },
                }
                let ghost lprev = self.ledger();
                match self.store.mark_rolled_back(version) {
                    Ok(()) => {},
                    Err(e) => {
                        proof {
                            assert(down_halted(
                                regm,
                                l0,
                                self.ledger(),
                                old(ctx).log(),
                                ctx.log(),
                                target,
                                e,
                                i as int,
                            ));
                        }
                        return Err(e);
                    },
                }
                proof {
                    assert(lprev[i as int - 1] == l0[i as int - 1]);
                    let ri = choose|ri: int|
                        0 <= ri < lprev.len() && lprev[ri].version == version && self.ledger()
                            == lprev.remove(ri);
                    assert(ri == i as int - 1) by {
                        if ri < i as int - 1 {
                            assert(lprev[ri].version < lprev[i as int - 1].version);
                        } else if ri > i as int - 1 {
                            assert(lprev[i as int - 1].version < lprev[ri].version);
                        }
                    }
                    assert(lprev.remove(i as int - 1) =~= l0.take(i as int - 1));
                }
                i = i - 1;
            }
            proof {
                lemma_retained_is_take(l0, target, i as int);
                lemma_roll_targets_cut(l0, target, i as int);
                let downs = downs_of(regm, roll_targets(l0, target));
                assert(downs.take(l0.len() - i as int) =~= downs);
            }
            Ok(())
        }
    }

    /// The dry-run plan of `migrate`: the Apply steps, by version and name,
    /// that a real run would execute, computed by the same selection and
    /// ordering as `migrate`, without touching any context.
    pub fn plan(&self) -> (r: Result<Vec<PlanStep>, Error>)
        requires
            self.wf(),
        ensures
            r matches Ok(v) ==> plan_applies(
                v@,
                pending_of(self.reg(), current_of(self.ledger())),
            ),
            r matches Err(e) ==> e is Store,
    {
        let cur = match self.store.current_version() {
            Ok(c) => c,
            Err(e) => {
                return Err(e);
            },
        };
        Ok(self.plan_steps(cur, u64::MAX))
    }

    /// The Apply steps for the selection over `(cur, hi]`, in order.
    fn plan_steps(&self, cur: u64, hi: u64) -> (r: Vec<PlanStep>)
        requires
            self.wf(),
        ensures
            plan_applies(r@, selection_of(self.reg(), cur, hi, None)),
    {
        let selv = self.select(cur, hi, None);
        let ghost sel = selection_of(self.reg(), cur, hi, None);
        let mut steps: Vec<PlanStep> = Vec::new();
        let mut i: usize = 0;
        while i < selv.len()
            invariant
                selv@.map_values(|m: SqlMigration| m@) == sel,
                0 <= i <= selv.len(),
                steps@.len() == i as int,
                forall|j: int|
                    0 <= j < i as int ==> (#[trigger] steps@[j]).version == sel[j].version
                        && steps@[j].name@ == sel[j].name && steps@[j].action == PlanAction::Apply,
            decreases selv.len() - i,
        {
            let m = &selv[i];
            proof {
                assert(m@ == sel[i as int]);
            }
            steps.push(PlanStep { version: m.version(), name: m.name().to_owned(), action: PlanAction::Apply });
            i = i + 1;
        }
        steps
    }

    /// The dry-run plan of `migrate_to`: the ordered steps, Apply ascending
    /// or Rollback descending, that a real run would execute, computed by
    /// the same selection and ordering logic.  As in a real run, a recorded
    /// version above the target with no registry entry is reported as
    /// `MigrationNotFound`.
    pub fn plan_to(&self, target: u64) -> (r: Result<Vec<PlanStep>, Error>)
        requires
            self.wf(),
        ensures
            ({
                let l0 = self.ledger();
                let regm = self.reg();
                let cur = current_of(l0);
                &&& (r matches Ok(v) ==> (target >= cur ==> plan_applies(
                    v@,
                    selection_of(regm, cur, target, None),
                )) && (target < cur ==> plan_rollbacks(v@, roll_targets(l0, target)) && (forall|
                    x: int,
                |
                    0 <= x < roll_targets(l0, target).len() ==> reg_has_version(
                        regm,
                        (#[trigger] roll_targets(l0, target)[x]).version,
                    ))))
                &&& (r matches Err(e) ==> e is Store || (e matches Error::MigrationNotFound(v)
                    && target < cur && has_version(l0, v) && v > target && !reg_has_version(
                    regm,
                    v,
                )))
            }),
    {
        let ghost l0 = self.ledger();
        let ghost regm = self.reg();
        let cur = match self.store.current_version() {
            Ok(c) => c,
            Err(e) => {
                return Err(e);
            },
        };
        if target >= cur {
            Ok(self.plan_steps(cur, target))
        } else {
            let records = match self.store.applied() {
                Ok(v) => v,
                Err(e) => {
                    return Err(e);
                },
            };
            let mut steps: Vec<PlanStep> = Vec::new();
            let mut i: usize = records.len();
            while i > 0 && records[i - 1].version > target
                invariant
                    self.wf(),
                    self.reg() == regm,
                    self.ledger() == l0,
                    ledger_sorted(l0),
                    records@.map_values(|rec: MigrationRecord| rec@) == l0,
                    0 <= i <= records.len(),
                    records@.len() == l0.len(),
                    steps@.len() == l0.len() - i as int,
                    forall|x: int| i as int <= x < l0.len() ==> (#[trigger] l0[x]).version
                        > target && reg_has_version(regm, l0[x].version),
                    forall|j: int|
                        0 <= j < steps@.len() ==> (#[trigger] steps@[j]).version == l0[l0.len() - 1
                            - j].version && steps@[j].name@ == l0[l0.len() - 1 - j].name
                            && steps@[j].action == PlanAction::Rollback,
                decreases i,
            {
                let rec = &records[i - 1];
                proof {
                    assert(records@[i as int - 1]@ == l0[i as int - 1]);
                }
                let fm = self.find_migration(rec.version);
                if fm.is_none() {
                    proof {
                        assert(l0[i as int - 1].version == rec.version);
                        assert(has_version(l0, rec.version));
                    }
                    return Err(Error::MigrationNotFound(rec.version));
                }
                steps.push(PlanStep {
                    version: rec.version,
                    name: rec.name.clone(),
                    action: PlanAction::Rollback,
                });
                i = i - 1;
            }
            proof {
                lemma_roll_targets_cut(l0, target, i as int);
            }
            Ok(steps)
        }
    }
}

} // verus!
