use vstd::prelude::*;

use crate::migration::Phase;

verus! {

/// Model of one ledger record: the persisted fact that a version was
/// applied, with its display name and an epoch timestamp.
pub ghost struct RecordModel {
    pub version: u64,
    pub name: Seq<char>,
    pub applied_at: u64,
}

/// Model of one registered migration.
pub ghost struct MigrationModel {
    pub version: u64,
    pub name: Seq<char>,
    pub phase: Phase,
    pub up_sql: Seq<char>,
    pub down_sql: Option<Seq<char>>,
}

/// The ledger is strictly ascending by version; versions are therefore unique.
pub open spec fn ledger_sorted(l: Seq<RecordModel>) -> bool {
    forall|i: int, j: int|
        0 <= i < j < l.len() ==> #[trigger] l[i].version < #[trigger] l[j].version
}

/// Some record of the ledger carries this version.
pub open spec fn has_version(l: Seq<RecordModel>, v: u64) -> bool {
    exists|i: int| 0 <= i < l.len() && #[trigger] l[i].version == v
}

/// The derived current version: the greatest recorded version, or 0 when the
/// ledger is empty.  On a sorted ledger the greatest version is the last.
pub open spec fn current_of(l: Seq<RecordModel>) -> u64 {
    if l.len() == 0 {
        0
    } else {
        l[l.len() - 1].version
    }
}

/// The registry is strictly ascending by version; versions are unique.
pub open spec fn reg_sorted(reg: Seq<MigrationModel>) -> bool {
    forall|i: int, j: int|
        0 <= i < j < reg.len() ==> #[trigger] reg[i].version < #[trigger] reg[j].version
}

/// Some registered migration carries this version.
pub open spec fn reg_has_version(reg: Seq<MigrationModel>, v: u64) -> bool {
    exists|i: int| 0 <= i < reg.len() && #[trigger] reg[i].version == v
}

/// Whether a migration is selected for a forward pass: its version lies in
/// `(cur, hi]`, and, when a phase filter is given, its phase matches.
pub open spec fn selects(m: MigrationModel, cur: u64, hi: u64, ph: Option<Phase>) -> bool {
    &&& m.version > cur
    &&& m.version <= hi
    &&& (ph matches Some(p) ==> m.phase == p)
}

/// The registry entries selected for a forward pass, in registry order.
pub open spec fn selection_of(
    reg: Seq<MigrationModel>,
    cur: u64,
    hi: u64,
    ph: Option<Phase>,
) -> Seq<MigrationModel>
    decreases reg.len(),
{
    if reg.len() == 0 {
        Seq::empty()
    } else {
        let rest = selection_of(reg.drop_last(), cur, hi, ph);
        if selects(reg.last(), cur, hi, ph) {
            rest.push(reg.last())
        } else {
            rest
        }
    }
}

/// The pending set: registry entries with version strictly above `cur`.
pub open spec fn pending_of(reg: Seq<MigrationModel>, cur: u64) -> Seq<MigrationModel> {
    selection_of(reg, cur, u64::MAX, None)
}

/// The ledger records a backward pass would visit, most recent first: the
/// trailing records with version above `target`, in reverse ledger order.
pub open spec fn roll_targets(l: Seq<RecordModel>, target: u64) -> Seq<RecordModel>
    decreases l.len(),
{
    if l.len() == 0 {
        Seq::empty()
    } else if l.last().version > target {
        seq![l.last()] + roll_targets(l.drop_last(), target)
    } else {
        Seq::empty()
    }
}

/// What a completed backward pass leaves: the ledger with its trailing
/// records above `target` removed.
pub open spec fn retained_of(l: Seq<RecordModel>, target: u64) -> Seq<RecordModel>
    decreases l.len(),
{
    if l.len() == 0 {
        Seq::empty()
    } else if l.last().version > target {
        retained_of(l.drop_last(), target)
    } else {
        l
    }
}

/// `l` is `base` extended with one record per migration of `ms`, in order:
/// each appended record carries the migration's version and name.
pub open spec fn records_extend(
    base: Seq<RecordModel>,
    l: Seq<RecordModel>,
    ms: Seq<MigrationModel>,
) -> bool {
    &&& l.len() == base.len() + ms.len()
    &&& l.take(base.len() as int) == base
    &&& forall|j: int|
        0 <= j < ms.len() ==> (#[trigger] l[base.len() + j]).version == ms[j].version
            && l[base.len() + j].name == ms[j].name
}

/// The forward SQL of each migration, in order: what a forward pass hands to
/// the execution context.
pub open spec fn ups_of(ms: Seq<MigrationModel>) -> Seq<Seq<char>> {
    ms.map_values(|m: MigrationModel| m.up_sql)
}

/// The backward SQL of the registry entry carrying this version (empty when
/// the entry has none or the version is unregistered).
pub open spec fn reg_down_sql(reg: Seq<MigrationModel>, v: u64) -> Seq<char> {
    let j = choose|j: int| 0 <= j < reg.len() && reg[j].version == v;
    match reg[j].down_sql {
        Some(s) => s,
        None => Seq::empty(),
    }
}

/// The backward SQL a backward pass hands to the execution context for each
/// visited record, in visit order.
pub open spec fn downs_of(reg: Seq<MigrationModel>, targets: Seq<RecordModel>) -> Seq<Seq<char>> {
    targets.map_values(|rec: RecordModel| reg_down_sql(reg, rec.version))
}

/// On a duplicate-free registry, `reg_down_sql` at a registered version is
/// that entry's backward SQL.
pub proof fn lemma_reg_down_sql_at(reg: Seq<MigrationModel>, idx: int)
    requires
        reg_sorted(reg),
        0 <= idx < reg.len(),
    ensures
        reg_down_sql(reg, reg[idx].version) == match reg[idx].down_sql {
            Some(s) => s,
            None => Seq::<char>::empty(),
        },
{
    let v = reg[idx].version;
    let j = choose|j: int| 0 <= j < reg.len() && reg[j].version == v;
    assert(reg[idx].version == v);
    if j < idx {
        assert(reg[j].version < reg[idx].version);
    } else if j > idx {
        assert(reg[idx].version < reg[j].version);
    }
}

/// While every record from `i` on lies above the target, a backward pass
/// visits at least those records, most recent first, whatever lies below.
pub proof fn lemma_roll_targets_prefix(l: Seq<RecordModel>, target: u64, i: int)
    requires
        0 <= i <= l.len(),
        forall|x: int| i <= x < l.len() ==> (#[trigger] l[x]).version > target,
    ensures
        roll_targets(l, target).len() >= l.len() - i,
        forall|j: int|
            0 <= j < l.len() - i ==> #[trigger] roll_targets(l, target)[j] == l[l.len() - 1 - j],
    decreases l.len(),
{
    if i == l.len() {
    } else {
        assert(l.last().version > target);
        let head = l.drop_last();
        lemma_roll_targets_prefix(head, target, i);
        let rt = roll_targets(l, target);
        let rest = roll_targets(head, target);
        assert forall|j: int| 0 <= j < l.len() - i implies #[trigger] rt[j] == l[l.len() - 1
            - j] by {
            if j == 0 {
                assert(rt[0] == l.last());
            } else {
                assert(rt[j] == rest[j - 1]);
                assert(rest[j - 1] == head[head.len() - 1 - (j - 1)]);
                assert(head[head.len() - j] == l[l.len() - 1 - j]);
            }
        }
    }
}

/// Inserting an element whose key lies above everything before the insertion
/// point and below everything after it keeps a sequence strictly ascending
/// by that key.
pub proof fn lemma_strict_insert_by<T>(s: Seq<T>, x: T, i: int, key: spec_fn(T) -> u64)
    requires
        0 <= i <= s.len(),
        forall|a: int, b: int| 0 <= a < b < s.len() ==> key(#[trigger] s[a]) < key(#[trigger] s[b]),
        forall|k: int| 0 <= k < i ==> key(#[trigger] s[k]) < key(x),
        forall|k: int| i <= k < s.len() ==> key(#[trigger] s[k]) > key(x),
    ensures
        forall|a: int, b: int|
            0 <= a < b < s.len() + 1 ==> key(#[trigger] s.insert(i, x)[a]) < key(
                #[trigger] s.insert(i, x)[b],
            ),
{
    let w = s.insert(i, x);
    assert forall|a: int, b: int| 0 <= a < b < s.len() + 1 implies key(#[trigger] w[a]) < key(
        #[trigger] w[b],
    ) by {
        if b < i {
            assert(w[a] == s[a] && w[b] == s[b]);
        } else if a > i {
            assert(w[a] == s[a - 1] && w[b] == s[b - 1]);
        } else if a < i && b == i {
            assert(w[a] == s[a] && w[b] == x);
        } else if a == i && b > i {
            assert(w[a] == x && w[b] == s[b - 1]);
        } else {
            assert(w[a] == s[a] && w[b] == s[b - 1]);
        }
    }
}

/// On a sorted ledger, every recorded version is at most the current version.
pub proof fn lemma_current_is_max(l: Seq<RecordModel>)
    requires
        ledger_sorted(l),
    ensures
        forall|i: int| 0 <= i < l.len() ==> #[trigger] l[i].version <= current_of(l),
{
    assert forall|i: int| 0 <= i < l.len() implies #[trigger] l[i].version <= current_of(l) by {
        if i < l.len() - 1 {
            assert(l[i].version < l[l.len() - 1].version);
        }
    }
}

/// The selection of a forward pass, characterized: every selected entry is a
/// registry entry that the filter admits, every admitted registry entry is
/// selected, and on a sorted registry the selection is strictly ascending by
/// version.
pub proof fn lemma_selection_exact(
    reg: Seq<MigrationModel>,
    cur: u64,
    hi: u64,
    ph: Option<Phase>,
)
    ensures
        ({
            let sel = selection_of(reg, cur, hi, ph);
            &&& forall|i: int|
                0 <= i < sel.len() ==> reg.contains(#[trigger] sel[i]) && selects(sel[i], cur, hi, ph)
            &&& forall|j: int|
                0 <= j < reg.len() && selects(#[trigger] reg[j], cur, hi, ph) ==> sel.contains(reg[j])
            &&& sel.len() <= reg.len()
            &&& (reg_sorted(reg) ==> forall|i: int, j: int|
                0 <= i < j < sel.len() ==> #[trigger] sel[i].version < #[trigger] sel[j].version)
        }),
    decreases reg.len(),
{
    let sel = selection_of(reg, cur, hi, ph);
    if reg.len() == 0 {
    } else {
        let head = reg.drop_last();
        let rest = selection_of(head, cur, hi, ph);
        lemma_selection_exact(head, cur, hi, ph);
        assert forall|i: int| 0 <= i < rest.len() implies reg.contains(#[trigger] rest[i]) by {
            let k = choose|k: int| 0 <= k < head.len() && head[k] == rest[i];
            assert(reg[k] == rest[i]);
        }
        if reg_sorted(reg) {
            assert(reg_sorted(head));
            assert forall|i: int| 0 <= i < rest.len() implies #[trigger] rest[i].version
                < reg.last().version by {
                let k = choose|k: int| 0 <= k < head.len() && head[k] == rest[i];
                assert(reg[k].version < reg[reg.len() - 1].version);
            }
        }
        assert forall|j: int|
            0 <= j < reg.len() && selects(#[trigger] reg[j], cur, hi, ph) implies sel.contains(
            reg[j],
        ) by {
            if j == reg.len() - 1 {
                assert(sel.last() == reg[j]);
                assert(sel.contains(reg[j]));
            } else {
                assert(head[j] == reg[j]);
                assert(rest.contains(reg[j]));
                let k = choose|k: int| 0 <= k < rest.len() && rest[k] == reg[j];
                assert(sel[k] == reg[j]);
                assert(sel.contains(reg[j]));
            }
        }
    }
}

/// The pending set, exactly: entries of a sorted registry with version
/// strictly above the current version, in strictly ascending order, and
/// nothing else.
pub proof fn lemma_pending_exact(reg: Seq<MigrationModel>, cur: u64)
    requires
        reg_sorted(reg),
    ensures
        ({
            let p = pending_of(reg, cur);
            &&& forall|i: int|
                0 <= i < p.len() ==> reg.contains(#[trigger] p[i]) && p[i].version > cur
            &&& forall|j: int|
                0 <= j < reg.len() && #[trigger] reg[j].version > cur ==> p.contains(reg[j])
            &&& forall|i: int, j: int|
                0 <= i < j < p.len() ==> #[trigger] p[i].version < #[trigger] p[j].version
        }),
{
    lemma_selection_exact(reg, cur, u64::MAX, None);
}

/// A record with a version above the whole sorted ledger can only stand at
/// its end: inserting it anywhere that keeps the ledger sorted appends it.
pub proof fn lemma_sorted_insert_is_push(l: Seq<RecordModel>, rec: RecordModel, i: int)
    requires
        ledger_sorted(l),
        rec.version > current_of(l),
        0 <= i <= l.len(),
        ledger_sorted(l.insert(i, rec)),
    ensures
        i == l.len(),
        l.insert(i, rec) == l.push(rec),
{
    lemma_current_is_max(l);
    if i < l.len() {
        let l2 = l.insert(i, rec);
        assert(l2[i] == rec);
        assert(l2[l2.len() - 1] == l[l.len() - 1]);
        assert(l2[i].version < l2[l2.len() - 1].version);
        assert(false);
    }
    assert(l.insert(l.len() as int, rec) =~= l.push(rec));
}

/// Round trip: recording one version that is pending (strictly above the
/// current version) and then removing the record of that same version
/// returns the ledger, and with it the current version, to its prior value.
pub proof fn lemma_apply_then_rollback_round_trip(
    l: Seq<RecordModel>,
    rec: RecordModel,
    i: int,
    j: int,
)
    requires
        ledger_sorted(l),
        rec.version > current_of(l),
        0 <= i <= l.len(),
        ledger_sorted(l.insert(i, rec)),
        0 <= j < l.insert(i, rec).len(),
        l.insert(i, rec)[j].version == rec.version,
    ensures
        l.insert(i, rec).remove(j) == l,
        current_of(l.insert(i, rec).remove(j)) == current_of(l),
{
    lemma_sorted_insert_is_push(l, rec, i);
    lemma_current_is_max(l);
    let l2 = l.insert(i, rec);
    assert(l2 =~= l.push(rec));
    if j < l.len() {
        assert(l2[j] == l[j]);
        assert(l[j].version <= current_of(l));
        assert(false);
    }
    assert(l2.remove(j) =~= l);
}

/// A backward pass visits exactly the records above the target, most recent
/// first: on a sorted ledger the visited versions are strictly descending,
/// all lie above the target, and every recorded version above the target is
/// visited.
pub proof fn lemma_roll_targets_exact(l: Seq<RecordModel>, target: u64)
    requires
        ledger_sorted(l),
    ensures
        ({
            let rt = roll_targets(l, target);
            &&& forall|i: int|
                0 <= i < rt.len() ==> l.contains(#[trigger] rt[i]) && rt[i].version > target
            &&& forall|i: int|
                0 <= i < l.len() && #[trigger] l[i].version > target ==> rt.contains(l[i])
            &&& forall|i: int, j: int|
                0 <= i < j < rt.len() ==> #[trigger] rt[i].version > #[trigger] rt[j].version
        }),
    decreases l.len(),
{
    let rt = roll_targets(l, target);
    if l.len() == 0 {
    } else if l.last().version > target {
        let head = l.drop_last();
        let rest = roll_targets(head, target);
        assert(ledger_sorted(head));
        lemma_roll_targets_exact(head, target);
        assert forall|i: int| 0 <= i < rt.len() implies l.contains(#[trigger] rt[i])
            && rt[i].version > target by {
            if i == 0 {
                assert(rt[0] == l.last());
                assert(l[l.len() - 1] == l.last());
            } else {
                assert(rt[i] == rest[i - 1]);
                let k = choose|k: int| 0 <= k < head.len() && head[k] == rest[i - 1];
                assert(l[k] == rt[i]);
            }
        }
        assert forall|i: int|
            0 <= i < l.len() && #[trigger] l[i].version > target implies rt.contains(l[i]) by {
            if i == l.len() - 1 {
                assert(rt[0] == l[i]);
            } else {
                assert(head[i] == l[i]);
                assert(rest.contains(l[i]));
                let k = choose|k: int| 0 <= k < rest.len() && rest[k] == l[i];
                assert(rt[k + 1] == l[i]);
            }
        }
        assert forall|i: int, j: int|
            0 <= i < j < rt.len() implies #[trigger] rt[i].version > #[trigger] rt[j].version by {
            if i == 0 {
                let k = choose|k: int| 0 <= k < head.len() && head[k] == rest[j - 1];
                assert(l[k].version < l[l.len() - 1].version);
            } else {
                assert(rest[i - 1].version > rest[j - 1].version);
            }
        }
    } else {
        lemma_current_is_max(l);
        assert forall|i: int|
            0 <= i < l.len() && #[trigger] l[i].version > target implies rt.contains(l[i]) by {
            assert(l[i].version <= current_of(l));
            assert(false);
        }
    }
}

/// When the records from `i` on lie above the target and the record just
/// before `i` (if any) does not, the backward pass visits exactly the
/// records from `i` on, in reverse ledger order.
pub proof fn lemma_roll_targets_cut(l: Seq<RecordModel>, target: u64, i: int)
    requires
        0 <= i <= l.len(),
        forall|x: int| i <= x < l.len() ==> (#[trigger] l[x]).version > target,
        i > 0 ==> l[i - 1].version <= target,
    ensures
        roll_targets(l, target).len() == l.len() - i,
        forall|j: int|
            0 <= j < l.len() - i ==> #[trigger] roll_targets(l, target)[j] == l[l.len() - 1 - j],
    decreases l.len(),
{
    if i == l.len() {
        if l.len() > 0 {
            assert(l.last().version <= target);
        }
    } else {
        assert(l.last().version > target);
        let head = l.drop_last();
        lemma_roll_targets_cut(head, target, i);
        let rt = roll_targets(l, target);
        let rest = roll_targets(head, target);
        assert forall|j: int| 0 <= j < l.len() - i implies #[trigger] rt[j] == l[l.len() - 1
            - j] by {
            if j == 0 {
                assert(rt[0] == l.last());
            } else {
                assert(rt[j] == rest[j - 1]);
                assert(rest[j - 1] == head[head.len() - 1 - (j - 1)]);
                assert(head[head.len() - j] == l[l.len() - 1 - j]);
            }
        }
    }
}

/// When a ledger's records up to `i` (exclusive) are at most the target and
/// all records from `i` on lie above it, the completed backward pass retains
/// exactly the first `i` records.
pub proof fn lemma_retained_is_take(l: Seq<RecordModel>, target: u64, i: int)
    requires
        0 <= i <= l.len(),
        forall|x: int| i <= x < l.len() ==> (#[trigger] l[x]).version > target,
        i > 0 ==> l[i - 1].version <= target,
    ensures
        retained_of(l, target) == l.take(i),
    decreases l.len(),
{
    if i == l.len() {
        if l.len() > 0 {
            assert(l.last().version <= target);
        }
        assert(l.take(i) =~= l);
    } else {
        assert(l.last().version > target);
        let head = l.drop_last();
        lemma_retained_is_take(head, target, i);
        assert(head.take(i) =~= l.take(i));
    }
}

} // verus!
