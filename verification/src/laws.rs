//! Engine-level guarantees, proved once and for all over the executor's
//! model: what a forward run does to the ledger, that a completed run leaves
//! nothing pending, and how a failure isolates the units around it.

use vstd::prelude::*;

use crate::executor::{up_model, EngineErrorModel};
use crate::ledger::{ledger_has, ledger_names, EntryModel};
use crate::name::lex_lt;
use crate::registry::{registry_names, registry_sorted};
use crate::store::{StoreModel, TableModel};
use crate::unit::{cond_holds, unit_up_model, MigrationUnit};

verus! {

/// A forward run only appends to the ledger, and stamps everything it
/// appends with the run's own timestamp — whether the run succeeds or stops
/// at a failed unit.
pub proof fn lemma_up_extends_ledger(s: StoreModel, units: Seq<MigrationUnit>, now: u64)
    ensures
        ({
            let s1 = up_model(s, units, now).0;
            &&& s1.ledger.len() >= s.ledger.len()
            &&& s1.ledger.take(s.ledger.len() as int) == s.ledger
            &&& forall|j: int|
                s.ledger.len() <= j < s1.ledger.len() ==> (#[trigger] s1.ledger[j].applied_at)
                    == now
        }),
    decreases units.len(),
{
    if units.len() > 0 {
        let u = units[0];
        if ledger_has(s.ledger, u.name@) {
            lemma_up_extends_ledger(s, units.skip(1), now);
        } else {
            let m = unit_up_model(s.tables, u);
            match m.1 {
                Ok(_) => {
                    let s2 = StoreModel {
                        tables: m.0,
                        ledger: s.ledger.push(EntryModel { name: u.name@, applied_at: now }),
                    };
                    lemma_up_extends_ledger(s2, units.skip(1), now);
                    let s3 = up_model(s2, units.skip(1), now).0;
                    assert forall|k: int|
                        0 <= k < s.ledger.len() implies s3.ledger.take(
                        s.ledger.len() as int,
                    )[k] == s.ledger[k] by {
                        assert(s3.ledger[k] == s3.ledger.take(s2.ledger.len() as int)[k]);
                        assert(s2.ledger[k] == s.ledger[k]);
                    }
                    assert(s3.ledger.take(s.ledger.len() as int) =~= s.ledger);
                    assert forall|j: int|
                        s.ledger.len() <= j < s3.ledger.len() implies (
                    #[trigger] s3.ledger[j].applied_at) == now by {
                        if j < s2.ledger.len() {
                            assert(s3.ledger[j] == s3.ledger.take(s2.ledger.len() as int)[j]);
                            assert(s2.ledger[j] == s2.ledger.last());
                        }
                    }
                },
                Err(_) => {
                    assert(up_model(s, units, now).0.ledger.take(s.ledger.len() as int)
                        =~= s.ledger);
                },
            }
        }
    } else {
        assert(up_model(s, units, now).0.ledger.take(s.ledger.len() as int) =~= s.ledger);
    }
}

/// A name recorded in a ledger stays recorded in any extension of it.
pub proof fn lemma_ledger_has_extends(l1: Seq<EntryModel>, l2: Seq<EntryModel>, n: Seq<char>)
    requires
        l2.len() >= l1.len(),
        l2.take(l1.len() as int) == l1,
        ledger_has(l1, n),
    ensures
        ledger_has(l2, n),
{
    let k = choose|k: int| 0 <= k < ledger_names(l1).len() && ledger_names(l1)[k] == n;
    assert(ledger_names(l1)[k] == l1[k].name);
    assert(l2[k] == l2.take(l1.len() as int)[k]);
    assert(ledger_names(l2)[k] == l2[k].name);
}

/// After a forward run that succeeded, every unit of the registry is
/// recorded in the ledger.
pub proof fn lemma_up_records_all(s: StoreModel, units: Seq<MigrationUnit>, now: u64)
    requires
        up_model(s, units, now).1 is Ok,
    ensures
        forall|k: int|
            0 <= k < units.len() ==> ledger_has(
                up_model(s, units, now).0.ledger,
                #[trigger] units[k].name@,
            ),
    decreases units.len(),
{
    if units.len() > 0 {
        let u = units[0];
        let s1 = up_model(s, units, now).0;
        if ledger_has(s.ledger, u.name@) {
            lemma_up_records_all(s, units.skip(1), now);
            lemma_up_extends_ledger(s, units.skip(1), now);
            lemma_ledger_has_extends(s.ledger, s1.ledger, u.name@);
            assert forall|k: int| 0 <= k < units.len() implies ledger_has(
                s1.ledger,
                #[trigger] units[k].name@,
            ) by {
                if k > 0 {
                    assert(units.skip(1)[k - 1] == units[k]);
                }
            }
        } else {
            let m = unit_up_model(s.tables, u);
            match m.1 {
                Ok(_) => {
                    let s2 = StoreModel {
                        tables: m.0,
                        ledger: s.ledger.push(EntryModel { name: u.name@, applied_at: now }),
                    };
                    lemma_up_records_all(s2, units.skip(1), now);
                    lemma_up_extends_ledger(s2, units.skip(1), now);
                    assert(ledger_names(s2.ledger)[s.ledger.len() as int] == u.name@);
                    assert(ledger_has(s2.ledger, u.name@));
                    lemma_ledger_has_extends(s2.ledger, s1.ledger, u.name@);
                    assert forall|k: int| 0 <= k < units.len() implies ledger_has(
                        s1.ledger,
                        #[trigger] units[k].name@,
                    ) by {
                        if k > 0 {
                            assert(units.skip(1)[k - 1] == units[k]);
                        }
                    }
                },
                Err(_) => {},
            }
        }
    }
}

/// A run that finds every unit already recorded applies nothing, changes
/// nothing, and succeeds.
pub proof fn lemma_up_nothing_pending(s: StoreModel, units: Seq<MigrationUnit>, now: u64)
    requires
        forall|k: int| 0 <= k < units.len() ==> ledger_has(s.ledger, #[trigger] units[k].name@),
    ensures
        up_model(s, units, now) == (s, Ok::<nat, EngineErrorModel>(0nat)),
    decreases units.len(),
{
    if units.len() > 0 {
        assert(ledger_has(s.ledger, units[0].name@));
        assert forall|k: int| 0 <= k < units.skip(1).len() implies ledger_has(
            s.ledger,
            #[trigger] units.skip(1)[k].name@,
        ) by {
            assert(units.skip(1)[k] == units[k + 1]);
        }
        lemma_up_nothing_pending(s, units.skip(1), now);
    }
}

/// Idempotence: a second forward run straight after a successful one, with
/// no intervening change of the store, applies zero additional units, leaves
/// the store exactly as it was, and succeeds — whatever timestamps the two
/// runs carry.
pub proof fn lemma_migrate_up_idempotent(
    s: StoreModel,
    units: Seq<MigrationUnit>,
    now1: u64,
    now2: u64,
)
    requires
        up_model(s, units, now1).1 is Ok,
    ensures
        up_model(up_model(s, units, now1).0, units, now2) == (
            up_model(s, units, now1).0,
            Ok::<nat, EngineErrorModel>(0nat),
        ),
{
    lemma_up_records_all(s, units, now1);
    lemma_up_nothing_pending(up_model(s, units, now1).0, units, now2);
}

/// Order invariant: the ledger entries of units applied in the same run all
/// carry that run's timestamp, so for any two of them — in particular a unit
/// whose name sorts before another's — the earlier entry's timestamp is at
/// most the later one's.  Entries of earlier runs are never reordered or
/// rewritten.
pub proof fn lemma_up_order_invariant(s: StoreModel, units: Seq<MigrationUnit>, now: u64)
    ensures
        ({
            let s1 = up_model(s, units, now).0;
            &&& s1.ledger.len() >= s.ledger.len()
            &&& s1.ledger.take(s.ledger.len() as int) == s.ledger
            &&& forall|a: int, b: int|
                s.ledger.len() <= a <= b < s1.ledger.len() ==> (#[trigger] s1.ledger[a].applied_at)
                    <= (#[trigger] s1.ledger[b].applied_at)
        }),
{
    lemma_up_extends_ledger(s, units, now);
}

/// Precondition correctness: a unit whose destructive step was already
/// applied out of band — its precondition no longer holds — is a success
/// with zero statements executed and leaves the schema untouched.
pub proof fn lemma_precondition_already_met(ts: Seq<TableModel>, u: MigrationUnit)
    requires
        !cond_holds(u.precondition, ts),
    ensures
        unit_up_model(ts, u) == (ts, Ok::<nat, crate::store::StoreError>(0nat)),
{
}

/// Partial-failure isolation: when a run stops at a failed unit, that unit
/// is named to the caller and is not recorded; everything the run recorded
/// before it keeps its ledger entry; and every entry the run added belongs
/// to a unit sorting strictly before the failed one, so no later unit was
/// attempted.
pub proof fn lemma_partial_failure_isolation(s: StoreModel, units: Seq<MigrationUnit>, now: u64)
    requires
        registry_sorted(units),
    ensures
        ({
            let s1 = up_model(s, units, now).0;
            match up_model(s, units, now).1 {
                Err(EngineErrorModel::UnitFailed { name: nm, error: _ }) => {
                    &&& registry_names(units).contains(nm)
                    &&& !ledger_has(s.ledger, nm)
                    &&& !ledger_has(s1.ledger, nm)
                    &&& s1.ledger.len() >= s.ledger.len()
                    &&& s1.ledger.take(s.ledger.len() as int) == s.ledger
                    &&& forall|j: int|
                        s.ledger.len() <= j < s1.ledger.len() ==> lex_lt(
                            #[trigger] s1.ledger[j].name,
                            nm,
                        )
                },
                _ => true,
            }
        }),
    decreases units.len(),
{
    lemma_up_extends_ledger(s, units, now);
    if units.len() > 0 {
        let u = units[0];
        let s1 = up_model(s, units, now).0;
        assert forall|i: int, j: int|
            0 <= i < j < units.skip(1).len() implies lex_lt(
            #[trigger] units.skip(1)[i].name@,
            #[trigger] units.skip(1)[j].name@,
        ) by {
            assert(units.skip(1)[i] == units[i + 1]);
            assert(units.skip(1)[j] == units[j + 1]);
        }
        if ledger_has(s.ledger, u.name@) {
            lemma_partial_failure_isolation(s, units.skip(1), now);
            match up_model(s, units, now).1 {
                Err(EngineErrorModel::UnitFailed { name: nm, error: _ }) => {
                    let k = choose|k: int|
                        0 <= k < registry_names(units.skip(1)).len() && registry_names(
                            units.skip(1),
                        )[k] == nm;
                    assert(registry_names(units.skip(1))[k] == units.skip(1)[k].name@);
                    assert(units.skip(1)[k] == units[k + 1]);
                    assert(registry_names(units)[k + 1] == units[k + 1].name@);
                },
                _ => {},
            }
        } else {
            let m = unit_up_model(s.tables, u);
            match m.1 {
                Ok(_) => {
                    let s2 = StoreModel {
                        tables: m.0,
                        ledger: s.ledger.push(EntryModel { name: u.name@, applied_at: now }),
                    };
                    lemma_partial_failure_isolation(s2, units.skip(1), now);
                    lemma_up_extends_ledger(s2, units.skip(1), now);
                    match up_model(s, units, now).1 {
                        Err(EngineErrorModel::UnitFailed { name: nm, error: _ }) => {
                            let k = choose|k: int|
                                0 <= k < registry_names(units.skip(1)).len() && registry_names(
                                    units.skip(1),
                                )[k] == nm;
                            assert(registry_names(units.skip(1))[k] == units.skip(1)[k].name@);
                            assert(units.skip(1)[k] == units[k + 1]);
                            assert(registry_names(units)[k + 1] == units[k + 1].name@);
                            assert(lex_lt(u.name@, nm));
                            // the failed name was not in the ledger before this run
                            assert(!ledger_has(s2.ledger, nm));
                            assert forall|j: int|
                                0 <= j < ledger_names(s.ledger).len() implies ledger_names(
                                s.ledger,
                            )[j] != nm by {
                                assert(s2.ledger[j] == s.ledger[j]);
                                assert(ledger_names(s2.ledger)[j] == s2.ledger[j].name);
                                assert(ledger_names(s.ledger)[j] == s.ledger[j].name);
                            }
                            // the whole prefix of the final ledger is the old one
                            assert(s1.ledger.take(s.ledger.len() as int) =~= s.ledger);
                            // every appended entry sorts before the failed name
                            assert forall|j: int|
                                s.ledger.len() <= j < s1.ledger.len() implies lex_lt(
                                #[trigger] s1.ledger[j].name,
                                nm,
                            ) by {
                                if j == s.ledger.len() as int {
                                    assert(s1.ledger[j] == s2.ledger[j]);
                                } else {
                                    assert(s2.ledger.len() <= j);
                                }
                            }
                        },
                        _ => {},
                    }
                },
                Err(e) => {
                    assert(registry_names(units)[0] == u.name@);
                },
            }
        }
    }
}

} // verus!
