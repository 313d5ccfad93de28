//! The migration executor: applies pending units in order inside a failure
//! boundary, records each applied unit in the ledger, and reverts the most
//! recently applied units on demand.
//!
//! A unit is pending when the ledger has no entry for its name.  Pending
//! units apply in registry order; each success is recorded at once, so a
//! failure leaves every earlier unit committed and never attempts a later
//! one.  Reverting walks the ledger from the newest entry backwards, runs
//! each unit's reverse direction, and removes the entry on success — also
//! when the reverse direction is a documented no-op.

use vstd::prelude::*;

use crate::ledger::{ledger_has, ledger_names, ledger_wf, EntryModel};
use crate::name::{lex_lt, str_lex_lt};
use crate::registry::{registry_names, Registry};
use crate::store::{idx_of, lemma_idx_of, tables_wf, Store, StoreError, StoreModel};
use crate::unit::{steps_model, unit_up_model, MigrationUnit};

verus! {

/// Why a migration run stopped.
#[derive(Clone, Debug, PartialEq, Eq)]
pub enum EngineError {
    /// The named unit's statements failed; earlier units stay committed and
    /// later units were never attempted.
    UnitFailed { name: String, error: StoreError },
    /// The ledger refused a duplicate entry: a racing executor or a
    /// registry/ledger inconsistency.
    ConstraintConflict,
    /// A ledger entry names a unit the registry does not know.
    UnknownUnit { name: String },
}

/// Mathematical model of an engine error.
pub enum EngineErrorModel {
    UnitFailed { name: Seq<char>, error: StoreError },
    ConstraintConflict,
    UnknownUnit { name: Seq<char> },
}

impl View for EngineError {
    type V = EngineErrorModel;

    open spec fn view(&self) -> EngineErrorModel {
        match self {
            EngineError::UnitFailed { name, error } => EngineErrorModel::UnitFailed {
                name: name@,
                error: *error,
            },
            EngineError::ConstraintConflict => EngineErrorModel::ConstraintConflict,
            EngineError::UnknownUnit { name } => EngineErrorModel::UnknownUnit { name: name@ },
        }
    }
}

/// What one forward migration run does: each unit not yet in the ledger, in
/// order, runs `up` and is recorded with timestamp `now`; the first failure
/// stops the run, leaving earlier entries committed.  `Ok` counts the units
/// applied by this run.
pub open spec fn up_model(s: StoreModel, units: Seq<MigrationUnit>, now: u64) -> (
    StoreModel,
    Result<nat, EngineErrorModel>,
)
    decreases units.len(),
{
    if units.len() == 0 {
        (s, Ok(0nat))
    } else {
        let u = units[0];
        if ledger_has(s.ledger, u.name@) {
            up_model(s, units.skip(1), now)
        } else {
            let m = unit_up_model(s.tables, u);
            match m.1 {
                Ok(_) => {
                    let s2 = StoreModel {
                        tables: m.0,
                        ledger: s.ledger.push(EntryModel { name: u.name@, applied_at: now }),
                    };
                    let rest = up_model(s2, units.skip(1), now);
                    match rest.1 {
                        Ok(n) => (rest.0, Ok((n + 1) as nat)),
                        Err(e) => (rest.0, Err(e)),
                    }
                },
                Err(e) => (
                    StoreModel { tables: m.0, ledger: s.ledger },
                    Err(EngineErrorModel::UnitFailed { name: u.name@, error: e }),
                ),
            }
        }
    }
}

/// What one reverse migration run does: up to `steps` of the most recently
/// applied units, newest first; each unit's reverse direction runs and its
/// ledger entry is removed on success.  `Ok` counts the units reverted.
pub open spec fn down_model(s: StoreModel, units: Seq<MigrationUnit>, steps: nat) -> (
    StoreModel,
    Result<nat, EngineErrorModel>,
)
    decreases steps,
{
    if steps == 0 || s.ledger.len() == 0 {
        (s, Ok(0nat))
    } else {
        let e = s.ledger.last();
        let ui = idx_of(registry_names(units), e.name);
        if ui < 0 {
            (s, Err(EngineErrorModel::UnknownUnit { name: e.name }))
        } else {
            let u = units[ui];
            let m = steps_model(s.tables, u.down_steps@);
            match m.1 {
                Ok(_) => {
                    let s2 = StoreModel { tables: m.0, ledger: s.ledger.drop_last() };
                    let rest = down_model(s2, units, (steps - 1) as nat);
                    match rest.1 {
                        Ok(n) => (rest.0, Ok((n + 1) as nat)),
                        Err(e2) => (rest.0, Err(e2)),
                    }
                },
                Err(err) => (
                    StoreModel { tables: m.0, ledger: s.ledger },
                    Err(EngineErrorModel::UnitFailed { name: e.name, error: err }),
                ),
            }
        }
    }
}

/// Applies every pending unit of `registry` to `store`, in registry order,
/// recording each success in the ledger with timestamp `now`.  Returns how
/// many units this run applied; on failure, exactly which unit failed and
/// why, with every earlier unit committed and no later unit attempted.
pub fn migrate_up(store: &mut Store, registry: &Registry, now: u64) -> (r: Result<
    usize,
    EngineError,
>)
    requires
        tables_wf(old(store)@.tables),
    ensures
        tables_wf(final(store)@.tables),
        final(store)@ == up_model(old(store)@, registry.units@, now).0,
        ({
            let m = up_model(old(store)@, registry.units@, now).1;
            match (r, m) {
                (Ok(k), Ok(n)) => k as nat == n,
                (Err(e1), Err(e2)) => e1@ == e2,
                _ => false,
            }
        }),
        ledger_wf(old(store)@.ledger) ==> ledger_wf(final(store)@.ledger),
{
    let ghost s0 = store@;
    let ghost units = registry.units@;
    let mut applied: usize = 0;
    let mut i: usize = 0;
    proof {
        assert(units.skip(0) =~= units);
    }
    while i < registry.units.len()
        invariant
            i <= units.len(),
            applied <= i,
            units == registry.units@,
            s0 == old(store)@,
            tables_wf(store@.tables),
            ledger_wf(s0.ledger) ==> ledger_wf(store@.ledger),
            ({
                let full = up_model(s0, units, now);
                let rest = up_model(store@, units.skip(i as int), now);
                full.0 == rest.0 && (match (full.1, rest.1) {
                    (Ok(n), Ok(m)) => n == m + applied,
                    (Err(e1), Err(e2)) => e1 == e2,
                    _ => false,
                })
            }),
        decreases units.len() - i,
    {
        proof {
            assert(units.skip(i as int)[0] == units[i as int]);
            assert(units.skip(i as int).skip(1) =~= units.skip(i as int + 1));
        }
        let u = &registry.units[i];
        if !store.ledger.contains(&u.name) {
            match u.run_up(store) {
                Ok(_) => {},
                Err(e) => {
                    return Err(EngineError::UnitFailed { name: u.name.clone(), error: e });
                },
            }
            match store.ledger.record(u.name.clone(), now) {
                Ok(_) => {},
                Err(_) => {
                    proof {
                        assert(false);
                    }
                    return Err(EngineError::ConstraintConflict);
                },
            }
            applied = applied + 1;
        }
        i = i + 1;
    }
    proof {
        assert(units.skip(units.len() as int) =~= Seq::<MigrationUnit>::empty());
    }
    Ok(applied)
}

/// Reverts up to `steps` of the most recently applied units, newest first:
/// runs each unit's reverse direction and removes its ledger entry on
/// success.  Returns how many units were reverted — fewer than `steps` only
/// when the ledger ran out.  A ledger entry naming a unit the registry does
/// not know stops the run.
pub fn migrate_down(store: &mut Store, registry: &Registry, steps: usize) -> (r: Result<
    usize,
    EngineError,
>)
    requires
        tables_wf(old(store)@.tables),
    ensures
        tables_wf(final(store)@.tables),
        final(store)@ == down_model(old(store)@, registry.units@, steps as nat).0,
        ({
            let m = down_model(old(store)@, registry.units@, steps as nat).1;
            match (r, m) {
                (Ok(k), Ok(n)) => k as nat == n,
                (Err(e1), Err(e2)) => e1@ == e2,
                _ => false,
            }
        }),
        ledger_wf(old(store)@.ledger) ==> ledger_wf(final(store)@.ledger),
{
    let ghost s0 = store@;
    let ghost units = registry.units@;
    let mut reverted: usize = 0;
    while reverted < steps
        invariant
            reverted <= steps,
            units == registry.units@,
            s0 == old(store)@,
            tables_wf(store@.tables),
            ledger_wf(s0.ledger) ==> ledger_wf(store@.ledger),
            ({
                let full = down_model(s0, units, steps as nat);
                let rest = down_model(store@, units, (steps - reverted) as nat);
                full.0 == rest.0 && (match (full.1, rest.1) {
                    (Ok(n), Ok(m)) => n == m + reverted,
                    (Err(e1), Err(e2)) => e1 == e2,
                    _ => false,
                })
            }),
        decreases steps - reverted,
    {
        if store.ledger.len() == 0 {
            return Ok(reverted);
        }
        let entry = match store.ledger.last() {
            Some(e) => e,
            None => {
                proof {
                    assert(false);
                }
                return Ok(reverted);
            },
        };
        let ui = match registry.find(&entry.name) {
            None => {
                return Err(EngineError::UnknownUnit { name: entry.name });
            },
            Some(i) => i,
        };
        let u = &registry.units[ui];
        match u.run_down(store) {
            Ok(_) => {},
            Err(e) => {
                return Err(EngineError::UnitFailed { name: entry.name, error: e });
            },
        }
        let ghost before_pop = store@.ledger;
        store.ledger.remove_last();
        proof {
            if ledger_wf(before_pop) {
                assert forall|a: int, b: int|
                    0 <= a < b < store@.ledger.len() implies #[trigger] store@.ledger[a].name
                    != #[trigger] store@.ledger[b].name by {
                    assert(store@.ledger[a] == before_pop[a]);
                    assert(store@.ledger[b] == before_pop[b]);
                }
            }
        }
        reverted = reverted + 1;
    }
    Ok(reverted)
}


/// `n` sorts at or before the target name.
pub open spec fn at_or_before(n: Seq<char>, target: Seq<char>) -> bool {
    lex_lt(n, target) || n == target
}

/// What a forward run bounded by `target` does: as [`up_model`], but a unit
/// whose name sorts after `target` is left pending.
pub open spec fn up_to_model(
    s: StoreModel,
    units: Seq<MigrationUnit>,
    target: Seq<char>,
    now: u64,
) -> (StoreModel, Result<nat, EngineErrorModel>)
    decreases units.len(),
{
    if units.len() == 0 {
        (s, Ok(0nat))
    } else {
        let u = units[0];
        if !at_or_before(u.name@, target) || ledger_has(s.ledger, u.name@) {
            up_to_model(s, units.skip(1), target, now)
        } else {
            let m = unit_up_model(s.tables, u);
            match m.1 {
                Ok(_) => {
                    let s2 = StoreModel {
                        tables: m.0,
                        ledger: s.ledger.push(EntryModel { name: u.name@, applied_at: now }),
                    };
                    let rest = up_to_model(s2, units.skip(1), target, now);
                    match rest.1 {
                        Ok(n) => (rest.0, Ok((n + 1) as nat)),
                        Err(e) => (rest.0, Err(e)),
                    }
                },
                Err(e) => (
                    StoreModel { tables: m.0, ledger: s.ledger },
                    Err(EngineErrorModel::UnitFailed { name: u.name@, error: e }),
                ),
            }
        }
    }
}

/// As [`migrate_up`], but stops at `target`: a pending unit whose name sorts
/// after `target` is left pending for a later run.
pub fn migrate_up_to(
    store: &mut Store,
    registry: &Registry,
    target: &String,
    now: u64,
) -> (r: Result<usize, EngineError>)
    requires
        tables_wf(old(store)@.tables),
    ensures
        tables_wf(final(store)@.tables),
        final(store)@ == up_to_model(old(store)@, registry.units@, target@, now).0,
        ({
            let m = up_to_model(old(store)@, registry.units@, target@, now).1;
            match (r, m) {
                (Ok(k), Ok(n)) => k as nat == n,
                (Err(e1), Err(e2)) => e1@ == e2,
                _ => false,
            }
        }),
        ledger_wf(old(store)@.ledger) ==> ledger_wf(final(store)@.ledger),
{
    let ghost s0 = store@;
    let ghost units = registry.units@;
    let mut applied: usize = 0;
    let mut i: usize = 0;
    proof {
        assert(units.skip(0) =~= units);
    }
    while i < registry.units.len()
        invariant
            i <= units.len(),
            applied <= i,
            units == registry.units@,
            s0 == old(store)@,
            tables_wf(store@.tables),
            ledger_wf(s0.ledger) ==> ledger_wf(store@.ledger),
            ({
                let full = up_to_model(s0, units, target@, now);
                let rest = up_to_model(store@, units.skip(i as int), target@, now);
                full.0 == rest.0 && (match (full.1, rest.1) {
                    (Ok(n), Ok(m)) => n == m + applied,
                    (Err(e1), Err(e2)) => e1 == e2,
                    _ => false,
                })
            }),
        decreases units.len() - i,
    {
        proof {
            assert(units.skip(i as int)[0] == units[i as int]);
            assert(units.skip(i as int).skip(1) =~= units.skip(i as int + 1));
        }
        let u = &registry.units[i];
        let within = str_lex_lt(u.name.as_str(), target.as_str()) || u.name.eq(target);
        if within && !store.ledger.contains(&u.name) {
            match u.run_up(store) {
                Ok(_) => {},
                Err(e) => {
                    return Err(EngineError::UnitFailed { name: u.name.clone(), error: e });
                },
            }
            match store.ledger.record(u.name.clone(), now) {
                Ok(_) => {},
                Err(_) => {
                    proof {
                        assert(false);
                    }
                    return Err(EngineError::ConstraintConflict);
                },
            }
            applied = applied + 1;
        }
        i = i + 1;
    }
    proof {
        assert(units.skip(units.len() as int) =~= Seq::<MigrationUnit>::empty());
    }
    Ok(applied)
}

} // verus!
