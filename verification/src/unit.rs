//! Migration units: one named schema/data transformation with a forward and
//! a reverse direction, guarded by a precondition against the live schema.
//!
//! A unit whose effect is already present — because an earlier run applied
//! the schema change but stopped before the ledger write — detects this via
//! its precondition and returns success without touching the store, so no
//! duplicate-column or duplicate-index error can arise from re-running it.

use vstd::prelude::*;

use crate::store::{
    has_column_model, has_table_model, lemma_stmt_preserves_wf, stmt_apply, tables_wf, Statement,
    Store, StoreError, TableModel,
};

verus! {

/// A precondition on the live schema shape, checked before a unit mutates
/// anything.
#[derive(Clone, Debug, PartialEq, Eq)]
pub enum Condition {
    /// The unit always runs.
    Always,
    /// The unit runs only while the table exists.
    HasTable(String),
    /// The unit runs only while the table still has the column.
    HasColumn(String, String),
}

/// What a condition says of a schema shape.
pub open spec fn cond_holds(c: Condition, ts: Seq<TableModel>) -> bool {
    match c {
        Condition::Always => true,
        Condition::HasTable(n) => has_table_model(ts, n@),
        Condition::HasColumn(t, col) => has_column_model(ts, t@, col@),
    }
}

impl Condition {
    /// Evaluates this condition against the live store, at call time.
    pub fn eval(&self, store: &Store) -> (r: bool)
        ensures
            r == cond_holds(*self, store@.tables),
    {
        match self {
            Condition::Always => true,
            Condition::HasTable(n) => store.has_table(n),
            Condition::HasColumn(t, col) => store.has_column(t, col),
        }
    }
}

/// Whether a unit's reverse direction restores the prior shape, loses data,
/// or is a documented no-op because the forward step was destructive.
#[derive(Clone, Copy, Debug, PartialEq, Eq, Structural)]
pub enum Reversibility {
    Lossless,
    Lossy,
    DocumentedNoOp,
}

/// One named, ordered migration unit.  Defined at build time and never
/// mutated; selected for execution by the executor from the ledger state.
#[derive(Clone, Debug, PartialEq, Eq)]
pub struct MigrationUnit {
    /// Unique, lexically ordered identifier; the application-order key.
    pub name: String,
    /// Guard checked before `up` mutates anything.
    pub precondition: Condition,
    /// The forward transformation, in order.
    pub up_steps: Vec<Statement>,
    /// The reverse transformation; empty when the unit is irreversible.
    pub down_steps: Vec<Statement>,
    /// How faithful the reverse direction is.
    pub reversibility: Reversibility,
}

/// Statements applied in order until the first failure: the resulting shape
/// and the verdict.  A failing statement leaves its own shape untouched, so
/// the first component is the shape after the statements that did run.
pub open spec fn steps_model(ts: Seq<TableModel>, steps: Seq<Statement>) -> (
    Seq<TableModel>,
    Result<(), StoreError>,
)
    decreases steps.len(),
{
    if steps.len() == 0 {
        (ts, Ok(()))
    } else {
        match stmt_apply(ts, steps[0]) {
            Ok(ts2) => steps_model(ts2, steps.skip(1)),
            Err(e) => (ts, Err(e)),
        }
    }
}

/// Running statements preserves well-formedness, wherever they stop.
pub proof fn lemma_steps_preserve_wf(ts: Seq<TableModel>, steps: Seq<Statement>)
    requires
        tables_wf(ts),
    ensures
        tables_wf(steps_model(ts, steps).0),
    decreases steps.len(),
{
    if steps.len() > 0 {
        match stmt_apply(ts, steps[0]) {
            Ok(ts2) => {
                lemma_stmt_preserves_wf(ts, steps[0]);
                lemma_steps_preserve_wf(ts2, steps.skip(1));
            },
            Err(_) => {},
        }
    }
}

/// What a unit's forward direction does to a schema shape: skipped (zero
/// statements) when the precondition does not hold, otherwise its statements
/// in order.  `Ok` carries the number of statements executed.
pub open spec fn unit_up_model(ts: Seq<TableModel>, u: MigrationUnit) -> (
    Seq<TableModel>,
    Result<nat, StoreError>,
) {
    if !cond_holds(u.precondition, ts) {
        (ts, Ok(0nat))
    } else {
        let m = steps_model(ts, u.up_steps@);
        match m.1 {
            Ok(_) => (m.0, Ok(u.up_steps@.len())),
            Err(e) => (m.0, Err(e)),
        }
    }
}

/// What a unit's reverse direction does: its down statements in order,
/// unconditionally.  An empty reverse direction is a no-op success.
pub open spec fn unit_down_model(ts: Seq<TableModel>, u: MigrationUnit) -> (
    Seq<TableModel>,
    Result<nat, StoreError>,
) {
    let m = steps_model(ts, u.down_steps@);
    match m.1 {
        Ok(_) => (m.0, Ok(u.down_steps@.len())),
        Err(e) => (m.0, Err(e)),
    }
}

/// Applies `steps` in order against the live store, stopping at the first
/// failure and reporting it; on success reports how many statements ran.
pub fn run_steps(store: &mut Store, steps: &Vec<Statement>) -> (r: Result<usize, StoreError>)
    requires
        tables_wf(old(store)@.tables),
    ensures
        final(store)@.ledger == old(store)@.ledger,
        tables_wf(final(store)@.tables),
        final(store)@.tables == steps_model(old(store)@.tables, steps@).0,
        ({
            let m = steps_model(old(store)@.tables, steps@).1;
            match (r, m) {
                (Ok(k), Ok(_)) => k == steps@.len(),
                (Err(e1), Err(e2)) => e1 == e2,
                _ => false,
            }
        }),
{
    let ghost ts0 = store@.tables;
    let mut i: usize = 0;
    proof {
        assert(steps@.skip(0) =~= steps@);
    }
    while i < steps.len()
        invariant
            i <= steps@.len(),
            tables_wf(store@.tables),
            store@.ledger == old(store)@.ledger,
            ts0 == old(store)@.tables,
            steps_model(ts0, steps@) == steps_model(store@.tables, steps@.skip(i as int)),
        decreases steps@.len() - i,
    {
        proof {
            assert(steps@.skip(i as int)[0] == steps@[i as int]);
            assert(steps@.skip(i as int).skip(1) =~= steps@.skip(i as int + 1));
        }
        match store.apply(&steps[i]) {
            Ok(_) => {},
            Err(e) => {
                return Err(e);
            },
        }
        i = i + 1;
    }
    proof {
        assert(steps@.skip(steps@.len() as int) =~= Seq::<Statement>::empty());
    }
    Ok(steps.len())
}

impl MigrationUnit {
    /// The forward direction.  Safe against a half-applied store: when the
    /// precondition no longer holds — the transformation's effect is already
    /// present — the unit is a success with zero statements executed and the
    /// store is untouched.  Otherwise the statements run in order; the first
    /// failure is reported and statements after it never run.
    pub fn run_up(&self, store: &mut Store) -> (r: Result<usize, StoreError>)
        requires
            tables_wf(old(store)@.tables),
        ensures
            final(store)@.ledger == old(store)@.ledger,
            tables_wf(final(store)@.tables),
            final(store)@.tables == unit_up_model(old(store)@.tables, *self).0,
            ({
                let m = unit_up_model(old(store)@.tables, *self).1;
                match (r, m) {
                    (Ok(k), Ok(n)) => k as nat == n,
                    (Err(e1), Err(e2)) => e1 == e2,
                    _ => false,
                }
            }),
            !cond_holds(self.precondition, old(store)@.tables) ==> r == Ok::<usize, StoreError>(0)
                && final(store)@ == old(store)@,
    {
        if !self.precondition.eval(store) {
            return Ok(0);
        }
        run_steps(store, &self.up_steps)
    }

    /// The reverse direction: the unit's down statements, unconditionally.
    /// A unit declared irreversible has none and reverting it is a no-op
    /// success; reverting never restores deleted data.
    pub fn run_down(&self, store: &mut Store) -> (r: Result<usize, StoreError>)
        requires
            tables_wf(old(store)@.tables),
        ensures
            final(store)@.ledger == old(store)@.ledger,
            tables_wf(final(store)@.tables),
            final(store)@.tables == unit_down_model(old(store)@.tables, *self).0,
            ({
                let m = unit_down_model(old(store)@.tables, *self).1;
                match (r, m) {
                    (Ok(k), Ok(n)) => k as nat == n,
                    (Err(e1), Err(e2)) => e1 == e2,
                    _ => false,
                }
            }),
    {
        run_steps(store, &self.down_steps)
    }
}

} // verus!
