//! A versioned schema-migration engine.
//!
//! The engine applies an ordered sequence of named migration units to a
//! store exactly once each, records what ran in a durable ledger, and can
//! revert the most recently applied units.  Each unit guards its work with a
//! precondition against the live schema shape, so a unit interrupted after
//! its schema change but before its ledger entry can be re-run safely.
//!
//! The store itself is modelled as a value: a set of tables, each with named
//! columns and rows of cells.  Everything the engine decides — which units
//! are pending, whether a unit's precondition holds, what each statement does
//! to the schema and the data — is verified against that model.  A driver
//! that talks to a real database renders the same statements as SQL.

pub mod cell;
pub mod executor;
pub mod laws;
pub mod ledger;
pub mod name;
pub mod registry;
pub mod seen;
pub mod store;
pub mod unit;
