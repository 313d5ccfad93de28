//! The migration registry: the fixed, ordered catalogue of all migration
//! units known to the build.
//!
//! Units are kept in strictly increasing name order — the order in which
//! they apply — so names are unique.  Registering a unit whose name does not
//! sort after every earlier one is rejected at build time, not at run time.

use vstd::prelude::*;

use crate::name::{lemma_lex_lt_irreflexive, lemma_lex_lt_transitive, lex_lt, str_lex_lt};
use crate::store::{idx_of, lemma_idx_of, lemma_idx_of_first};
use crate::unit::MigrationUnit;

verus! {

/// The unit names of a registry, in application order.
pub open spec fn registry_names(units: Seq<MigrationUnit>) -> Seq<Seq<char>> {
    units.map_values(|u: MigrationUnit| u.name@)
}

/// Unit names strictly increase in lexicographic order.
pub open spec fn registry_sorted(units: Seq<MigrationUnit>) -> bool {
    forall|i: int, j: int|
        0 <= i < j < units.len() ==> lex_lt(#[trigger] units[i].name@, #[trigger] units[j].name@)
}

/// In a sorted registry, names are unique.
pub proof fn lemma_sorted_names_unique(units: Seq<MigrationUnit>)
    requires
        registry_sorted(units),
    ensures
        forall|i: int, j: int|
            0 <= i < j < units.len() ==> #[trigger] units[i].name@ != #[trigger] units[j].name@,
{
    assert forall|i: int, j: int|
        0 <= i < j < units.len() implies #[trigger] units[i].name@ != #[trigger] units[j].name@ by {
        lemma_lex_lt_irreflexive(units[i].name@);
    }
}

/// Why a unit was refused at registration.
#[derive(Clone, Copy, Debug, PartialEq, Eq, Structural)]
pub enum RegistryError {
    /// The unit's name does not sort strictly after every registered name;
    /// in particular, a repeated name is refused.
    NameNotIncreasing,
}

/// The ordered catalogue of migration units.
pub struct Registry {
    pub units: Vec<MigrationUnit>,
}

impl Registry {
    /// The registry's invariant: units stand in strict name order.
    pub open spec fn wf(&self) -> bool {
        registry_sorted(self.units@)
    }

    /// An empty registry.
    pub fn new() -> (r: Registry)
        ensures
            r.units@.len() == 0,
            r.wf(),
    {
        Registry { units: Vec::new() }
    }

    /// How many units are registered.
    pub fn len(&self) -> (r: usize)
        ensures
            r == self.units@.len(),
    {
        self.units.len()
    }

    /// Appends a unit.  Accepted exactly when its name sorts strictly after
    /// the last registered name (always, for the first unit); otherwise the
    /// registry is unchanged and the unit is refused.
    pub fn register(&mut self, u: MigrationUnit) -> (r: Result<(), RegistryError>)
        requires
            old(self).wf(),
        ensures
            final(self).wf(),
            old(self).units@.len() == 0 || lex_lt(old(self).units@.last().name@, u.name@) ==> r
                == Ok::<(), RegistryError>(()) && final(self).units@ == old(self).units@.push(u),
            !(old(self).units@.len() == 0 || lex_lt(old(self).units@.last().name@, u.name@)) ==> r
                == Err::<(), RegistryError>(RegistryError::NameNotIncreasing) && final(self).units@
                == old(self).units@,
    {
        if self.units.len() > 0 {
            let last = &self.units[self.units.len() - 1];
            if !str_lex_lt(last.name.as_str(), u.name.as_str()) {
                return Err(RegistryError::NameNotIncreasing);
            }
        }
        let ghost pre = self.units@;
        self.units.push(u);
        proof {
            assert forall|i: int, j: int|
                0 <= i < j < self.units@.len() implies lex_lt(
                #[trigger] self.units@[i].name@,
                #[trigger] self.units@[j].name@,
            ) by {
                if j == pre.len() as int && i < j - 1 {
                    lemma_lex_lt_transitive(
                        self.units@[i].name@,
                        pre.last().name@,
                        self.units@[j].name@,
                    );
                }
            }
        }
        Ok(())
    }

    /// The position of the unit named `name`, if registered.
    pub fn find(&self, name: &String) -> (r: Option<usize>)
        ensures
            ({
                let m = registry_names(self.units@);
                match r {
                    Some(i) => i < self.units@.len() && idx_of(m, name@) == i as int,
                    None => idx_of(m, name@) < 0,
                }
            }),
    {
        let ghost m = registry_names(self.units@);
        let mut i: usize = 0;
        while i < self.units.len()
            invariant
                i <= self.units.len(),
                m == registry_names(self.units@),
                forall|k: int| 0 <= k < i ==> m[k] != name@,
            decreases self.units.len() - i,
        {
            proof {
                assert(m[i as int] == self.units@[i as int].name@);
            }
            if self.units[i].name.eq(name) {
                proof {
                    lemma_idx_of_first(m, name@, i as int);
                }
                return Some(i);
            }
            i = i + 1;
        }
        proof {
            lemma_idx_of(m, name@);
        }
        None
    }
}

} // verus!
