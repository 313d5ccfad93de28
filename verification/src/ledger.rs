//! The migration ledger: the durable record of which units have been applied.
//!
//! The ledger is an append-only sequence of entries keyed by unit name, with
//! the timestamp at which each unit was applied.  A name appears at most
//! once; presence means "applied and committed".  The ledger is the sole
//! source of truth for migration state across process restarts.

use vstd::prelude::*;

verus! {

/// One ledger row: the name of an applied unit and when it was applied.
#[derive(Clone, Debug, PartialEq, Eq)]
pub struct LedgerEntry {
    pub name: String,
    pub applied_at: u64,
}

/// Mathematical model of a ledger entry.
#[verifier::ext_equal]
pub struct EntryModel {
    pub name: Seq<char>,
    pub applied_at: u64,
}

impl View for LedgerEntry {
    type V = EntryModel;

    open spec fn view(&self) -> EntryModel {
        EntryModel { name: self.name@, applied_at: self.applied_at }
    }
}

/// The names recorded in a ledger, in insertion order.
pub open spec fn ledger_names(l: Seq<EntryModel>) -> Seq<Seq<char>> {
    l.map_values(|e: EntryModel| e.name)
}

/// A ledger records `n` as applied.
pub open spec fn ledger_has(l: Seq<EntryModel>, n: Seq<char>) -> bool {
    ledger_names(l).contains(n)
}

/// A well-formed ledger records each name at most once.
pub open spec fn ledger_wf(l: Seq<EntryModel>) -> bool {
    forall|i: int, j: int|
        0 <= i < j < l.len() ==> #[trigger] l[i].name != #[trigger] l[j].name
}

/// Recording an entry fails only on a duplicate name.
#[derive(Clone, Copy, Debug, PartialEq, Eq, Structural)]
pub enum LedgerError {
    DuplicateName,
}

/// The applied-migrations record.
pub struct Ledger {
    pub entries: Vec<LedgerEntry>,
}

impl View for Ledger {
    type V = Seq<EntryModel>;

    open spec fn view(&self) -> Seq<EntryModel> {
        self.entries@.map_values(|e: LedgerEntry| e@)
    }
}

impl Ledger {
    /// An empty ledger: nothing has been applied.
    pub fn new() -> (r: Ledger)
        ensures
            r@ == Seq::<EntryModel>::empty(),
    {
        let r = Ledger { entries: Vec::new() };
        proof {
            assert(r@ =~= Seq::<EntryModel>::empty());
        }
        r
    }

    /// How many units are recorded as applied.
    pub fn len(&self) -> (r: usize)
        ensures
            r == self@.len(),
    {
        self.entries.len()
    }

    /// Whether `name` is recorded as applied.
    pub fn contains(&self, name: &String) -> (r: bool)
        ensures
            r == ledger_has(self@, name@),
    {
        let mut i: usize = 0;
        while i < self.entries.len()
            invariant
                i <= self.entries.len(),
                forall|k: int| 0 <= k < i ==> self@[k].name != name@,
            decreases self.entries.len() - i,
        {
            if self.entries[i].name.eq(name) {
                assert(ledger_names(self@)[i as int] == name@);
                return true;
            }
            i = i + 1;
        }
        proof {
            assert forall|k: int| 0 <= k < ledger_names(self@).len() implies ledger_names(
                self@,
            )[k] != name@ by {
                assert(self@[k].name != name@);
            }
        }
        false
    }

    /// Appends an entry for `name`, applied at `applied_at`.  Fails, and
    /// changes nothing, exactly when `name` is already recorded: a duplicate
    /// indicates a racing executor or a registry/ledger inconsistency and is
    /// surfaced, never silently ignored.
    pub fn record(&mut self, name: String, applied_at: u64) -> (r: Result<(), LedgerError>)
        ensures
            ledger_has(old(self)@, name@) ==> r == Err::<(), LedgerError>(
                LedgerError::DuplicateName,
            ) && final(self)@ == old(self)@,
            !ledger_has(old(self)@, name@) ==> r == Ok::<(), LedgerError>(()) && final(self)@
                == old(self)@.push(EntryModel { name: name@, applied_at }),
            !ledger_has(old(self)@, name@) && ledger_wf(old(self)@) ==> ledger_wf(final(self)@),
    {
        if self.contains(&name) {
            return Err(LedgerError::DuplicateName);
        }
        let ghost pre = self@;
        self.entries.push(LedgerEntry { name, applied_at });
        proof {
            assert(self@ =~= pre.push(EntryModel { name: name@, applied_at }));
            if ledger_wf(pre) {
                assert forall|i: int, j: int| 0 <= i < j < self@.len() implies #[trigger] self@[i].name
                    != #[trigger] self@[j].name by {
                    if j == pre.len() as int {
                        assert(ledger_names(pre)[i] == pre[i].name);
                    }
                }
            }
        }
        Ok(())
    }

    /// A copy of the most recently recorded entry, if any.
    pub fn last(&self) -> (r: Option<LedgerEntry>)
        ensures
            self@.len() == 0 ==> r is None,
            self@.len() > 0 ==> r == Some(self.entries@.last()) && r.unwrap()@ == self@.last(),
    {
        if self.entries.len() == 0 {
            None
        } else {
            let e = &self.entries[self.entries.len() - 1];
            Some(LedgerEntry { name: e.name.clone(), applied_at: e.applied_at })
        }
    }

    /// Removes the most recently recorded entry.
    pub fn remove_last(&mut self) -> (r: Option<LedgerEntry>)
        ensures
            old(self)@.len() == 0 ==> r is None && final(self)@ == old(self)@,
            old(self)@.len() > 0 ==> r is Some && r.unwrap()@ == old(self)@.last() && final(self)@
                == old(self)@.drop_last(),
    {
        let r = self.entries.pop();
        proof {
            if old(self)@.len() > 0 {
                assert(self@ =~= old(self)@.drop_last());
            } else {
                assert(self@ =~= old(self)@);
            }
        }
        r
    }

    /// The recorded names, oldest first.
    pub fn applied_names(&self) -> (r: Vec<String>)
        ensures
            r@.len() == self@.len(),
            forall|i: int| 0 <= i < r@.len() ==> r@[i]@ == self@[i].name,
    {
        let mut r: Vec<String> = Vec::new();
        let mut i: usize = 0;
        while i < self.entries.len()
            invariant
                i <= self.entries.len(),
                r@.len() == i,
                forall|k: int| 0 <= k < i ==> r@[k]@ == self@[k].name,
            decreases self.entries.len() - i,
        {
            r.push(self.entries[i].name.clone());
            i = i + 1;
        }
        r
    }
}

} // verus!
