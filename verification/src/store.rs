//! The store: tables, columns, indexes, rows — and the statements that
//! change them.
//!
//! The store is modelled as a value.  A statement is one schema or data
//! change; its semantics is a total spec function from a store shape to
//! either the next shape or the exact error, so every caller knows both when
//! a statement succeeds and what it does.  Duplicate or missing columns and
//! indexes are errors, never silently ignored: the engine's idempotence comes
//! from explicit precondition checks, not from the store forgiving repeated
//! schema changes.

use vstd::prelude::*;

use crate::cell::{split_for_tag, CellModel, CellValue, VariantTag};
use crate::ledger::{EntryModel, Ledger};

verus! {

/// The position of the first occurrence of `x` in `s`, or a negative value
/// when `x` does not occur.
pub open spec fn idx_of<A>(s: Seq<A>, x: A) -> int
    decreases s.len(),
{
    if s.len() == 0 {
        -1
    } else if s[0] == x {
        0
    } else {
        let r = idx_of(s.skip(1), x);
        if r < 0 {
            -1
        } else {
            r + 1
        }
    }
}

/// `idx_of` finds exactly the first occurrence.
pub proof fn lemma_idx_of<A>(s: Seq<A>, x: A)
    ensures
        idx_of(s, x) >= 0 <==> s.contains(x),
        idx_of(s, x) >= 0 ==> idx_of(s, x) < s.len() && s[idx_of(s, x)] == x && (forall|k: int|
            0 <= k < idx_of(s, x) ==> s[k] != x),
        idx_of(s, x) < 0 ==> forall|k: int| 0 <= k < s.len() ==> s[k] != x,
    decreases s.len(),
{
    if s.len() > 0 && s[0] != x {
        lemma_idx_of(s.skip(1), x);
        assert(forall|k: int| 0 <= k < s.skip(1).len() ==> s.skip(1)[k] == s[k + 1]);
        if s.skip(1).contains(x) {
            let k = choose|k: int| 0 <= k < s.skip(1).len() && s.skip(1)[k] == x;
            assert(s[k + 1] == x);
        }
        if s.contains(x) {
            let k = choose|k: int| 0 <= k < s.len() && s[k] == x;
            assert(s.skip(1)[k - 1] == x);
        }
        if idx_of(s, x) >= 0 {
            assert forall|k: int| 0 <= k < idx_of(s, x) implies s[k] != x by {
                if k > 0 {
                    assert(s.skip(1)[k - 1] == s[k]);
                }
            }
        }
    }
}

/// When `s[j] == x` and nothing before `j` equals `x`, the first occurrence
/// is at `j`.
pub proof fn lemma_idx_of_first<A>(s: Seq<A>, x: A, j: int)
    requires
        0 <= j < s.len(),
        s[j] == x,
        forall|k: int| 0 <= k < j ==> s[k] != x,
    ensures
        idx_of(s, x) == j,
    decreases j,
{
    if j > 0 {
        assert(forall|k: int| 0 <= k < s.skip(1).len() ==> s.skip(1)[k] == s[k + 1]);
        lemma_idx_of_first(s.skip(1), x, j - 1);
    }
}

/// Mathematical model of a table: its name, its column and index names, and
/// its rows.  Each row is one cell per column, in column order.
#[verifier::ext_equal]
pub struct TableModel {
    pub name: Seq<char>,
    pub columns: Seq<Seq<char>>,
    pub indexes: Seq<Seq<char>>,
    pub rows: Seq<Seq<CellModel>>,
}

/// A table of the store.
pub struct Table {
    pub name: String,
    pub columns: Vec<String>,
    pub indexes: Vec<String>,
    pub rows: Vec<Vec<CellValue>>,
}

impl View for Table {
    type V = TableModel;

    open spec fn view(&self) -> TableModel {
        TableModel {
            name: self.name@,
            columns: self.columns@.map_values(|c: String| c@),
            indexes: self.indexes@.map_values(|c: String| c@),
            rows: self.rows@.map_values(|r: Vec<CellValue>| r@.map_values(|c: CellValue| c@)),
        }
    }
}

/// Column and index names are unique within a table, and every row has
/// exactly one cell per column.
pub open spec fn table_wf(t: TableModel) -> bool {
    &&& (forall|i: int, j: int|
        0 <= i < j < t.columns.len() ==> #[trigger] t.columns[i] != #[trigger] t.columns[j])
    &&& (forall|i: int, j: int|
        0 <= i < j < t.indexes.len() ==> #[trigger] t.indexes[i] != #[trigger] t.indexes[j])
    &&& (forall|i: int| 0 <= i < t.rows.len() ==> #[trigger] t.rows[i].len() == t.columns.len())
}

/// Table names are unique, and every table is well formed.
pub open spec fn tables_wf(ts: Seq<TableModel>) -> bool {
    &&& (forall|i: int, j: int|
        0 <= i < j < ts.len() ==> #[trigger] ts[i].name != #[trigger] ts[j].name)
    &&& (forall|i: int| 0 <= i < ts.len() ==> table_wf(#[trigger] ts[i]))
}

/// The table names of a store, in order.
pub open spec fn table_names(ts: Seq<TableModel>) -> Seq<Seq<char>> {
    ts.map_values(|t: TableModel| t.name)
}

/// The position of the table named `n`, or a negative value when absent.
pub open spec fn table_idx(ts: Seq<TableModel>, n: Seq<char>) -> int {
    idx_of(table_names(ts), n)
}

/// The live store holds a table named `n`.
pub open spec fn has_table_model(ts: Seq<TableModel>, n: Seq<char>) -> bool {
    table_idx(ts, n) >= 0
}

/// The live store holds a table named `t` with a column named `c`.
pub open spec fn has_column_model(ts: Seq<TableModel>, t: Seq<char>, c: Seq<char>) -> bool {
    has_table_model(ts, t) && idx_of(ts[table_idx(ts, t)].columns, c) >= 0
}

/// The live store holds a table named `t` with an index named `n`.
pub open spec fn has_index_model(ts: Seq<TableModel>, t: Seq<char>, n: Seq<char>) -> bool {
    has_table_model(ts, t) && idx_of(ts[table_idx(ts, t)].indexes, n) >= 0
}

/// Why the store rejected a statement or a bootstrap operation.
#[derive(Clone, Copy, Debug, PartialEq, Eq, Structural)]
pub enum StoreError {
    MissingTable,
    DuplicateTable,
    MissingColumn,
    DuplicateColumn,
    MissingIndex,
    DuplicateIndex,
    RowArity,
}

/// One schema or data change.
///
/// `AddColumn` and `DropColumn` treat a duplicate or missing column as an
/// error.  `AddColumnIfAbsent` and `DropColumnIfPresent` are their guarded
/// forms: the guard is explicit in the engine's own semantics, so a unit
/// built from them completes from any half-applied schema state instead of
/// relying on the store to forgive repeated schema changes.
///
/// `SplitColumn` is the data-rewriting step: it projects the tagged-variant
/// value in `source` onto the four variant columns of every row, leaving the
/// columns of non-matching variants untouched.  It rewrites data only; the
/// variant columns are added, and `source` dropped, by separate statements.
#[derive(Clone, Debug, PartialEq, Eq)]
pub enum Statement {
    AddColumn { table: String, column: String },
    DropColumn { table: String, column: String },
    AddColumnIfAbsent { table: String, column: String },
    DropColumnIfPresent { table: String, column: String },
    SplitColumn {
        table: String,
        source: String,
        show: String,
        podcast: String,
        anime: String,
        manga: String,
    },
    AddIndex { table: String, index: String },
    DropIndex { table: String, index: String },
}

/// `t` with a fresh column appended: every row gains a null cell.
pub open spec fn with_column(t: TableModel, c: Seq<char>) -> TableModel {
    TableModel {
        name: t.name,
        columns: t.columns.push(c),
        indexes: t.indexes,
        rows: t.rows.map_values(|r: Seq<CellModel>| r.push(CellModel::Null)),
    }
}

/// `t` with the column at position `ci` removed: every row loses that cell.
pub open spec fn without_column(t: TableModel, ci: int) -> TableModel {
    TableModel {
        name: t.name,
        columns: t.columns.remove(ci),
        indexes: t.indexes,
        rows: t.rows.map_values(|r: Seq<CellModel>| r.remove(ci)),
    }
}

/// Writes a projected payload into position `i`, or leaves the row unchanged
/// when the projection yielded nothing.
pub open spec fn write_cell(r: Seq<CellModel>, i: int, v: Option<Seq<char>>) -> Seq<CellModel> {
    match v {
        Some(p) => r.update(i, CellModel::Doc(p)),
        None => r,
    }
}

/// One row after the tagged-variant split: the source cell is projected once,
/// and each variant column receives its share.  At most one share is a
/// payload, so at most one variant cell is written.
pub open spec fn split_row(
    r: Seq<CellModel>,
    si: int,
    i_show: int,
    i_podcast: int,
    i_anime: int,
    i_manga: int,
) -> Seq<CellModel> {
    let v = r[si];
    write_cell(
        write_cell(
            write_cell(
                write_cell(r, i_show, split_for_tag(v, VariantTag::Show)),
                i_podcast,
                split_for_tag(v, VariantTag::Podcast),
            ),
            i_anime,
            split_for_tag(v, VariantTag::Anime),
        ),
        i_manga,
        split_for_tag(v, VariantTag::Manga),
    )
}

/// `t` with every row split (all positions are column positions of `t`).
pub open spec fn with_split(
    t: TableModel,
    si: int,
    i_show: int,
    i_podcast: int,
    i_anime: int,
    i_manga: int,
) -> TableModel {
    TableModel {
        name: t.name,
        columns: t.columns,
        indexes: t.indexes,
        rows: t.rows.map_values(|r: Seq<CellModel>| split_row(r, si, i_show, i_podcast, i_anime, i_manga)),
    }
}

/// `t` with an index added or removed.
pub open spec fn with_index(t: TableModel, n: Seq<char>) -> TableModel {
    TableModel { name: t.name, columns: t.columns, indexes: t.indexes.push(n), rows: t.rows }
}

/// `t` with the index at position `ii` removed.
pub open spec fn without_index(t: TableModel, ii: int) -> TableModel {
    TableModel { name: t.name, columns: t.columns, indexes: t.indexes.remove(ii), rows: t.rows }
}

/// The exact semantics of one statement: either the next store shape, or the
/// error, and precisely when each occurs.
pub open spec fn stmt_apply(ts: Seq<TableModel>, s: Statement) -> Result<
    Seq<TableModel>,
    StoreError,
> {
    match s {
        Statement::AddColumn { table, column } => {
            let ti = table_idx(ts, table@);
            if ti < 0 {
                Err(StoreError::MissingTable)
            } else if idx_of(ts[ti].columns, column@) >= 0 {
                Err(StoreError::DuplicateColumn)
            } else {
                Ok(ts.update(ti, with_column(ts[ti], column@)))
            }
        },
        Statement::DropColumn { table, column } => {
            let ti = table_idx(ts, table@);
            if ti < 0 {
                Err(StoreError::MissingTable)
            } else {
                let ci = idx_of(ts[ti].columns, column@);
                if ci < 0 {
                    Err(StoreError::MissingColumn)
                } else {
                    Ok(ts.update(ti, without_column(ts[ti], ci)))
                }
            }
        },
        Statement::AddColumnIfAbsent { table, column } => {
            let ti = table_idx(ts, table@);
            if ti < 0 {
                Err(StoreError::MissingTable)
            } else if idx_of(ts[ti].columns, column@) >= 0 {
                Ok(ts)
            } else {
                Ok(ts.update(ti, with_column(ts[ti], column@)))
            }
        },
        Statement::DropColumnIfPresent { table, column } => {
            let ti = table_idx(ts, table@);
            if ti < 0 {
                Err(StoreError::MissingTable)
            } else {
                let ci = idx_of(ts[ti].columns, column@);
                if ci < 0 {
                    Ok(ts)
                } else {
                    Ok(ts.update(ti, without_column(ts[ti], ci)))
                }
            }
        },
        Statement::SplitColumn { table, source, show, podcast, anime, manga } => {
            let ti = table_idx(ts, table@);
            if ti < 0 {
                Err(StoreError::MissingTable)
            } else {
                let t = ts[ti];
                let si = idx_of(t.columns, source@);
                let i_show = idx_of(t.columns, show@);
                let i_podcast = idx_of(t.columns, podcast@);
                let i_anime = idx_of(t.columns, anime@);
                let i_manga = idx_of(t.columns, manga@);
                if si < 0 || i_show < 0 || i_podcast < 0 || i_anime < 0 || i_manga < 0 {
                    Err(StoreError::MissingColumn)
                } else {
                    Ok(ts.update(ti, with_split(t, si, i_show, i_podcast, i_anime, i_manga)))
                }
            }
        },
        Statement::AddIndex { table, index } => {
            let ti = table_idx(ts, table@);
            if ti < 0 {
                Err(StoreError::MissingTable)
            } else if idx_of(ts[ti].indexes, index@) >= 0 {
                Err(StoreError::DuplicateIndex)
            } else {
                Ok(ts.update(ti, with_index(ts[ti], index@)))
            }
        },
        Statement::DropIndex { table, index } => {
            let ti = table_idx(ts, table@);
            if ti < 0 {
                Err(StoreError::MissingTable)
            } else {
                let ii = idx_of(ts[ti].indexes, index@);
                if ii < 0 {
                    Err(StoreError::MissingIndex)
                } else {
                    Ok(ts.update(ti, without_index(ts[ti], ii)))
                }
            }
        },
    }
}

/// Mathematical model of the whole store: its tables and its ledger.
#[verifier::ext_equal]
pub struct StoreModel {
    pub tables: Seq<TableModel>,
    pub ledger: Seq<EntryModel>,
}

/// The store a migration run works on: the live tables and the durable
/// ledger of applied units.
pub struct Store {
    pub tables: Vec<Table>,
    pub ledger: Ledger,
}

impl View for Store {
    type V = StoreModel;

    open spec fn view(&self) -> StoreModel {
        StoreModel { tables: self.tables@.map_values(|t: Table| t@), ledger: self.ledger@ }
    }
}

/// The position of the first occurrence of `x` among `names`, if any.
pub fn find_string(names: &Vec<String>, x: &String) -> (r: Option<usize>)
    ensures
        ({
            let m = names@.map_values(|s: String| s@);
            match r {
                Some(i) => i < names@.len() && idx_of(m, x@) == i as int,
                None => idx_of(m, x@) < 0,
            }
        }),
{
    let ghost m = names@.map_values(|s: String| s@);
    let mut i: usize = 0;
    while i < names.len()
        invariant
            i <= names.len(),
            m == names@.map_values(|s: String| s@),
            forall|k: int| 0 <= k < i ==> m[k] != x@,
        decreases names.len() - i,
    {
        proof {
            assert(m[i as int] == names@[i as int]@);
        }
        if names[i].eq(x) {
            proof {
                lemma_idx_of_first(m, x@, i as int);
            }
            return Some(i);
        }
        i = i + 1;
    }
    proof {
        lemma_idx_of(m, x@);
        if m.contains(x@) {
            let k = choose|k: int| 0 <= k < m.len() && m[k] == x@;
        }
    }
    None
}

impl Store {
    /// An empty store: no tables, an empty ledger.
    pub fn new() -> (r: Store)
        ensures
            r@.tables == Seq::<TableModel>::empty(),
            r@.ledger == Seq::<EntryModel>::empty(),
            tables_wf(r@.tables),
    {
        let r = Store { tables: Vec::new(), ledger: Ledger::new() };
        proof {
            assert(r@.tables =~= Seq::<TableModel>::empty());
        }
        r
    }

    /// The position of the table named `name`, if any.
    fn find_table(&self, name: &String) -> (r: Option<usize>)
        ensures
            ({
                let ti = table_idx(self@.tables, name@);
                match r {
                    Some(i) => i < self.tables@.len() && ti == i as int,
                    None => ti < 0,
                }
            }),
    {
        let ghost m = table_names(self@.tables);
        let mut i: usize = 0;
        while i < self.tables.len()
            invariant
                i <= self.tables.len(),
                m == table_names(self@.tables),
                forall|k: int| 0 <= k < i ==> m[k] != name@,
            decreases self.tables.len() - i,
        {
            proof {
                assert(self@.tables[i as int] == self.tables@[i as int]@);
                assert(m[i as int] == self@.tables[i as int].name);
            }
            if self.tables[i].name.eq(name) {
                proof {
                    lemma_idx_of_first(m, name@, i as int);
                }
                return Some(i);
            }
            i = i + 1;
        }
        proof {
            lemma_idx_of(m, name@);
        }
        None
    }

    /// Whether the live store currently holds a table named `name`.
    pub fn has_table(&self, name: &String) -> (r: bool)
        ensures
            r == has_table_model(self@.tables, name@),
    {
        self.find_table(name).is_some()
    }

    /// Whether table `table` currently has a column named `column`.  Reflects
    /// the live state at call time: any schema change invalidates the answer.
    pub fn has_column(&self, table: &String, column: &String) -> (r: bool)
        ensures
            r == has_column_model(self@.tables, table@, column@),
    {
        match self.find_table(table) {
            None => false,
            Some(ti) => {
                proof {
                    assert(self@.tables[ti as int] == self.tables@[ti as int]@);
                }
                find_string(&self.tables[ti].columns, column).is_some()
            },
        }
    }

    /// Whether table `table` currently has an index named `index`.
    pub fn has_index(&self, table: &String, index: &String) -> (r: bool)
        ensures
            r == has_index_model(self@.tables, table@, index@),
    {
        match self.find_table(table) {
            None => false,
            Some(ti) => {
                proof {
                    assert(self@.tables[ti as int] == self.tables@[ti as int]@);
                }
                find_string(&self.tables[ti].indexes, index).is_some()
            },
        }
    }

    /// Creates an empty table with the given columns.  Fails, changing
    /// nothing, when a table of that name exists or the columns repeat.
    pub fn create_table(&mut self, name: String, columns: Vec<String>) -> (r: Result<
        (),
        StoreError,
    >)
        ensures
            final(self)@.ledger == old(self)@.ledger,
            r is Err ==> final(self)@ == old(self)@,
            has_table_model(old(self)@.tables, name@) ==> r == Err::<(), StoreError>(
                StoreError::DuplicateTable,
            ),
            !has_table_model(old(self)@.tables, name@) && (forall|p: int, q: int|
                0 <= p < q < columns@.len() ==> #[trigger] columns@[p]@ != #[trigger] columns@[q]@)
                ==> r is Ok,
            r is Ok ==> !has_table_model(old(self)@.tables, name@) && final(self)@.tables == old(
                self,
            )@.tables.push(
                TableModel {
                    name: name@,
                    columns: columns@.map_values(|c: String| c@),
                    indexes: Seq::empty(),
                    rows: Seq::empty(),
                },
            ),
            tables_wf(old(self)@.tables) && r is Ok ==> tables_wf(final(self)@.tables),
    {
        if self.find_table(&name).is_some() {
            return Err(StoreError::DuplicateTable);
        }
        let ghost cm = columns@.map_values(|c: String| c@);
        let mut i: usize = 0;
        while i < columns.len()
            invariant
                i <= columns.len(),
                cm == columns@.map_values(|c: String| c@),
                forall|p: int, q: int| 0 <= p < q < i ==> #[trigger] cm[p] != #[trigger] cm[q],
                self@ == old(self)@,
                table_idx(self@.tables, name@) < 0,
            decreases columns.len() - i,
        {
            let mut j: usize = 0;
            while j < i
                invariant
                    j <= i,
                    i < columns.len(),
                    cm == columns@.map_values(|c: String| c@),
                    forall|p: int| 0 <= p < j ==> #[trigger] cm[p] != cm[i as int],
                    self@ == old(self)@,
                    table_idx(self@.tables, name@) < 0,
                decreases i - j,
            {
                proof {
                    assert(cm[j as int] == columns@[j as int]@);
                    assert(cm[i as int] == columns@[i as int]@);
                }
                if columns[j].eq(&columns[i]) {
                    return Err(StoreError::DuplicateColumn);
                }
                j = j + 1;
            }
            i = i + 1;
        }
        let ghost pre = self@.tables;
        let t = Table { name, columns, indexes: Vec::new(), rows: Vec::new() };
        proof {
            lemma_idx_of(table_names(pre), t.name@);
        }
        self.tables.push(t);
        proof {
            let tm = TableModel {
                name: t.name@,
                columns: cm,
                indexes: Seq::empty(),
                rows: Seq::empty(),
            };
            assert(self.tables@[pre.len() as int]@ =~~= tm);
            assert(self@.tables =~~= pre.push(tm));
            if tables_wf(pre) {
                assert forall|a: int, b: int| 0 <= a < b < self@.tables.len() implies #[trigger] self@.tables[a].name != #[trigger] self@.tables[b].name by {
                    if b == pre.len() as int {
                        assert(table_names(pre)[a] == pre[a].name);
                    }
                }
                assert forall|a: int| 0 <= a < self@.tables.len() implies table_wf(
                    #[trigger] self@.tables[a],
                ) by {
                    if a == pre.len() as int {
                        assert(table_wf(tm));
                    }
                }
            }
        }
        Ok(())
    }

    /// Appends one row to table `table`.  Fails, changing nothing, when the
    /// table is absent or the row does not have one cell per column.
    pub fn insert_row(&mut self, table: &String, cells: Vec<CellValue>) -> (r: Result<
        (),
        StoreError,
    >)
        ensures
            final(self)@.ledger == old(self)@.ledger,
            r is Err ==> final(self)@ == old(self)@,
            !has_table_model(old(self)@.tables, table@) ==> r == Err::<(), StoreError>(
                StoreError::MissingTable,
            ),
            has_table_model(old(self)@.tables, table@) && cells@.len() == old(
                self,
            )@.tables[table_idx(old(self)@.tables, table@)].columns.len() ==> r is Ok,
            r is Ok ==> ({
                let ts = old(self)@.tables;
                let ti = table_idx(ts, table@);
                let rm = cells@.map_values(|c: CellValue| c@);
                &&& has_table_model(ts, table@)
                &&& rm.len() == ts[ti].columns.len()
                &&& final(self)@.tables == ts.update(
                    ti,
                    TableModel {
                        name: ts[ti].name,
                        columns: ts[ti].columns,
                        indexes: ts[ti].indexes,
                        rows: ts[ti].rows.push(rm),
                    },
                )
            }),
            tables_wf(old(self)@.tables) && r is Ok ==> tables_wf(final(self)@.tables),
    {
        let ghost pre = self@.tables;
        let ti = match self.find_table(table) {
            None => {
                return Err(StoreError::MissingTable);
            },
            Some(i) => i,
        };
        proof {
            assert(self@.tables[ti as int] == self.tables@[ti as int]@);
        }
        if cells.len() != self.tables[ti].columns.len() {
            return Err(StoreError::RowArity);
        }
        let ghost rm = cells@.map_values(|c: CellValue| c@);
        let ghost t0 = pre[ti as int];
        self.tables[ti].rows.push(cells);
        proof {
            let tm = TableModel {
                name: t0.name,
                columns: t0.columns,
                indexes: t0.indexes,
                rows: t0.rows.push(rm),
            };
            assert(self.tables@[ti as int]@.rows =~~= t0.rows.push(rm));
            assert(self.tables@[ti as int]@ =~~= tm);
            assert(self@.tables =~~= pre.update(ti as int, tm));
            if tables_wf(pre) {
                assert forall|a: int| 0 <= a < self@.tables.len() implies table_wf(
                    #[trigger] self@.tables[a],
                ) by {
                    if a == ti as int {
                        assert forall|k: int| 0 <= k < tm.rows.len() implies #[trigger] tm.rows[k].len() == tm.columns.len() by {
                            if k < t0.rows.len() as int {
                                assert(t0.rows[k].len() == t0.columns.len());
                            }
                        }
                    }
                }
            }
        }
        Ok(())
    }
}


/// Rewrites one row in place for the tagged-variant split: reads the source
/// cell once, then writes each variant column that the projection filled.
fn split_row_exec(
    row: &mut Vec<CellValue>,
    si: usize,
    i_show: usize,
    i_podcast: usize,
    i_anime: usize,
    i_manga: usize,
)
    requires
        si < old(row)@.len(),
        i_show < old(row)@.len(),
        i_podcast < old(row)@.len(),
        i_anime < old(row)@.len(),
        i_manga < old(row)@.len(),
    ensures
        final(row)@.len() == old(row)@.len(),
        final(row)@.map_values(|c: CellValue| c@) == split_row(
            old(row)@.map_values(|c: CellValue| c@),
            si as int,
            i_show as int,
            i_podcast as int,
            i_anime as int,
            i_manga as int,
        ),
{
    let ghost r0 = row@.map_values(|c: CellValue| c@);
    proof {
        assert(r0[si as int] == row@[si as int]@);
    }
    let sc = crate::cell::split_cell(&row[si]);
    let ghost v = r0[si as int];
    let crate::cell::SplitCell { show, podcast, anime, manga } = sc;
    let ghost r1 = write_cell(r0, i_show as int, split_for_tag(v, VariantTag::Show));
    match show {
        Some(p) => {
            row[i_show] = CellValue::Doc(p);
        },
        None => {},
    }
    proof {
        assert(row@.map_values(|c: CellValue| c@) =~= r1);
    }
    let ghost r2 = write_cell(r1, i_podcast as int, split_for_tag(v, VariantTag::Podcast));
    match podcast {
        Some(p) => {
            row[i_podcast] = CellValue::Doc(p);
        },
        None => {},
    }
    proof {
        assert(row@.map_values(|c: CellValue| c@) =~= r2);
    }
    let ghost r3 = write_cell(r2, i_anime as int, split_for_tag(v, VariantTag::Anime));
    match anime {
        Some(p) => {
            row[i_anime] = CellValue::Doc(p);
        },
        None => {},
    }
    proof {
        assert(row@.map_values(|c: CellValue| c@) =~= r3);
    }
    let ghost r4 = write_cell(r3, i_manga as int, split_for_tag(v, VariantTag::Manga));
    match manga {
        Some(p) => {
            row[i_manga] = CellValue::Doc(p);
        },
        None => {},
    }
    proof {
        assert(row@.map_values(|c: CellValue| c@) =~= r4);
    }
}

impl Store {
    /// Adds column `column` to the table at position `ti`: every row gains a
    /// null cell.
    fn do_add_column(&mut self, ti: usize, column: &String)
        requires
            ti < old(self).tables@.len(),
        ensures
            final(self)@.ledger == old(self)@.ledger,
            final(self)@.tables == old(self)@.tables.update(
                ti as int,
                with_column(old(self)@.tables[ti as int], column@),
            ),
    {
        let ghost pre = self@.tables;
        let ghost t0 = pre[ti as int];
        proof {
            assert(t0 == self.tables@[ti as int]@);
        }
        self.tables[ti].columns.push(column.clone());
        proof {
            assert(self.tables@[ti as int]@.columns =~= t0.columns.push(column@));
        }
        let ghost m1 = self@.tables;
        let n = self.tables[ti].rows.len();
        let mut j: usize = 0;
        proof {
            assert(m1[ti as int] == self.tables@[ti as int]@);
        }
        while j < n
            invariant
                ti < self.tables@.len(),
                self@.tables.len() == m1.len(),
                m1.len() == pre.len(),
                t0 == pre[ti as int],
                forall|k: int| 0 <= k < m1.len() && k != ti as int ==> m1[k] == pre[k],
                m1[ti as int].name == t0.name,
                m1[ti as int].columns == t0.columns.push(column@),
                m1[ti as int].indexes == t0.indexes,
                m1[ti as int].rows == t0.rows,
                j <= n,
                n == m1[ti as int].rows.len(),
                forall|k: int|
                    0 <= k < self@.tables.len() && k != ti as int ==> self@.tables[k] == m1[k],
                self@.tables[ti as int].name == m1[ti as int].name,
                self@.tables[ti as int].columns == m1[ti as int].columns,
                self@.tables[ti as int].indexes == m1[ti as int].indexes,
                self@.tables[ti as int].rows.len() == n,
                forall|k: int|
                    0 <= k < j ==> self@.tables[ti as int].rows[k] == m1[ti as int].rows[k].push(
                        CellModel::Null,
                    ),
                forall|k: int| j <= k < n ==> self@.tables[ti as int].rows[k] == m1[ti as int].rows[k],
                self@.ledger == old(self)@.ledger,
            decreases n - j,
        {
            let ghost rows_before = self@.tables[ti as int].rows;
            proof {
                assert(self@.tables[ti as int] == self.tables@[ti as int]@);
            }
            self.tables[ti].rows[j].push(CellValue::Null);
            proof {
                assert(self@.tables[ti as int] == self.tables@[ti as int]@);
                assert(self.tables@[ti as int]@.rows[j as int] =~= m1[ti as int].rows[j as int].push(
                    CellModel::Null,
                ));
                assert(self@.tables[ti as int].rows =~= rows_before.update(
                    j as int,
                    self@.tables[ti as int].rows[j as int],
                ));
            }
            j = j + 1;
        }
        proof {
            assert(self@.tables[ti as int].rows =~= with_column(t0, column@).rows);
            assert(self@.tables[ti as int] =~~= with_column(t0, column@));
            assert(self@.tables =~~= pre.update(ti as int, with_column(t0, column@)));
        }
    }

    /// Drops the column at position `ci` of the table at position `ti`:
    /// every row loses that cell.
    fn do_drop_column(&mut self, ti: usize, ci: usize)
        requires
            ti < old(self).tables@.len(),
            table_wf(old(self)@.tables[ti as int]),
            ci < old(self)@.tables[ti as int].columns.len(),
        ensures
            final(self)@.ledger == old(self)@.ledger,
            final(self)@.tables == old(self)@.tables.update(
                ti as int,
                without_column(old(self)@.tables[ti as int], ci as int),
            ),
    {
        let ghost pre = self@.tables;
        let ghost t0 = pre[ti as int];
        proof {
            assert(t0 == self.tables@[ti as int]@);
        }
        self.tables[ti].columns.remove(ci);
        proof {
            assert(self.tables@[ti as int]@.columns =~= t0.columns.remove(ci as int));
        }
        let ghost m1 = self@.tables;
        proof {
            assert(m1[ti as int] == self.tables@[ti as int]@);
            assert(m1[ti as int].rows == t0.rows);
        }
        let n = self.tables[ti].rows.len();
        let mut j: usize = 0;
        while j < n
            invariant
                ti < self.tables@.len(),
                self@.tables.len() == m1.len(),
                m1.len() == pre.len(),
                t0 == pre[ti as int],
                forall|k: int| 0 <= k < m1.len() && k != ti as int ==> m1[k] == pre[k],
                m1[ti as int].name == t0.name,
                m1[ti as int].columns == t0.columns.remove(ci as int),
                m1[ti as int].indexes == t0.indexes,
                m1[ti as int].rows == t0.rows,
                j <= n,
                n == m1[ti as int].rows.len(),
                forall|k: int|
                    0 <= k < self@.tables.len() && k != ti as int ==> self@.tables[k] == m1[k],
                self@.tables[ti as int].name == m1[ti as int].name,
                self@.tables[ti as int].columns == m1[ti as int].columns,
                self@.tables[ti as int].indexes == m1[ti as int].indexes,
                self@.tables[ti as int].rows.len() == n,
                forall|k: int| 0 <= k < n ==> ci < m1[ti as int].rows[k].len(),
                forall|k: int|
                    0 <= k < j ==> self@.tables[ti as int].rows[k] == m1[ti as int].rows[k].remove(
                        ci as int,
                    ),
                forall|k: int| j <= k < n ==> self@.tables[ti as int].rows[k] == m1[ti as int].rows[k],
                self@.ledger == old(self)@.ledger,
            decreases n - j,
        {
            let ghost rows_before = self@.tables[ti as int].rows;
            proof {
                assert(self@.tables[ti as int] == self.tables@[ti as int]@);
                assert(self.tables@[ti as int].rows@[j as int]@.len() == m1[ti as int].rows[j as int].len());
            }
            self.tables[ti].rows[j].remove(ci);
            proof {
                assert(self@.tables[ti as int] == self.tables@[ti as int]@);
                assert(self.tables@[ti as int]@.rows[j as int] =~= m1[ti as int].rows[j as int].remove(
                    ci as int,
                ));
                assert(self@.tables[ti as int].rows =~= rows_before.update(
                    j as int,
                    self@.tables[ti as int].rows[j as int],
                ));
            }
            j = j + 1;
        }
        proof {
            assert(self@.tables[ti as int].rows =~= without_column(t0, ci as int).rows);
            assert(self@.tables[ti as int] =~~= without_column(t0, ci as int));
            assert(self@.tables =~~= pre.update(ti as int, without_column(t0, ci as int)));
        }
    }

    /// Splits the tagged-variant source column of every row of the table at
    /// position `ti` onto the four variant columns.
    fn do_split(
        &mut self,
        ti: usize,
        si: usize,
        i_show: usize,
        i_podcast: usize,
        i_anime: usize,
        i_manga: usize,
    )
        requires
            ti < old(self).tables@.len(),
            table_wf(old(self)@.tables[ti as int]),
            si < old(self)@.tables[ti as int].columns.len(),
            i_show < old(self)@.tables[ti as int].columns.len(),
            i_podcast < old(self)@.tables[ti as int].columns.len(),
            i_anime < old(self)@.tables[ti as int].columns.len(),
            i_manga < old(self)@.tables[ti as int].columns.len(),
        ensures
            final(self)@.ledger == old(self)@.ledger,
            final(self)@.tables == old(self)@.tables.update(
                ti as int,
                with_split(
                    old(self)@.tables[ti as int],
                    si as int,
                    i_show as int,
                    i_podcast as int,
                    i_anime as int,
                    i_manga as int,
                ),
            ),
    {
        let ghost pre = self@.tables;
        let ghost t0 = pre[ti as int];
        proof {
            assert(t0 == self.tables@[ti as int]@);
        }
        let n = self.tables[ti].rows.len();
        let mut j: usize = 0;
        while j < n
            invariant
                ti < self.tables@.len(),
                self@.tables.len() == pre.len(),
                t0 == pre[ti as int],
                j <= n,
                n == t0.rows.len(),
                si < t0.columns.len(),
                i_show < t0.columns.len(),
                i_podcast < t0.columns.len(),
                i_anime < t0.columns.len(),
                i_manga < t0.columns.len(),
                forall|k: int| 0 <= k < n ==> #[trigger] t0.rows[k].len() == t0.columns.len(),
                forall|k: int|
                    0 <= k < self@.tables.len() && k != ti as int ==> self@.tables[k] == pre[k],
                self@.tables[ti as int].name == t0.name,
                self@.tables[ti as int].columns == t0.columns,
                self@.tables[ti as int].indexes == t0.indexes,
                self@.tables[ti as int].rows.len() == n,
                forall|k: int|
                    0 <= k < j ==> self@.tables[ti as int].rows[k] == split_row(
                        t0.rows[k],
                        si as int,
                        i_show as int,
                        i_podcast as int,
                        i_anime as int,
                        i_manga as int,
                    ),
                forall|k: int| j <= k < n ==> self@.tables[ti as int].rows[k] == t0.rows[k],
                self@.ledger == old(self)@.ledger,
            decreases n - j,
        {
            let ghost rows_before = self@.tables[ti as int].rows;
            proof {
                assert(self@.tables[ti as int] == self.tables@[ti as int]@);
                assert(self.tables@[ti as int].rows@[j as int]@.map_values(|c: CellValue| c@)
                    == self@.tables[ti as int].rows[j as int]);
                assert(self.tables@[ti as int].rows@[j as int]@.len() == t0.rows[j as int].len());
            }
            split_row_exec(&mut self.tables[ti].rows[j], si, i_show, i_podcast, i_anime, i_manga);
            proof {
                assert(self@.tables[ti as int] == self.tables@[ti as int]@);
                assert(self.tables@[ti as int].rows@[j as int]@.map_values(|c: CellValue| c@)
                    == self@.tables[ti as int].rows[j as int]);
                assert(self@.tables[ti as int].rows[j as int] == split_row(
                    t0.rows[j as int],
                    si as int,
                    i_show as int,
                    i_podcast as int,
                    i_anime as int,
                    i_manga as int,
                ));
                assert(self@.tables[ti as int].rows =~= rows_before.update(
                    j as int,
                    self@.tables[ti as int].rows[j as int],
                ));
            }
            j = j + 1;
        }
        proof {
            assert(self@.tables[ti as int].rows =~= with_split(
                t0,
                si as int,
                i_show as int,
                i_podcast as int,
                i_anime as int,
                i_manga as int,
            ).rows);
            assert(self@.tables[ti as int] =~~= with_split(
                t0,
                si as int,
                i_show as int,
                i_podcast as int,
                i_anime as int,
                i_manga as int,
            ));
            assert(self@.tables =~~= pre.update(
                ti as int,
                with_split(t0, si as int, i_show as int, i_podcast as int, i_anime as int, i_manga as int),
            ));
        }
    }

    /// Adds an index named `index` to the table at position `ti`.
    fn do_add_index(&mut self, ti: usize, index: &String)
        requires
            ti < old(self).tables@.len(),
        ensures
            final(self)@.ledger == old(self)@.ledger,
            final(self)@.tables == old(self)@.tables.update(
                ti as int,
                with_index(old(self)@.tables[ti as int], index@),
            ),
    {
        let ghost pre = self@.tables;
        let ghost t0 = pre[ti as int];
        proof {
            assert(t0 == self.tables@[ti as int]@);
        }
        self.tables[ti].indexes.push(index.clone());
        proof {
            assert(self.tables@[ti as int]@.indexes =~= t0.indexes.push(index@));
            assert(self@.tables[ti as int] =~~= with_index(t0, index@));
            assert(self@.tables =~~= pre.update(ti as int, with_index(t0, index@)));
        }
    }

    /// Drops the index at position `ii` of the table at position `ti`.
    fn do_drop_index(&mut self, ti: usize, ii: usize)
        requires
            ti < old(self).tables@.len(),
            ii < old(self)@.tables[ti as int].indexes.len(),
        ensures
            final(self)@.ledger == old(self)@.ledger,
            final(self)@.tables == old(self)@.tables.update(
                ti as int,
                without_index(old(self)@.tables[ti as int], ii as int),
            ),
    {
        let ghost pre = self@.tables;
        let ghost t0 = pre[ti as int];
        proof {
            assert(t0 == self.tables@[ti as int]@);
        }
        self.tables[ti].indexes.remove(ii);
        proof {
            assert(self.tables@[ti as int]@.indexes =~= t0.indexes.remove(ii as int));
            assert(self@.tables[ti as int] =~~= without_index(t0, ii as int));
            assert(self@.tables =~~= pre.update(ti as int, without_index(t0, ii as int)));
        }
    }
}


/// A statement that succeeds preserves the store's well-formedness: unique
/// table, column and index names, and one cell per column in every row.
pub proof fn lemma_stmt_preserves_wf(ts: Seq<TableModel>, s: Statement)
    requires
        tables_wf(ts),
        stmt_apply(ts, s) is Ok,
    ensures
        tables_wf(stmt_apply(ts, s).unwrap()),
{
    match s {
        Statement::AddColumn { table, column } => {
            let ti = table_idx(ts, table@);
            lemma_idx_of(table_names(ts), table@);
            assert(table_names(ts)[ti] == ts[ti].name);
            let t0 = ts[ti];
            lemma_idx_of(t0.columns, column@);
            let t1 = with_column(t0, column@);
            assert forall|a: int, b: int| 0 <= a < b < t1.columns.len() implies #[trigger] t1.columns[a] != #[trigger] t1.columns[b] by {
                if b == t0.columns.len() as int {
                    assert(t0.columns[a] != column@);
                }
            }
            assert forall|k: int| 0 <= k < t1.rows.len() implies #[trigger] t1.rows[k].len() == t1.columns.len() by {
                assert(t1.rows[k] == t0.rows[k].push(CellModel::Null));
                assert(t0.rows[k].len() == t0.columns.len());
            }
            assert(table_wf(t1));
            lemma_update_keeps_wf(ts, ti, t1);
        },
        Statement::DropColumn { table, column } => {
            let ti = table_idx(ts, table@);
            lemma_idx_of(table_names(ts), table@);
            assert(table_names(ts)[ti] == ts[ti].name);
            let t0 = ts[ti];
            let ci = idx_of(t0.columns, column@);
            lemma_idx_of(t0.columns, column@);
            let t1 = without_column(t0, ci);
            assert forall|a: int, b: int| 0 <= a < b < t1.columns.len() implies #[trigger] t1.columns[a] != #[trigger] t1.columns[b] by {
                assert(t1.columns[a] == if a < ci {
                    t0.columns[a]
                } else {
                    t0.columns[a + 1]
                });
                assert(t1.columns[b] == if b < ci {
                    t0.columns[b]
                } else {
                    t0.columns[b + 1]
                });
            }
            assert forall|k: int| 0 <= k < t1.rows.len() implies #[trigger] t1.rows[k].len() == t1.columns.len() by {
                assert(t1.rows[k] == t0.rows[k].remove(ci));
                assert(t0.rows[k].len() == t0.columns.len());
            }
            assert(table_wf(t1));
            lemma_update_keeps_wf(ts, ti, t1);
        },
        Statement::AddColumnIfAbsent { table, column } => {
            let ti = table_idx(ts, table@);
            lemma_idx_of(table_names(ts), table@);
            assert(table_names(ts)[ti] == ts[ti].name);
            let t0 = ts[ti];
            lemma_idx_of(t0.columns, column@);
            if idx_of(t0.columns, column@) < 0 {
                let t1 = with_column(t0, column@);
                assert forall|a: int, b: int| 0 <= a < b < t1.columns.len() implies #[trigger] t1.columns[a] != #[trigger] t1.columns[b] by {
                    if b == t0.columns.len() as int {
                        assert(t0.columns[a] != column@);
                    }
                }
                assert forall|k: int| 0 <= k < t1.rows.len() implies #[trigger] t1.rows[k].len() == t1.columns.len() by {
                    assert(t1.rows[k] == t0.rows[k].push(CellModel::Null));
                    assert(t0.rows[k].len() == t0.columns.len());
                }
                assert(table_wf(t1));
                lemma_update_keeps_wf(ts, ti, t1);
            }
        },
        Statement::DropColumnIfPresent { table, column } => {
            let ti = table_idx(ts, table@);
            lemma_idx_of(table_names(ts), table@);
            assert(table_names(ts)[ti] == ts[ti].name);
            let t0 = ts[ti];
            let ci = idx_of(t0.columns, column@);
            lemma_idx_of(t0.columns, column@);
            if ci >= 0 {
                let t1 = without_column(t0, ci);
                assert forall|a: int, b: int| 0 <= a < b < t1.columns.len() implies #[trigger] t1.columns[a] != #[trigger] t1.columns[b] by {
                    assert(t1.columns[a] == if a < ci {
                        t0.columns[a]
                    } else {
                        t0.columns[a + 1]
                    });
                    assert(t1.columns[b] == if b < ci {
                        t0.columns[b]
                    } else {
                        t0.columns[b + 1]
                    });
                }
                assert forall|k: int| 0 <= k < t1.rows.len() implies #[trigger] t1.rows[k].len() == t1.columns.len() by {
                    assert(t1.rows[k] == t0.rows[k].remove(ci));
                    assert(t0.rows[k].len() == t0.columns.len());
                }
                assert(table_wf(t1));
                lemma_update_keeps_wf(ts, ti, t1);
            }
        },
        Statement::SplitColumn { table, source, show, podcast, anime, manga } => {
            let ti = table_idx(ts, table@);
            lemma_idx_of(table_names(ts), table@);
            assert(table_names(ts)[ti] == ts[ti].name);
            let t0 = ts[ti];
            let si = idx_of(t0.columns, source@);
            let i_show = idx_of(t0.columns, show@);
            let i_podcast = idx_of(t0.columns, podcast@);
            let i_anime = idx_of(t0.columns, anime@);
            let i_manga = idx_of(t0.columns, manga@);
            lemma_idx_of(t0.columns, source@);
            lemma_idx_of(t0.columns, show@);
            lemma_idx_of(t0.columns, podcast@);
            lemma_idx_of(t0.columns, anime@);
            lemma_idx_of(t0.columns, manga@);
            let t1 = with_split(t0, si, i_show, i_podcast, i_anime, i_manga);
            assert forall|k: int| 0 <= k < t1.rows.len() implies #[trigger] t1.rows[k].len() == t1.columns.len() by {
                assert(t1.rows[k] == split_row(t0.rows[k], si, i_show, i_podcast, i_anime, i_manga));
                assert(t0.rows[k].len() == t0.columns.len());
            }
            assert(table_wf(t1));
            lemma_update_keeps_wf(ts, ti, t1);
        },
        Statement::AddIndex { table, index } => {
            let ti = table_idx(ts, table@);
            lemma_idx_of(table_names(ts), table@);
            assert(table_names(ts)[ti] == ts[ti].name);
            let t0 = ts[ti];
            lemma_idx_of(t0.indexes, index@);
            let t1 = with_index(t0, index@);
            assert forall|a: int, b: int| 0 <= a < b < t1.indexes.len() implies #[trigger] t1.indexes[a] != #[trigger] t1.indexes[b] by {
                if b == t0.indexes.len() as int {
                    assert(t0.indexes[a] != index@);
                }
            }
            assert(table_wf(t1));
            lemma_update_keeps_wf(ts, ti, t1);
        },
        Statement::DropIndex { table, index } => {
            let ti = table_idx(ts, table@);
            lemma_idx_of(table_names(ts), table@);
            assert(table_names(ts)[ti] == ts[ti].name);
            let t0 = ts[ti];
            let ii = idx_of(t0.indexes, index@);
            lemma_idx_of(t0.indexes, index@);
            let t1 = without_index(t0, ii);
            assert forall|a: int, b: int| 0 <= a < b < t1.indexes.len() implies #[trigger] t1.indexes[a] != #[trigger] t1.indexes[b] by {
                assert(t1.indexes[a] == if a < ii {
                    t0.indexes[a]
                } else {
                    t0.indexes[a + 1]
                });
                assert(t1.indexes[b] == if b < ii {
                    t0.indexes[b]
                } else {
                    t0.indexes[b + 1]
                });
            }
            assert(table_wf(t1));
            lemma_update_keeps_wf(ts, ti, t1);
        },
    }
}

/// Replacing one table with a well-formed table of the same name keeps the
/// whole store well formed.
proof fn lemma_update_keeps_wf(ts: Seq<TableModel>, ti: int, t1: TableModel)
    requires
        tables_wf(ts),
        0 <= ti < ts.len(),
        table_wf(t1),
        t1.name == ts[ti].name,
    ensures
        tables_wf(ts.update(ti, t1)),
{
    let ts2 = ts.update(ti, t1);
    assert forall|a: int, b: int| 0 <= a < b < ts2.len() implies #[trigger] ts2[a].name != #[trigger] ts2[b].name by {
        assert(ts[a].name != ts[b].name);
    }
    assert forall|a: int| 0 <= a < ts2.len() implies table_wf(#[trigger] ts2[a]) by {
        if a != ti {
            assert(ts2[a] == ts[a]);
        }
    }
}

impl Store {
    /// Runs one statement against the live store.  The result and the new
    /// shape are exactly those of [`stmt_apply`]; a rejected statement
    /// changes nothing.
    pub fn apply(&mut self, s: &Statement) -> (r: Result<(), StoreError>)
        requires
            tables_wf(old(self)@.tables),
        ensures
            final(self)@.ledger == old(self)@.ledger,
            tables_wf(final(self)@.tables),
            ({
                let m = stmt_apply(old(self)@.tables, *s);
                match m {
                    Ok(ts) => r == Ok::<(), StoreError>(()) && final(self)@.tables == ts,
                    Err(e) => r == Err::<(), StoreError>(e) && final(self)@ == old(self)@,
                }
            }),
    {
        let ghost ts = self@.tables;
        match s {
            Statement::AddColumnIfAbsent { table, column } => {
                let ti = match self.find_table(table) {
                    None => {
                        return Err(StoreError::MissingTable);
                    },
                    Some(i) => i,
                };
                proof {
                    assert(self@.tables[ti as int] == self.tables@[ti as int]@);
                }
                if find_string(&self.tables[ti].columns, column).is_some() {
                    return Ok(());
                }
                self.do_add_column(ti, column);
                proof {
                    lemma_stmt_preserves_wf(ts, *s);
                }
                Ok(())
            },
            Statement::DropColumnIfPresent { table, column } => {
                let ti = match self.find_table(table) {
                    None => {
                        return Err(StoreError::MissingTable);
                    },
                    Some(i) => i,
                };
                proof {
                    assert(self@.tables[ti as int] == self.tables@[ti as int]@);
                }
                let ci = match find_string(&self.tables[ti].columns, column) {
                    None => {
                        return Ok(());
                    },
                    Some(i) => i,
                };
                proof {
                    lemma_idx_of(ts[ti as int].columns, column@);
                }
                self.do_drop_column(ti, ci);
                proof {
                    lemma_stmt_preserves_wf(ts, *s);
                }
                Ok(())
            },
            Statement::AddColumn { table, column } => {
                let ti = match self.find_table(table) {
                    None => {
                        return Err(StoreError::MissingTable);
                    },
                    Some(i) => i,
                };
                proof {
                    assert(self@.tables[ti as int] == self.tables@[ti as int]@);
                }
                if find_string(&self.tables[ti].columns, column).is_some() {
                    return Err(StoreError::DuplicateColumn);
                }
                self.do_add_column(ti, column);
                proof {
                    lemma_stmt_preserves_wf(ts, *s);
                }
                Ok(())
            },
            Statement::DropColumn { table, column } => {
                let ti = match self.find_table(table) {
                    None => {
                        return Err(StoreError::MissingTable);
                    },
                    Some(i) => i,
                };
                proof {
                    assert(self@.tables[ti as int] == self.tables@[ti as int]@);
                }
                let ci = match find_string(&self.tables[ti].columns, column) {
                    None => {
                        return Err(StoreError::MissingColumn);
                    },
                    Some(i) => i,
                };
                proof {
                    lemma_idx_of(ts[ti as int].columns, column@);
                }
                self.do_drop_column(ti, ci);
                proof {
                    lemma_stmt_preserves_wf(ts, *s);
                }
                Ok(())
            },
            Statement::SplitColumn { table, source, show, podcast, anime, manga } => {
                let ti = match self.find_table(table) {
                    None => {
                        return Err(StoreError::MissingTable);
                    },
                    Some(i) => i,
                };
                proof {
                    assert(self@.tables[ti as int] == self.tables@[ti as int]@);
                }
                let si = find_string(&self.tables[ti].columns, source);
                let c_show = find_string(&self.tables[ti].columns, show);
                let c_podcast = find_string(&self.tables[ti].columns, podcast);
                let c_anime = find_string(&self.tables[ti].columns, anime);
                let c_manga = find_string(&self.tables[ti].columns, manga);
                match (si, c_show, c_podcast, c_anime, c_manga) {
                    (Some(a), Some(b), Some(c), Some(d), Some(e)) => {
                        proof {
                            lemma_idx_of(ts[ti as int].columns, source@);
                            lemma_idx_of(ts[ti as int].columns, show@);
                            lemma_idx_of(ts[ti as int].columns, podcast@);
                            lemma_idx_of(ts[ti as int].columns, anime@);
                            lemma_idx_of(ts[ti as int].columns, manga@);
                        }
                        self.do_split(ti, a, b, c, d, e);
                        proof {
                            lemma_stmt_preserves_wf(ts, *s);
                        }
                        Ok(())
                    },
                    _ => Err(StoreError::MissingColumn),
                }
            },
            Statement::AddIndex { table, index } => {
                let ti = match self.find_table(table) {
                    None => {
                        return Err(StoreError::MissingTable);
                    },
                    Some(i) => i,
                };
                proof {
                    assert(self@.tables[ti as int] == self.tables@[ti as int]@);
                }
                if find_string(&self.tables[ti].indexes, index).is_some() {
                    return Err(StoreError::DuplicateIndex);
                }
                self.do_add_index(ti, index);
                proof {
                    lemma_stmt_preserves_wf(ts, *s);
                }
                Ok(())
            },
            Statement::DropIndex { table, index } => {
                let ti = match self.find_table(table) {
                    None => {
                        return Err(StoreError::MissingTable);
                    },
                    Some(i) => i,
                };
                proof {
                    assert(self@.tables[ti as int] == self.tables@[ti as int]@);
                }
                let ii = match find_string(&self.tables[ti].indexes, index) {
                    None => {
                        return Err(StoreError::MissingIndex);
                    },
                    Some(i) => i,
                };
                proof {
                    lemma_idx_of(ts[ti as int].indexes, index@);
                }
                self.do_drop_index(ti, ii);
                proof {
                    lemma_stmt_preserves_wf(ts, *s);
                }
                Ok(())
            },
        }
    }
}

} // verus!
