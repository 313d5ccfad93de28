//! The catalogue's data-rewriting unit: normalising the polymorphic
//! `extra_information` column of the `seen` table into one column per
//! variant.
//!
//! The unit follows the additive-first pattern: add the four variant columns,
//! backfill them from the legacy column's tagged value, and only then drop
//! the legacy column.  It is guarded twice over.  The unit's precondition —
//! the legacy column still exists — skips the whole unit once the
//! transformation is complete.  And each schema statement carries its own
//! guard (add-if-absent, drop-if-present), so from any half-applied state a
//! crash can leave — some variant columns already added, the backfill already
//! run — a re-run skips what is done, finishes the rest, and never repeats a
//! destructive step or trips over a duplicate column.  The forward step
//! discards the legacy column, so the reverse direction is a documented
//! no-op.

use vstd::prelude::*;

use crate::cell::{split_for_tag, CellModel, VariantTag};
use crate::store::{
    has_column_model, idx_of, lemma_idx_of, lemma_idx_of_first, stmt_apply, table_idx, table_names,
    tables_wf,
    with_column, with_split, without_column, Statement, StoreError, TableModel,
};
use crate::unit::{cond_holds, steps_model, unit_up_model, Condition, MigrationUnit, Reversibility};

verus! {

/// A unit that splits the tagged-variant column `src` of table `tn` into the
/// four variant columns, then drops `src`.  The unit is guarded by `src`
/// still existing, every schema statement carries its own guard, and the
/// forward step is irreversible by design.
pub open spec fn is_split_unit(
    u: MigrationUnit,
    tn: Seq<char>,
    src: Seq<char>,
    c_show: Seq<char>,
    c_podcast: Seq<char>,
    c_anime: Seq<char>,
    c_manga: Seq<char>,
) -> bool {
    &&& (u.precondition matches Condition::HasColumn(t, c) && t@ == tn && c@ == src)
    &&& u.up_steps@.len() == 6
    &&& (u.up_steps@[0] matches Statement::AddColumnIfAbsent { table, column } && table@ == tn
        && column@ == c_show)
    &&& (u.up_steps@[1] matches Statement::AddColumnIfAbsent { table, column } && table@ == tn
        && column@ == c_podcast)
    &&& (u.up_steps@[2] matches Statement::AddColumnIfAbsent { table, column } && table@ == tn
        && column@ == c_anime)
    &&& (u.up_steps@[3] matches Statement::AddColumnIfAbsent { table, column } && table@ == tn
        && column@ == c_manga)
    &&& (u.up_steps@[4] matches Statement::SplitColumn {
        table,
        source,
        show,
        podcast,
        anime,
        manga,
    } && table@ == tn && source@ == src && show@ == c_show && podcast@ == c_podcast && anime@
        == c_anime && manga@ == c_manga)
    &&& (u.up_steps@[5] matches Statement::DropColumnIfPresent { table, column } && table@ == tn
        && column@ == src)
    &&& u.down_steps@.len() == 0
    &&& u.reversibility == Reversibility::DocumentedNoOp
}

/// Builds a tagged-variant split unit: add the four variant columns (each
/// guarded, skipped where it already exists), backfill them from `source`,
/// drop `source` (guarded, skipped where already gone); the whole unit
/// guarded by `source` still existing.
pub fn split_unit(
    name: String,
    table: String,
    source: String,
    show: String,
    podcast: String,
    anime: String,
    manga: String,
) -> (r: MigrationUnit)
    ensures
        r.name@ == name@,
        is_split_unit(r, table@, source@, show@, podcast@, anime@, manga@),
{
    let mut up: Vec<Statement> = Vec::new();
    up.push(Statement::AddColumnIfAbsent { table: table.clone(), column: show.clone() });
    up.push(Statement::AddColumnIfAbsent { table: table.clone(), column: podcast.clone() });
    up.push(Statement::AddColumnIfAbsent { table: table.clone(), column: anime.clone() });
    up.push(Statement::AddColumnIfAbsent { table: table.clone(), column: manga.clone() });
    up.push(
        Statement::SplitColumn {
            table: table.clone(),
            source: source.clone(),
            show,
            podcast,
            anime,
            manga,
        },
    );
    up.push(Statement::DropColumnIfPresent { table: table.clone(), column: source.clone() });
    MigrationUnit {
        name,
        precondition: Condition::HasColumn(table, source),
        up_steps: up,
        down_steps: Vec::new(),
        reversibility: Reversibility::DocumentedNoOp,
    }
}

/// The normalisation unit for the `seen` table: splits the legacy
/// `extra_information` column into `show_extra_information`,
/// `podcast_extra_information`, `anime_extra_information` and
/// `manga_extra_information`, then drops the legacy column.
pub fn normalize_seen_unit() -> (r: MigrationUnit)
    ensures
        r.name@ == "m20240202_0_normalize_seen_data"@,
        is_split_unit(
            r,
            "seen"@,
            "extra_information"@,
            "show_extra_information"@,
            "podcast_extra_information"@,
            "anime_extra_information"@,
            "manga_extra_information"@,
        ),
{
    split_unit(
        "m20240202_0_normalize_seen_data".to_owned(),
        "seen".to_owned(),
        "extra_information".to_owned(),
        "show_extra_information".to_owned(),
        "podcast_extra_information".to_owned(),
        "anime_extra_information".to_owned(),
        "manga_extra_information".to_owned(),
    )
}


/// The cell a variant column holds after the backfill: the payload when the
/// source cell carried that column's tag, null otherwise (the column was
/// freshly added as null and the backfill never wrote it).
pub open spec fn backfilled_cell(o: Option<Seq<char>>) -> CellModel {
    match o {
        Some(p) => CellModel::Doc(p),
        None => CellModel::Null,
    }
}

/// One row after the whole split unit ran: the four variant cells stand at
/// the end (the legacy cell is gone, shifting everything after it left by
/// one), each equal to the source cell's projection for its tag, and every
/// other cell is carried over unchanged.
pub open spec fn split_unit_row_ok(
    t0: TableModel,
    t1: TableModel,
    si: int,
    n0: int,
    k: int,
) -> bool {
    let v = t0.rows[k][si];
    &&& t1.rows[k].len() == n0 + 3
    &&& t1.rows[k][n0 - 1] == backfilled_cell(split_for_tag(v, VariantTag::Show))
    &&& t1.rows[k][n0] == backfilled_cell(split_for_tag(v, VariantTag::Podcast))
    &&& t1.rows[k][n0 + 1] == backfilled_cell(split_for_tag(v, VariantTag::Anime))
    &&& t1.rows[k][n0 + 2] == backfilled_cell(split_for_tag(v, VariantTag::Manga))
    &&& (forall|j: int| 0 <= j < si ==> #[trigger] t1.rows[k][j] == t0.rows[k][j])
    &&& (forall|j: int| si <= j < n0 - 1 ==> #[trigger] t1.rows[k][j] == t0.rows[k][j + 1])
}

/// Backfill correctness: on a well-formed store whose table still has the
/// legacy column and none of the four variant columns, the split unit
/// succeeds with all six statements executed, touches no other table, and
/// leaves the table with the legacy column gone, the four variant columns
/// appended, and every row projected cell for cell: each variant column
/// equals the original payload for its matching tag and is null for every
/// other tag; all remaining cells are carried over.
pub proof fn lemma_backfill_correctness(
    ts: Seq<TableModel>,
    u: MigrationUnit,
    tn: Seq<char>,
    src: Seq<char>,
    c_show: Seq<char>,
    c_podcast: Seq<char>,
    c_anime: Seq<char>,
    c_manga: Seq<char>,
)
    requires
        tables_wf(ts),
        is_split_unit(u, tn, src, c_show, c_podcast, c_anime, c_manga),
        has_column_model(ts, tn, src),
        !has_column_model(ts, tn, c_show),
        !has_column_model(ts, tn, c_podcast),
        !has_column_model(ts, tn, c_anime),
        !has_column_model(ts, tn, c_manga),
        c_show != c_podcast,
        c_show != c_anime,
        c_show != c_manga,
        c_podcast != c_anime,
        c_podcast != c_manga,
        c_anime != c_manga,
    ensures
        ({
            let ti = table_idx(ts, tn);
            let t0 = ts[ti];
            let si = idx_of(t0.columns, src);
            let n0 = t0.columns.len() as int;
            let r = unit_up_model(ts, u);
            let t1 = r.0[ti];
            &&& r.1 == Ok::<nat, StoreError>(6nat)
            &&& r.0.len() == ts.len()
            &&& (forall|k: int| 0 <= k < ts.len() && k != ti ==> #[trigger] r.0[k] == ts[k])
            &&& !has_column_model(r.0, tn, src)
            &&& t1.name == tn
            &&& t1.columns.len() == n0 + 3
            &&& t1.columns[n0 - 1] == c_show
            &&& t1.columns[n0] == c_podcast
            &&& t1.columns[n0 + 1] == c_anime
            &&& t1.columns[n0 + 2] == c_manga
            &&& (forall|j: int| 0 <= j < si ==> #[trigger] t1.columns[j] == t0.columns[j])
            &&& (forall|j: int| si <= j < n0 - 1 ==> #[trigger] t1.columns[j] == t0.columns[j + 1])
            &&& t1.rows.len() == t0.rows.len()
            &&& (forall|k: int|
                0 <= k < t0.rows.len() ==> #[trigger] split_unit_row_ok(t0, t1, si, n0, k))
        }),
{
    let ti = table_idx(ts, tn);
    lemma_idx_of(table_names(ts), tn);
    assert(table_names(ts)[ti] == ts[ti].name);
    let t0 = ts[ti];
    let n0 = t0.columns.len() as int;
    lemma_idx_of(t0.columns, src);
    let si = idx_of(t0.columns, src);
    lemma_idx_of(t0.columns, c_show);
    lemma_idx_of(t0.columns, c_podcast);
    lemma_idx_of(t0.columns, c_anime);
    lemma_idx_of(t0.columns, c_manga);
    // the variant names never stand in the original columns, and differ from
    // the source, which does
    assert(c_show != src && c_podcast != src && c_anime != src && c_manga != src) by {
        assert(t0.columns[si] == src);
    }
    assert(cond_holds(u.precondition, ts));

    // step 1: add the show column
    let ta = with_column(t0, c_show);
    let tsa = ts.update(ti, ta);
    assert(stmt_apply(ts, u.up_steps@[0]) == Ok::<Seq<TableModel>, StoreError>(tsa));
    assert(table_names(tsa) =~= table_names(ts));
    assert(ta.columns == t0.columns.push(c_show));

    // step 2: add the podcast column
    lemma_push_keeps_absent(t0.columns, c_show, c_podcast);
    let tb = with_column(ta, c_podcast);
    let tsb = tsa.update(ti, tb);
    assert(stmt_apply(tsa, u.up_steps@[1]) == Ok::<Seq<TableModel>, StoreError>(tsb));
    assert(table_names(tsb) =~= table_names(ts));
    assert(tsb =~= ts.update(ti, tb));

    // step 3: add the anime column
    lemma_push_keeps_absent(t0.columns, c_show, c_anime);
    lemma_push_keeps_absent(ta.columns, c_podcast, c_anime);
    let tc = with_column(tb, c_anime);
    let tsc = tsb.update(ti, tc);
    assert(stmt_apply(tsb, u.up_steps@[2]) == Ok::<Seq<TableModel>, StoreError>(tsc));
    assert(table_names(tsc) =~= table_names(ts));
    assert(tsc =~= ts.update(ti, tc));

    // step 4: add the manga column
    lemma_push_keeps_absent(t0.columns, c_show, c_manga);
    lemma_push_keeps_absent(ta.columns, c_podcast, c_manga);
    lemma_push_keeps_absent(tb.columns, c_anime, c_manga);
    let td = with_column(tc, c_manga);
    let tsd = tsc.update(ti, td);
    assert(stmt_apply(tsc, u.up_steps@[3]) == Ok::<Seq<TableModel>, StoreError>(tsd));
    assert(table_names(tsd) =~= table_names(ts));
    assert(tsd =~= ts.update(ti, td));
    assert(td.columns =~= t0.columns.push(c_show).push(c_podcast).push(c_anime).push(c_manga));
    assert(td.columns.len() == n0 + 4);

    // step 5: the backfill; the source keeps its first position, the four
    // variant columns stand at the end
    assert(td.columns[si] == src);
    lemma_idx_of_first(td.columns, src, si);
    assert(forall|j: int| 0 <= j < n0 ==> #[trigger] td.columns[j] == t0.columns[j]);
    lemma_idx_of_first(td.columns, c_show, n0);
    lemma_idx_of_first(td.columns, c_podcast, n0 + 1);
    lemma_idx_of_first(td.columns, c_anime, n0 + 2);
    lemma_idx_of_first(td.columns, c_manga, n0 + 3);
    let te = with_split(td, si, n0, n0 + 1, n0 + 2, n0 + 3);
    let tse = tsd.update(ti, te);
    assert(stmt_apply(tsd, u.up_steps@[4]) == Ok::<Seq<TableModel>, StoreError>(tse));
    assert(table_names(tse) =~= table_names(ts));
    assert(tse =~= ts.update(ti, te));

    // step 6: drop the legacy column
    assert(te.columns == td.columns);
    lemma_idx_of_first(te.columns, src, si);
    let tf = without_column(te, si);
    let tsf = tse.update(ti, tf);
    assert(stmt_apply(tse, u.up_steps@[5]) == Ok::<Seq<TableModel>, StoreError>(tsf));
    assert(tsf =~= ts.update(ti, tf));

    // the unit ran all six statements
    let steps = u.up_steps@;
    assert(steps_model(ts, steps) == steps_model(tsa, steps.skip(1)));
    assert(steps_model(tsa, steps.skip(1)) == steps_model(tsb, steps.skip(2))) by {
        assert(steps.skip(1)[0] == steps[1]);
        assert(steps.skip(1).skip(1) =~= steps.skip(2));
    }
    assert(steps_model(tsb, steps.skip(2)) == steps_model(tsc, steps.skip(3))) by {
        assert(steps.skip(2)[0] == steps[2]);
        assert(steps.skip(2).skip(1) =~= steps.skip(3));
    }
    assert(steps_model(tsc, steps.skip(3)) == steps_model(tsd, steps.skip(4))) by {
        assert(steps.skip(3)[0] == steps[3]);
        assert(steps.skip(3).skip(1) =~= steps.skip(4));
    }
    assert(steps_model(tsd, steps.skip(4)) == steps_model(tse, steps.skip(5))) by {
        assert(steps.skip(4)[0] == steps[4]);
        assert(steps.skip(4).skip(1) =~= steps.skip(5));
    }
    assert(steps_model(tse, steps.skip(5)) == steps_model(tsf, steps.skip(6))) by {
        assert(steps.skip(5)[0] == steps[5]);
        assert(steps.skip(5).skip(1) =~= steps.skip(6));
    }
    assert(steps.skip(6) =~= Seq::<Statement>::empty());
    assert(steps_model(tsf, steps.skip(6)) == (tsf, Ok::<(), StoreError>(())));
    assert(steps_model(ts, steps) == (tsf, Ok::<(), StoreError>(())));
    assert(unit_up_model(ts, u).0 == tsf);
    assert(unit_up_model(ts, u).1 == Ok::<nat, StoreError>(6nat));

    // the final table's columns
    let t1 = tf;
    assert(t1.columns =~= td.columns.remove(si));
    assert forall|j: int| 0 <= j < si implies #[trigger] t1.columns[j] == t0.columns[j] by {}
    assert(t1.columns[n0 - 1] == c_show);

    // the legacy column is gone
    assert forall|j: int| 0 <= j < t1.columns.len() implies t1.columns[j] != src by {
        if j < si {
        } else if j < n0 - 1 {
            assert(t1.columns[j] == t0.columns[j + 1]);
        } else {
            assert(t1.columns[j] == td.columns[j + 1]);
        }
    }
    lemma_idx_of(t1.columns, src);
    assert(table_idx(tsf, tn) == ti) by {
        assert(table_names(tsf) =~= table_names(ts));
    }
    assert(!has_column_model(tsf, tn, src));

    // the rows, cell for cell
    assert forall|k: int| 0 <= k < t0.rows.len() implies #[trigger] split_unit_row_ok(
        t0,
        t1,
        si,
        n0,
        k,
    ) by {
        let r0 = t0.rows[k];
        assert(r0.len() == n0);
        let ra = ta.rows[k];
        assert(ra == r0.push(CellModel::Null));
        let rb = tb.rows[k];
        assert(rb == ra.push(CellModel::Null));
        let rc = tc.rows[k];
        assert(rc == rb.push(CellModel::Null));
        let rd = td.rows[k];
        assert(rd == rc.push(CellModel::Null));
        assert(rd.len() == n0 + 4);
        assert(rd[si] == r0[si]);
        let v = r0[si];
        let re = te.rows[k];
        assert(re == crate::store::split_row(rd, si, n0, n0 + 1, n0 + 2, n0 + 3));
        let w1 = crate::store::write_cell(rd, n0, split_for_tag(v, VariantTag::Show));
        let w2 = crate::store::write_cell(w1, n0 + 1, split_for_tag(v, VariantTag::Podcast));
        let w3 = crate::store::write_cell(w2, n0 + 2, split_for_tag(v, VariantTag::Anime));
        let w4 = crate::store::write_cell(w3, n0 + 3, split_for_tag(v, VariantTag::Manga));
        assert(re == w4);
        assert(re.len() == n0 + 4);
        assert(re[n0] == backfilled_cell(split_for_tag(v, VariantTag::Show))) by {
            assert(rd[n0] == CellModel::Null);
        }
        assert(re[n0 + 1] == backfilled_cell(split_for_tag(v, VariantTag::Podcast))) by {
            assert(rd[n0 + 1] == CellModel::Null);
        }
        assert(re[n0 + 2] == backfilled_cell(split_for_tag(v, VariantTag::Anime))) by {
            assert(rd[n0 + 2] == CellModel::Null);
        }
        assert(re[n0 + 3] == backfilled_cell(split_for_tag(v, VariantTag::Manga))) by {
            assert(rd[n0 + 3] == CellModel::Null);
        }
        assert(forall|j: int| 0 <= j < n0 ==> #[trigger] re[j] == rd[j]);
        let rf = t1.rows[k];
        assert(rf == re.remove(si));
        assert(rf.len() == n0 + 3);
        assert forall|j: int| 0 <= j < si implies #[trigger] rf[j] == r0[j] by {
            assert(rf[j] == re[j]);
            assert(rd[j] == r0[j]);
        }
        assert forall|j: int| si <= j < n0 - 1 implies #[trigger] rf[j] == r0[j + 1] by {
            assert(rf[j] == re[j + 1]);
            assert(rd[j + 1] == r0[j + 1]);
        }
        assert(rf[n0 - 1] == re[n0]);
        assert(rf[n0] == re[n0 + 1]);
        assert(rf[n0 + 1] == re[n0 + 2]);
        assert(rf[n0 + 2] == re[n0 + 3]);
    }
}

/// A name absent from a column list, and different from a pushed name, is
/// still absent after the push.
proof fn lemma_push_keeps_absent(cols: Seq<Seq<char>>, pushed: Seq<char>, c: Seq<char>)
    requires
        idx_of(cols, c) < 0,
        c != pushed,
    ensures
        idx_of(cols.push(pushed), c) < 0,
{
    lemma_idx_of(cols, c);
    let cols2 = cols.push(pushed);
    assert forall|k: int| 0 <= k < cols2.len() implies cols2[k] != c by {
        if k < cols.len() {
            assert(cols2[k] == cols[k]);
        }
    }
    lemma_idx_of(cols2, c);
    if cols2.contains(c) {
        let k = choose|k: int| 0 <= k < cols2.len() && cols2[k] == c;
    }
}

/// Appending one more statement to a run that succeeded applies it to the
/// state the run reached.
proof fn lemma_steps_model_snoc(ts: Seq<TableModel>, steps: Seq<Statement>, st: Statement)
    requires
        steps_model(ts, steps).1 is Ok,
        stmt_apply(steps_model(ts, steps).0, st) is Ok,
    ensures
        steps_model(ts, steps.push(st)) == (
            stmt_apply(steps_model(ts, steps).0, st).unwrap(),
            Ok::<(), StoreError>(()),
        ),
    decreases steps.len(),
{
    if steps.len() == 0 {
        assert(steps_model(ts, steps) == (ts, Ok::<(), StoreError>(())));
        assert(steps.push(st)[0] == st);
        assert(steps.push(st).skip(1) =~= Seq::<Statement>::empty());
        let ts2 = stmt_apply(ts, st).unwrap();
        assert(steps_model(ts2, steps.push(st).skip(1)) == (ts2, Ok::<(), StoreError>(())));
        assert(steps_model(ts, steps.push(st)) == (ts2, Ok::<(), StoreError>(())));
    } else {
        assert(steps.push(st)[0] == steps[0]);
        assert(steps.push(st).skip(1) =~= steps.skip(1).push(st));
        match stmt_apply(ts, steps[0]) {
            Ok(ts2) => {
                lemma_steps_model_snoc(ts2, steps.skip(1), st);
            },
            Err(_) => {},
        }
    }
}

/// Re-run safety, the recovery property of the split unit: a crash can stop
/// the unit after any number of its statements; the states this leaves are
/// exactly the results of the statement prefixes, named here `s1` to `s5`
/// (`s6` is the completed state).  From every one of them — the legacy
/// column coexisting with some or all variant columns, backfilled or not —
/// re-running the unit succeeds, never errors on a duplicate or missing
/// column, never repeats a destructive step on data it would lose, and ends
/// in exactly the state a single uninterrupted run produces.
pub proof fn lemma_split_unit_rerun_safe(
    ts: Seq<TableModel>,
    u: MigrationUnit,
    tn: Seq<char>,
    src: Seq<char>,
    c_show: Seq<char>,
    c_podcast: Seq<char>,
    c_anime: Seq<char>,
    c_manga: Seq<char>,
)
    requires
        tables_wf(ts),
        is_split_unit(u, tn, src, c_show, c_podcast, c_anime, c_manga),
        has_column_model(ts, tn, src),
        !has_column_model(ts, tn, c_show),
        !has_column_model(ts, tn, c_podcast),
        !has_column_model(ts, tn, c_anime),
        !has_column_model(ts, tn, c_manga),
        c_show != c_podcast,
        c_show != c_anime,
        c_show != c_manga,
        c_podcast != c_anime,
        c_podcast != c_manga,
        c_anime != c_manga,
    ensures
        ({
            let ti = table_idx(ts, tn);
            let t0 = ts[ti];
            let si = idx_of(t0.columns, src);
            let n0 = t0.columns.len() as int;
            let ta = with_column(t0, c_show);
            let tb = with_column(ta, c_podcast);
            let tc = with_column(tb, c_anime);
            let td = with_column(tc, c_manga);
            let te = with_split(td, si, n0, n0 + 1, n0 + 2, n0 + 3);
            let tf = without_column(te, si);
            let s1 = ts.update(ti, ta);
            let s2 = ts.update(ti, tb);
            let s3 = ts.update(ti, tc);
            let s4 = ts.update(ti, td);
            let s5 = ts.update(ti, te);
            let s6 = ts.update(ti, tf);
            &&& steps_model(ts, u.up_steps@.take(1)) == (s1, Ok::<(), StoreError>(()))
            &&& steps_model(ts, u.up_steps@.take(2)) == (s2, Ok::<(), StoreError>(()))
            &&& steps_model(ts, u.up_steps@.take(3)) == (s3, Ok::<(), StoreError>(()))
            &&& steps_model(ts, u.up_steps@.take(4)) == (s4, Ok::<(), StoreError>(()))
            &&& steps_model(ts, u.up_steps@.take(5)) == (s5, Ok::<(), StoreError>(()))
            &&& unit_up_model(ts, u) == (s6, Ok::<nat, StoreError>(6nat))
            &&& unit_up_model(s1, u) == (s6, Ok::<nat, StoreError>(6nat))
            &&& unit_up_model(s2, u) == (s6, Ok::<nat, StoreError>(6nat))
            &&& unit_up_model(s3, u) == (s6, Ok::<nat, StoreError>(6nat))
            &&& unit_up_model(s4, u) == (s6, Ok::<nat, StoreError>(6nat))
            &&& unit_up_model(s5, u) == (s6, Ok::<nat, StoreError>(6nat))
            &&& unit_up_model(s6, u) == (s6, Ok::<nat, StoreError>(0nat))
        }),
{
    let ti = table_idx(ts, tn);
    lemma_idx_of(table_names(ts), tn);
    assert(table_names(ts)[ti] == ts[ti].name);
    let t0 = ts[ti];
    let n0 = t0.columns.len() as int;
    lemma_idx_of(t0.columns, src);
    let si = idx_of(t0.columns, src);
    lemma_idx_of(t0.columns, c_show);
    lemma_idx_of(t0.columns, c_podcast);
    lemma_idx_of(t0.columns, c_anime);
    lemma_idx_of(t0.columns, c_manga);
    assert(c_show != src && c_podcast != src && c_anime != src && c_manga != src) by {
        assert(t0.columns[si] == src);
    }
    let steps = u.up_steps@;

    // the clean chain, one state per statement
    let ta = with_column(t0, c_show);
    let tb = with_column(ta, c_podcast);
    let tc = with_column(tb, c_anime);
    let td = with_column(tc, c_manga);
    let te = with_split(td, si, n0, n0 + 1, n0 + 2, n0 + 3);
    let tf = without_column(te, si);
    let s1 = ts.update(ti, ta);
    let s2 = ts.update(ti, tb);
    let s3 = ts.update(ti, tc);
    let s4 = ts.update(ti, td);
    let s5 = ts.update(ti, te);
    let s6 = ts.update(ti, tf);

    // where each name stands in each chain table
    assert(ta.columns =~= t0.columns.push(c_show));
    assert(tb.columns =~= t0.columns.push(c_show).push(c_podcast));
    assert(tc.columns =~= t0.columns.push(c_show).push(c_podcast).push(c_anime));
    assert(td.columns =~= t0.columns.push(c_show).push(c_podcast).push(c_anime).push(c_manga));
    assert(te.columns == td.columns);
    lemma_idx_of_first(ta.columns, src, si);
    lemma_idx_of_first(tb.columns, src, si);
    lemma_idx_of_first(tc.columns, src, si);
    lemma_idx_of_first(td.columns, src, si);
    lemma_idx_of_first(te.columns, src, si);
    lemma_idx_of_first(ta.columns, c_show, n0);
    lemma_idx_of_first(tb.columns, c_show, n0);
    lemma_idx_of_first(tc.columns, c_show, n0);
    lemma_idx_of_first(td.columns, c_show, n0);
    lemma_idx_of_first(tb.columns, c_podcast, n0 + 1);
    lemma_idx_of_first(tc.columns, c_podcast, n0 + 1);
    lemma_idx_of_first(td.columns, c_podcast, n0 + 1);
    lemma_idx_of_first(tc.columns, c_anime, n0 + 2);
    lemma_idx_of_first(td.columns, c_anime, n0 + 2);
    lemma_idx_of_first(td.columns, c_manga, n0 + 3);

    // table lookups are stable: no statement renames a table
    assert(table_names(s1) =~= table_names(ts));
    assert(table_names(s2) =~= table_names(ts));
    assert(table_names(s3) =~= table_names(ts));
    assert(table_names(s4) =~= table_names(ts));
    assert(table_names(s5) =~= table_names(ts));
    assert(table_names(s6) =~= table_names(ts));

    // successive updates of the same table collapse
    assert(s1.update(ti, tb) =~= s2);
    assert(s2.update(ti, tc) =~= s3);
    assert(s3.update(ti, td) =~= s4);
    assert(s4.update(ti, te) =~= s5);
    assert(s5.update(ti, tf) =~= s6);

    // what each statement does to each chain state
    assert(stmt_apply(ts, steps[0]) == Ok::<Seq<TableModel>, StoreError>(s1));
    assert(stmt_apply(s1, steps[1]) == Ok::<Seq<TableModel>, StoreError>(s2)) by {
        lemma_push_keeps_absent(t0.columns, c_show, c_podcast);
    }
    assert(stmt_apply(s2, steps[2]) == Ok::<Seq<TableModel>, StoreError>(s3)) by {
        lemma_push_keeps_absent(t0.columns, c_show, c_anime);
        lemma_push_keeps_absent(ta.columns, c_podcast, c_anime);
    }
    assert(stmt_apply(s3, steps[3]) == Ok::<Seq<TableModel>, StoreError>(s4)) by {
        lemma_push_keeps_absent(t0.columns, c_show, c_manga);
        lemma_push_keeps_absent(ta.columns, c_podcast, c_manga);
        lemma_push_keeps_absent(tb.columns, c_anime, c_manga);
    }
    assert(stmt_apply(s4, steps[4]) == Ok::<Seq<TableModel>, StoreError>(s5));
    assert(stmt_apply(s5, steps[5]) == Ok::<Seq<TableModel>, StoreError>(s6));
    // the guarded adds skip where their column already stands
    assert(stmt_apply(s1, steps[0]) == Ok::<Seq<TableModel>, StoreError>(s1));
    assert(stmt_apply(s2, steps[0]) == Ok::<Seq<TableModel>, StoreError>(s2));
    assert(stmt_apply(s3, steps[0]) == Ok::<Seq<TableModel>, StoreError>(s3));
    assert(stmt_apply(s4, steps[0]) == Ok::<Seq<TableModel>, StoreError>(s4));
    assert(stmt_apply(s5, steps[0]) == Ok::<Seq<TableModel>, StoreError>(s5));
    assert(stmt_apply(s2, steps[1]) == Ok::<Seq<TableModel>, StoreError>(s2));
    assert(stmt_apply(s3, steps[1]) == Ok::<Seq<TableModel>, StoreError>(s3));
    assert(stmt_apply(s4, steps[1]) == Ok::<Seq<TableModel>, StoreError>(s4));
    assert(stmt_apply(s5, steps[1]) == Ok::<Seq<TableModel>, StoreError>(s5));
    assert(stmt_apply(s3, steps[2]) == Ok::<Seq<TableModel>, StoreError>(s3));
    assert(stmt_apply(s4, steps[2]) == Ok::<Seq<TableModel>, StoreError>(s4));
    assert(stmt_apply(s5, steps[2]) == Ok::<Seq<TableModel>, StoreError>(s5));
    assert(stmt_apply(s4, steps[3]) == Ok::<Seq<TableModel>, StoreError>(s4));
    assert(stmt_apply(s5, steps[3]) == Ok::<Seq<TableModel>, StoreError>(s5));
    // re-running the backfill on already-backfilled rows rewrites the same
    // payloads: the split is idempotent
    assert(stmt_apply(s5, steps[4]) == Ok::<Seq<TableModel>, StoreError>(s5)) by {
        let again = with_split(te, si, n0, n0 + 1, n0 + 2, n0 + 3);
        assert forall|k: int| 0 <= k < te.rows.len() implies #[trigger] again.rows[k] == te.rows[k] by {
            let rd = td.rows[k];
            let re = te.rows[k];
            assert(re == crate::store::split_row(rd, si, n0, n0 + 1, n0 + 2, n0 + 3));
            assert(t0.rows[k].len() == n0);
            assert(rd.len() == n0 + 4);
            assert(re[si] == rd[si]);
            let v = rd[si];
            let w1 = crate::store::write_cell(re, n0, split_for_tag(v, VariantTag::Show));
            assert(w1 =~= re);
            let w2 = crate::store::write_cell(w1, n0 + 1, split_for_tag(v, VariantTag::Podcast));
            assert(w2 =~= re);
            let w3 = crate::store::write_cell(w2, n0 + 2, split_for_tag(v, VariantTag::Anime));
            assert(w3 =~= re);
            let w4 = crate::store::write_cell(w3, n0 + 3, split_for_tag(v, VariantTag::Manga));
            assert(w4 =~= re);
            assert(again.rows[k] == crate::store::split_row(re, si, n0, n0 + 1, n0 + 2, n0 + 3));
            assert(crate::store::split_row(re, si, n0, n0 + 1, n0 + 2, n0 + 3) == w4);
        }
        assert(again =~~= te);
        assert(s5.update(ti, again) =~= s5);
    }

    // the precondition holds until the drop ran, and not after
    assert(cond_holds(u.precondition, ts));
    assert(cond_holds(u.precondition, s1));
    assert(cond_holds(u.precondition, s2));
    assert(cond_holds(u.precondition, s3));
    assert(cond_holds(u.precondition, s4));
    assert(cond_holds(u.precondition, s5));
    assert(tf.columns =~= td.columns.remove(si));
    assert(!cond_holds(u.precondition, s6)) by {
        assert forall|j: int| 0 <= j < tf.columns.len() implies tf.columns[j] != src by {
            if j < si {
            } else if j < n0 - 1 {
                assert(tf.columns[j] == t0.columns[j + 1]);
            } else {
                assert(tf.columns[j] == td.columns[j + 1]);
            }
        }
        lemma_idx_of(tf.columns, src);
    }

    // skip-offset bookkeeping for the folds
    assert(steps.skip(1)[0] == steps[1]);
    assert(steps.skip(1).skip(1) =~= steps.skip(2));
    assert(steps.skip(2)[0] == steps[2]);
    assert(steps.skip(2).skip(1) =~= steps.skip(3));
    assert(steps.skip(3)[0] == steps[3]);
    assert(steps.skip(3).skip(1) =~= steps.skip(4));
    assert(steps.skip(4)[0] == steps[4]);
    assert(steps.skip(4).skip(1) =~= steps.skip(5));
    assert(steps.skip(5)[0] == steps[5]);
    assert(steps.skip(5).skip(1) =~= steps.skip(6));
    assert(steps.skip(6) =~= Seq::<Statement>::empty());

    // a full run from each of the seven states
    assert(steps_model(s6, steps.skip(6)) == (s6, Ok::<(), StoreError>(())));
    assert(steps_model(s5, steps.skip(5)) == (s6, Ok::<(), StoreError>(())));
    assert(steps_model(s4, steps.skip(4)) == (s6, Ok::<(), StoreError>(())));
    assert(steps_model(s3, steps.skip(3)) == (s6, Ok::<(), StoreError>(())));
    assert(steps_model(s2, steps.skip(2)) == (s6, Ok::<(), StoreError>(())));
    assert(steps_model(s1, steps.skip(1)) == (s6, Ok::<(), StoreError>(())));
    assert(steps_model(ts, steps) == (s6, Ok::<(), StoreError>(())));
    assert(unit_up_model(ts, u) == (s6, Ok::<nat, StoreError>(6nat)));

    assert(steps_model(s1, steps) == steps_model(s1, steps.skip(1)));
    assert(unit_up_model(s1, u) == (s6, Ok::<nat, StoreError>(6nat)));
    assert(steps_model(s2, steps) == steps_model(s2, steps.skip(1)));
    assert(steps_model(s2, steps.skip(1)) == steps_model(s2, steps.skip(2)));
    assert(unit_up_model(s2, u) == (s6, Ok::<nat, StoreError>(6nat)));
    assert(steps_model(s3, steps) == steps_model(s3, steps.skip(1)));
    assert(steps_model(s3, steps.skip(1)) == steps_model(s3, steps.skip(2)));
    assert(steps_model(s3, steps.skip(2)) == steps_model(s3, steps.skip(3)));
    assert(unit_up_model(s3, u) == (s6, Ok::<nat, StoreError>(6nat)));
    assert(steps_model(s4, steps) == steps_model(s4, steps.skip(1)));
    assert(steps_model(s4, steps.skip(1)) == steps_model(s4, steps.skip(2)));
    assert(steps_model(s4, steps.skip(2)) == steps_model(s4, steps.skip(3)));
    assert(steps_model(s4, steps.skip(3)) == steps_model(s4, steps.skip(4)));
    assert(unit_up_model(s4, u) == (s6, Ok::<nat, StoreError>(6nat)));
    assert(steps_model(s5, steps) == steps_model(s5, steps.skip(1)));
    assert(steps_model(s5, steps.skip(1)) == steps_model(s5, steps.skip(2)));
    assert(steps_model(s5, steps.skip(2)) == steps_model(s5, steps.skip(3)));
    assert(steps_model(s5, steps.skip(3)) == steps_model(s5, steps.skip(4)));
    assert(steps_model(s5, steps.skip(4)) == steps_model(s5, steps.skip(5)));
    assert(unit_up_model(s5, u) == (s6, Ok::<nat, StoreError>(6nat)));
    assert(unit_up_model(s6, u) == (s6, Ok::<nat, StoreError>(0nat)));

    // the prefix states are exactly what a crash after each statement leaves
    assert(steps.take(0) =~= Seq::<Statement>::empty());
    assert(steps.take(1) =~= steps.take(0).push(steps[0]));
    lemma_steps_model_snoc(ts, steps.take(0), steps[0]);
    assert(steps.take(2) =~= steps.take(1).push(steps[1]));
    lemma_steps_model_snoc(ts, steps.take(1), steps[1]);
    assert(steps.take(3) =~= steps.take(2).push(steps[2]));
    lemma_steps_model_snoc(ts, steps.take(2), steps[2]);
    assert(steps.take(4) =~= steps.take(3).push(steps[3]));
    lemma_steps_model_snoc(ts, steps.take(3), steps[3]);
    assert(steps.take(5) =~= steps.take(4).push(steps[4]));
    lemma_steps_model_snoc(ts, steps.take(4), steps[4]);
}
} // verus!
