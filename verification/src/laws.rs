//! The general properties of the pipeline, stated and proved over the
//! run's functional specification.

use vstd::prelude::*;
use crate::record::RecordV;
use crate::outline::{
    break_of, emit_cells, ancestor_cells, leaf_cells, lemma_first_diff_at, lemma_first_diff_some,
};
use crate::driver::{
    run_spec, sheet_phase, metric_phase, path_phase, records_wf,
};

verus! {

/// Two paths are distinguishable when some position within their common
/// length holds different segments.
pub open spec fn distinguishable(p: Seq<Seq<char>>, c: Seq<Seq<char>>) -> bool {
    exists|k: int| 0 <= k < p.len() && k < c.len() && p[k] != c[k]
}

/// Two consecutive records fall in the same section when they share the
/// group and a non-empty metric: no sheet or metric boundary lies
/// between them.
pub open spec fn same_section(a: RecordV, b: RecordV) -> bool {
    a.group == b.group && a.metric == b.metric && b.metric.len() > 0
}

/// Every pair of consecutive records in one section has distinguishable
/// paths: no record repeats the previous path or extends it purely by
/// length.
pub open spec fn pairwise_distinct_paths(records: Seq<RecordV>) -> bool {
    forall|i: int|
        0 <= i < records.len() - 1 && same_section(#[trigger] records[i], records[i + 1])
            ==> distinguishable(records[i].path, records[i + 1].path)
}

/// After a non-empty run, the last sheet carries the last record's
/// group, and the remembered metric and path are the last record's.
pub proof fn lemma_run_last_state(records: Seq<RecordV>, scen: Seq<Seq<char>>)
    requires
        records.len() >= 1,
    ensures
        run_spec(records, scen).sheets.len() >= 1,
        run_spec(records, scen).sheets.last().name == records.last().group,
        run_spec(records, scen).prev_metric == records.last().metric,
        run_spec(records, scen).prev_path == records.last().path,
    decreases records.len(),
{
    if records.len() > 1 {
        lemma_run_last_state(records.drop_last(), scen);
    }
}

/// Each processed record advances the leaf count by exactly one, as long
/// as no record in one section repeats or purely extends the previous
/// path: the number of leaf rows emitted equals the number of records.
pub proof fn lemma_leaf_count(records: Seq<RecordV>, scen: Seq<Seq<char>>)
    requires
        records_wf(records),
        pairwise_distinct_paths(records),
    ensures
        run_spec(records, scen).leaves == records.len(),
    decreases records.len(),
{
    if records.len() == 0 {
    } else {
        let pre = records.drop_last();
        let r = records.last();
        assert(records_wf(pre));
        assert forall|i: int|
            0 <= i < pre.len() - 1 && same_section(#[trigger] pre[i], pre[i + 1])
                implies distinguishable(pre[i].path, pre[i + 1].path) by {
            assert(pre[i] == records[i]);
            assert(pre[i + 1] == records[i + 1]);
        }
        lemma_leaf_count(pre, scen);
        let st = run_spec(pre, scen);
        let st1 = sheet_phase(st, r, scen);
        let st2 = metric_phase(st1, r);
        if records.len() == 1 {
            assert(st2.prev_path.len() == 0);
        } else {
            lemma_run_last_state(pre, scen);
            let q = pre.last();
            assert(q == records[records.len() - 2]);
            assert(r == records[records.len() - 1]);
            if st.sheets.last().name != r.group {
            } else if st1.prev_metric.len() == 0 || st1.prev_metric != r.metric {
            } else {
                assert(same_section(q, r));
                assert(distinguishable(q.path, r.path));
                assert(st2.prev_path == q.path);
                if st2.prev_path[0] != r.path[0] {
                } else {
                    lemma_first_diff_some(st2.prev_path, r.path);
                }
            }
        }
        assert(break_of(st2.prev_path, r.path) is Some);
        assert(path_phase(st2, r).leaves == st2.leaves + 1);
    }
}

/// When every record carries the same group, exactly one sheet is
/// produced.
pub proof fn lemma_single_group_single_sheet(records: Seq<RecordV>, scen: Seq<Seq<char>>)
    requires
        records.len() >= 1,
        forall|i: int| 0 <= i < records.len() ==> (#[trigger] records[i]).group == records[0].group,
    ensures
        run_spec(records, scen).sheets.len() == 1,
    decreases records.len(),
{
    if records.len() == 1 {
    } else {
        let pre = records.drop_last();
        let r = records.last();
        assert forall|i: int|
            0 <= i < pre.len() implies (#[trigger] pre[i]).group == pre[0].group by {
            assert(pre[i] == records[i]);
            assert(pre[0] == records[0]);
        }
        lemma_single_group_single_sheet(pre, scen);
        lemma_run_last_state(pre, scen);
        assert(pre.last().group == records[0].group);
        assert(r.group == records[0].group);
        let st = run_spec(pre, scen);
        assert(sheet_phase(st, r, scen) == st);
        assert(metric_phase(st, r).sheets.len() == st.sheets.len());
        assert(path_phase(metric_phase(st, r), r).sheets.len() == metric_phase(
            st,
            r,
        ).sheets.len());
    }
}

/// When two consecutive paths in one section differ only in their last
/// segment, the break level is the last index and the emission writes no
/// ancestor rows: only the leaf row with its values.
pub proof fn lemma_sibling_leaf(
    prev: Seq<Seq<char>>,
    cur: Seq<Seq<char>>,
    values: Seq<Seq<char>>,
    cursor: int,
)
    requires
        prev.len() == cur.len(),
        cur.len() >= 1,
        forall|k: int| 0 <= k < cur.len() - 1 ==> prev[k] == cur[k],
        prev[cur.len() - 1] != cur[cur.len() - 1],
    ensures
        break_of(prev, cur) == Some(cur.len() - 1),
        ancestor_cells(cur, cur.len() - 1, cursor).len() == 0,
        emit_cells(cur, values, cur.len() - 1, cursor) =~= leaf_cells(cur, values, cursor),
{
    if cur.len() > 1 {
        lemma_first_diff_at(prev, cur, cur.len() - 1);
    }
}

/// When two consecutive paths differ already in their first segment, the
/// whole current path is re-emitted: one ancestor row per segment before
/// the leaf, then the leaf row with its values.
pub proof fn lemma_full_reemission(
    prev: Seq<Seq<char>>,
    cur: Seq<Seq<char>>,
    values: Seq<Seq<char>>,
    cursor: int,
)
    requires
        prev.len() >= 1,
        cur.len() >= 1,
        prev[0] != cur[0],
    ensures
        break_of(prev, cur) == Some(0int),
        ancestor_cells(cur, 0, cursor).len() == cur.len() - 1,
        emit_cells(cur, values, 0, cursor).len() == cur.len() + values.len(),
{
}

/// A single-segment path yields exactly one leaf row and no ancestor
/// rows, whatever the break level.
pub proof fn lemma_single_segment_leaf(
    path: Seq<Seq<char>>,
    values: Seq<Seq<char>>,
    bl: int,
    cursor: int,
)
    requires
        path.len() == 1,
        0 <= bl < path.len(),
    ensures
        ancestor_cells(path, bl, cursor).len() == 0,
        emit_cells(path, values, bl, cursor) =~= leaf_cells(path, values, cursor),
        emit_cells(path, values, bl, cursor).len() == 1 + values.len(),
{
}

/// The pipeline is a pure function of its input: two runs over equal
/// records and equal scenario headers produce equal sheet plans, so
/// re-running the pipeline reproduces the same content.
pub proof fn lemma_rerun_identical(
    records1: Seq<RecordV>,
    records2: Seq<RecordV>,
    scen1: Seq<Seq<char>>,
    scen2: Seq<Seq<char>>,
)
    requires
        records1 == records2,
        scen1 == scen2,
    ensures
        run_spec(records1, scen1).sheets == run_spec(records2, scen2).sheets,
{
}

} // verus!
