//! The section controller and the report driver: walk the sorted records
//! once, open a sheet per group, a label row per metric, and emit each
//! record's outline and leaf rows, tracking the cursor row per sheet.

use vstd::prelude::*;
use crate::record::{Record, RecordV, ReportError, strs_view};
use crate::outline::{
    Cell, CellV, Style, BreakLevel, cells_view, lemma_cells_view_push, break_of, emit_cells,
    emit_advance, diff, emit,
};
use crate::numeric::{is_numeric, is_numeric_str};

verus! {

/// One planned sheet: its name and its cells in emission order.
#[derive(Debug, Clone, PartialEq)]
pub struct SheetPlan {
    pub name: String,
    pub cells: Vec<Cell>,
}

/// The mathematical view of a planned sheet.
pub struct SheetPlanV {
    pub name: Seq<char>,
    pub cells: Seq<CellV>,
}

impl View for SheetPlan {
    type V = SheetPlanV;

    open spec fn view(&self) -> SheetPlanV {
        SheetPlanV { name: self.name@, cells: cells_view(self.cells@) }
    }
}

/// The view of a sequence of sheets.
pub open spec fn plans_view(v: Seq<SheetPlan>) -> Seq<SheetPlanV> {
    v.map_values(|p: SheetPlan| p@)
}

/// The view of a sequence of records.
pub open spec fn recs_view(v: Seq<Record>) -> Seq<RecordV> {
    v.map_values(|r: Record| r@)
}

/// The outline state of the run: the sheets accumulated so far, the
/// remembered path and metric, the cursor row of the current sheet, and
/// the number of leaf rows emitted.
pub struct RunStateV {
    pub sheets: Seq<SheetPlanV>,
    pub prev_path: Seq<Seq<char>>,
    pub prev_metric: Seq<char>,
    pub cursor: int,
    pub leaves: int,
}

/// The state before any record: no sheet, no remembered path or metric.
pub open spec fn init_state() -> RunStateV {
    RunStateV {
        sheets: Seq::empty(),
        prev_path: Seq::empty(),
        prev_metric: Seq::empty(),
        cursor: 1,
        leaves: 0,
    }
}

/// The header row of a new sheet: the group label, then one cell per
/// scenario, the last one marked as the closing header column.
pub open spec fn header_cells(group: Seq<char>, scen: Seq<Seq<char>>) -> Seq<CellV> {
    seq![CellV { row: 0, col: 0, text: group, indent: 0, style: Style::HeaderGroup }]
        + Seq::new(
        scen.len(),
        |j: int|
            CellV {
                row: 0,
                col: 1 + j,
                text: scen[j],
                indent: 0,
                style: if j == scen.len() - 1 {
                    Style::HeaderScenarioLast
                } else {
                    Style::HeaderScenario
                },
            },
    )
}

/// Append cells to the current (last) sheet.
pub open spec fn push_cells(sheets: Seq<SheetPlanV>, cs: Seq<CellV>) -> Seq<SheetPlanV> {
    sheets.update(
        sheets.len() - 1,
        SheetPlanV { name: sheets.last().name, cells: sheets.last().cells + cs },
    )
}

/// The sheet boundary: if no sheet is open or the record's group differs
/// from the current sheet's name, open a new sheet with its header row
/// and reset the outline state.
pub open spec fn sheet_phase(st: RunStateV, r: RecordV, scen: Seq<Seq<char>>) -> RunStateV {
    if st.sheets.len() == 0 || st.sheets.last().name != r.group {
        RunStateV {
            sheets: st.sheets.push(
                SheetPlanV { name: r.group, cells: header_cells(r.group, scen) },
            ),
            prev_path: Seq::empty(),
            prev_metric: Seq::empty(),
            cursor: 1,
            leaves: st.leaves,
        }
    } else {
        st
    }
}

/// The metric boundary: if no metric is remembered or the record's
/// metric differs, write a metric label row (after one blank gap row
/// unless it is the first row under the header) and forget the previous
/// path, so the next emission re-emits the full path.
pub open spec fn metric_phase(st: RunStateV, r: RecordV) -> RunStateV {
    if st.prev_metric.len() == 0 || st.prev_metric != r.metric {
        let c1 = if st.cursor > 1 {
            st.cursor + 1
        } else {
            st.cursor
        };
        RunStateV {
            sheets: push_cells(
                st.sheets,
                seq![
                    CellV { row: c1, col: 0, text: r.metric, indent: 0, style: Style::MetricLabel },
                ],
            ),
            prev_path: Seq::empty(),
            prev_metric: r.metric,
            cursor: c1 + 1,
            leaves: st.leaves,
        }
    } else {
        st
    }
}

/// The path step: emit from the break level on, or nothing when the
/// current path does not differ from the previous one within their
/// common length; either way the current path becomes the remembered one.
pub open spec fn path_phase(st: RunStateV, r: RecordV) -> RunStateV {
    match break_of(st.prev_path, r.path) {
        Option::Some(bl) => RunStateV {
            sheets: push_cells(st.sheets, emit_cells(r.path, r.values, bl, st.cursor)),
            prev_path: r.path,
            prev_metric: st.prev_metric,
            cursor: st.cursor + emit_advance(r.path, bl),
            leaves: st.leaves + 1,
        },
        Option::None => RunStateV {
            sheets: st.sheets,
            prev_path: r.path,
            prev_metric: st.prev_metric,
            cursor: st.cursor,
            leaves: st.leaves,
        },
    }
}

/// Processing one record: the sheet boundary, then the metric boundary,
/// then the path step.
pub open spec fn step(st: RunStateV, r: RecordV, scen: Seq<Seq<char>>) -> RunStateV {
    path_phase(metric_phase(sheet_phase(st, r, scen), r), r)
}

/// The state after processing all records in order.
pub open spec fn run_spec(records: Seq<RecordV>, scen: Seq<Seq<char>>) -> RunStateV
    decreases records.len(),
{
    if records.len() == 0 {
        init_state()
    } else {
        step(run_spec(records.drop_last(), scen), records.last(), scen)
    }
}

/// An upper bound on every cursor value of the run: the header row plus,
/// per record, its path length, its metric row and one gap row.
pub open spec fn rows_bound(records: Seq<RecordV>) -> int
    decreases records.len(),
{
    if records.len() == 0 {
        1
    } else {
        rows_bound(records.drop_last()) + records.last().path.len() + 2
    }
}

/// Every record's path is non-empty.
pub open spec fn records_wf(records: Seq<RecordV>) -> bool {
    forall|i: int| 0 <= i < records.len() ==> (#[trigger] records[i]).wf()
}

/// All value fields of one record are valid numeric literals.
pub open spec fn record_values_numeric(r: RecordV) -> bool {
    forall|j: int| 0 <= j < r.values.len() ==> is_numeric(#[trigger] r.values[j])
}

/// All value fields of all records are valid numeric literals.
pub open spec fn all_values_numeric(records: Seq<RecordV>) -> bool {
    forall|i: int| 0 <= i < records.len() ==> record_values_numeric(#[trigger] records[i])
}

/// The bound over a prefix never exceeds the bound over the whole input.
pub proof fn lemma_rows_bound_take_le(records: Seq<RecordV>, i: int)
    requires
        0 <= i <= records.len(),
    ensures
        rows_bound(records.take(i)) <= rows_bound(records),
    decreases records.len() - i,
{
    if i == records.len() {
        assert(records.take(i) =~= records);
    } else {
        lemma_rows_bound_take_le(records, i + 1);
        assert(records.take(i + 1).drop_last() =~= records.take(i));
        assert(rows_bound(records.take(i + 1)) == rows_bound(records.take(i)) + records[i].path.len()
            + 2);
    }
}

/// Every break level that `break_of` reports is a valid start index of
/// the current path.
pub proof fn lemma_break_of_bounds(prev: Seq<Seq<char>>, cur: Seq<Seq<char>>)
    requires
        cur.len() >= 1,
    ensures
        match break_of(prev, cur) {
            Option::Some(bl) => 0 <= bl < cur.len(),
            Option::None => true,
        },
{
    crate::outline::lemma_first_diff_props(prev, cur);
}

/// One step keeps the cursor at least one and advances it by at most the
/// record's path length plus two.
pub proof fn lemma_step_cursor(st: RunStateV, r: RecordV, scen: Seq<Seq<char>>)
    requires
        st.cursor >= 1,
        r.wf(),
    ensures
        step(st, r, scen).cursor >= 1,
        step(st, r, scen).cursor <= st.cursor + r.path.len() + 2,
{
    let st1 = sheet_phase(st, r, scen);
    let st2 = metric_phase(st1, r);
    lemma_break_of_bounds(st2.prev_path, r.path);
}

/// The cursor after any run stays at least one.
pub proof fn lemma_cursor_ge_one(records: Seq<RecordV>, scen: Seq<Seq<char>>)
    requires
        records_wf(records),
    ensures
        run_spec(records, scen).cursor >= 1,
    decreases records.len(),
{
    if records.len() > 0 {
        assert(records_wf(records.drop_last()));
        lemma_cursor_ge_one(records.drop_last(), scen);
        assert(records[records.len() - 1].wf());
        lemma_step_cursor(run_spec(records.drop_last(), scen), records.last(), scen);
    }
}

/// The cursor after any run stays within the row bound.
pub proof fn lemma_cursor_le_bound(records: Seq<RecordV>, scen: Seq<Seq<char>>)
    requires
        records_wf(records),
    ensures
        run_spec(records, scen).cursor <= rows_bound(records),
    decreases records.len(),
{
    if records.len() > 0 {
        assert(records_wf(records.drop_last()));
        lemma_cursor_le_bound(records.drop_last(), scen);
        lemma_cursor_ge_one(records.drop_last(), scen);
        assert(records[records.len() - 1].wf());
        lemma_step_cursor(run_spec(records.drop_last(), scen), records.last(), scen);
    }
}

/// Decide whether the whole run's cursor arithmetic fits the machine:
/// callers of [`run`] must check this first.
pub fn fits_capacity(records: &Vec<Record>) -> (b: bool)
    ensures
        b == (rows_bound(recs_view(records@)) <= usize::MAX),
{
    let ghost rv = recs_view(records@);
    let mut acc: usize = 1;
    let mut i: usize = 0;
    proof {
        assert(rv.take(0) =~= Seq::<RecordV>::empty());
    }
    while i < records.len()
        invariant
            0 <= i <= records@.len(),
            rv == recs_view(records@),
            acc as int == rows_bound(rv.take(i as int)),
        decreases records@.len() - i,
    {
        let plen = records[i].path.len();
        if plen > usize::MAX - 2 || acc > usize::MAX - 2 - plen {
            proof {
                assert(rv.take(i + 1).drop_last() =~= rv.take(i as int));
                assert(rv[i as int] == records@[i as int]@);
                assert(rows_bound(rv.take(i + 1)) > usize::MAX);
                lemma_rows_bound_take_le(rv, i + 1);
            }
            return false;
        }
        acc = acc + plen + 2;
        proof {
            assert(rv.take(i + 1).drop_last() =~= rv.take(i as int));
            assert(rv[i as int] == records@[i as int]@);
            assert(acc as int == rows_bound(rv.take(i + 1)));
        }
        i += 1;
    }
    proof {
        assert(rv.take(records@.len() as int) =~= rv);
    }
    true
}

/// Viewing a pushed sequence of sheets pushes the view.
pub proof fn lemma_plans_view_push(v: Seq<SheetPlan>, x: SheetPlan)
    ensures
        plans_view(v.push(x)) =~= plans_view(v).push(x@),
{
}

/// Cloning a sequence of strings preserves its view.
proof fn lemma_cloned_strs(a: Seq<String>, b: Seq<String>)
    requires
        a.len() == b.len(),
        forall|i: int| #![all_triggers] 0 <= i < a.len() ==> cloned::<String>(a[i], b[i]),
    ensures
        strs_view(b) =~= strs_view(a),
{
    assert forall|i: int| 0 <= i < a.len() implies b[i]@ == a[i]@ by {
        assert(cloned::<String>(a[i], b[i]));
    }
}

/// Replacing the last sheet by a copy with appended cells is an append
/// to the current sheet.
proof fn lemma_push_cells_exec(
    pre: Seq<SheetPlan>,
    modified: SheetPlan,
    after: Seq<SheetPlan>,
    cs: Seq<CellV>,
)
    requires
        pre.len() >= 1,
        after =~= pre.drop_last().push(modified),
        modified@.name == pre.last()@.name,
        modified@.cells =~= pre.last()@.cells + cs,
    ensures
        plans_view(after) =~= push_cells(plans_view(pre), cs),
{
    let n = pre.len() as int;
    assert(plans_view(after).len() == n);
    assert(push_cells(plans_view(pre), cs).len() == n);
    assert forall|k: int| 0 <= k < n implies plans_view(after)[k] == push_cells(
        plans_view(pre),
        cs,
    )[k] by {
        if k < n - 1 {
            assert(after[k] == pre[k]);
        } else {
            assert(after[k] == modified);
            assert(plans_view(pre).last() == pre.last()@);
            assert(modified@.cells == pre.last()@.cells + cs);
        }
    }
}

/// The error that reports the first value field that is not a valid
/// numeric literal.
pub open spec fn invalid_value_err(records: Seq<RecordV>, e: ReportError) -> bool {
    match e {
        ReportError::InvalidNumericValue { row, column } => {
            &&& 0 <= (row as int) < records.len()
            &&& 0 <= (column as int) < records[row as int].values.len()
            &&& !is_numeric(records[row as int].values[column as int])
            &&& forall|i: int|
                0 <= i < row ==> record_values_numeric(#[trigger] records[i])
            &&& forall|j: int|
                0 <= j < column ==> is_numeric(#[trigger] records[row as int].values[j])
        },
        _ => false,
    }
}

/// Check every value field of every record for numeric validity, and
/// report the first offender.
pub fn validate_values(records: &Vec<Record>) -> (r: Result<(), ReportError>)
    ensures
        r is Ok <==> all_values_numeric(recs_view(records@)),
        r is Err ==> invalid_value_err(recs_view(records@), r->Err_0),
{
    let ghost rv = recs_view(records@);
    let mut i: usize = 0;
    while i < records.len()
        invariant
            0 <= i <= records@.len(),
            rv == recs_view(records@),
            forall|k: int| 0 <= k < i ==> record_values_numeric(#[trigger] rv[k]),
        decreases records@.len() - i,
    {
        let mut j: usize = 0;
        while j < records[i].values.len()
            invariant
                0 <= i < records@.len(),
                0 <= j <= records@[i as int].values@.len(),
                rv == recs_view(records@),
                forall|k: int| 0 <= k < i ==> record_values_numeric(#[trigger] rv[k]),
                forall|k: int| 0 <= k < j ==> is_numeric(#[trigger] rv[i as int].values[k]),
            decreases records@[i as int].values@.len() - j,
        {
            if !is_numeric_str(records[i].values[j].as_str()) {
                proof {
                    assert(rv[i as int] == records@[i as int]@);
                    assert(rv[i as int].values[j as int] == records@[i as int].values@[j as int]@);
                    assert(!record_values_numeric(rv[i as int]));
                    assert(!all_values_numeric(rv));
                }
                return Err(ReportError::InvalidNumericValue { row: i, column: j });
            }
            proof {
                assert(rv[i as int].values[j as int] == records@[i as int].values@[j as int]@);
            }
            j += 1;
        }
        proof {
            assert(record_values_numeric(rv[i as int]));
        }
        i += 1;
    }
    Ok(())
}

/// Build the header row of a new sheet.
fn header_row(group: &String, scenarios: &Vec<String>) -> (cells: Vec<Cell>)
    ensures
        cells_view(cells@) =~= header_cells(group@, strs_view(scenarios@)),
{
    let ghost sv = strs_view(scenarios@);
    let mut cells: Vec<Cell> = Vec::new();
    let first = Cell { row: 0, col: 0, text: group.clone(), indent: 0, style: Style::HeaderGroup };
    let ghost firstv = first;
    cells.push(first);
    proof {
        lemma_cells_view_push(Seq::<Cell>::empty(), firstv);
        assert(cells_view(cells@) =~= header_cells(group@, sv).take(1));
    }
    let mut j: usize = 0;
    while j < scenarios.len()
        invariant
            0 <= j <= scenarios@.len(),
            sv == strs_view(scenarios@),
            cells_view(cells@) =~= header_cells(group@, sv).take(1 + j),
        decreases scenarios@.len() - j,
    {
        let sty = if j == scenarios.len() - 1 {
            Style::HeaderScenarioLast
        } else {
            Style::HeaderScenario
        };
        let c = Cell { row: 0, col: j + 1, text: scenarios[j].clone(), indent: 0, style: sty };
        let ghost pre = cells@;
        let ghost cv = c;
        cells.push(c);
        proof {
            lemma_cells_view_push(pre, cv);
            assert(cells_view(cells@) =~= header_cells(group@, sv).take(2 + j));
        }
        j += 1;
    }
    proof {
        assert(header_cells(group@, sv).take(1 + scenarios@.len() as int) =~= header_cells(
            group@,
            sv,
        ));
    }
    cells
}

/// The report driver: walk the records in order, opening sheets at group
/// boundaries and metric label rows at metric boundaries, and emitting
/// each record's outline and leaf rows.
///
/// Succeeds if and only if every value field of every record is a valid
/// numeric literal; on success the returned sheets are exactly what
/// [`run_spec`] describes. Callers must first establish the row-capacity
/// bound, for instance through [`fits_capacity`].
pub fn run(records: &Vec<Record>, scenarios: &Vec<String>) -> (r: Result<
    Vec<SheetPlan>,
    ReportError,
>)
    requires
        records_wf(recs_view(records@)),
        rows_bound(recs_view(records@)) <= usize::MAX,
    ensures
        r is Ok <==> all_values_numeric(recs_view(records@)),
        r is Ok ==> plans_view(r->Ok_0@) == run_spec(
            recs_view(records@),
            strs_view(scenarios@),
        ).sheets,
        r is Err ==> invalid_value_err(recs_view(records@), r->Err_0),
{
    let ghost rv = recs_view(records@);
    let ghost sv = strs_view(scenarios@);
    match validate_values(records) {
        Err(e) => {
            return Err(e);
        },
        Ok(()) => {},
    }
    let mut sheets: Vec<SheetPlan> = Vec::new();
    let mut prev_path: Vec<String> = Vec::new();
    let mut prev_metric: String = String::new();
    let mut cursor: usize = 1;
    let mut idx: usize = 0;
    proof {
        assert(rv.take(0) =~= Seq::<RecordV>::empty());
        assert(plans_view(sheets@) =~= init_state().sheets);
        assert(strs_view(prev_path@) =~= init_state().prev_path);
    }
    while idx < records.len()
        invariant
            0 <= idx <= records@.len(),
            rv == recs_view(records@),
            sv == strs_view(scenarios@),
            records_wf(rv),
            rows_bound(rv) <= usize::MAX,
            plans_view(sheets@) =~= run_spec(rv.take(idx as int), sv).sheets,
            strs_view(prev_path@) =~= run_spec(rv.take(idx as int), sv).prev_path,
            prev_metric@ == run_spec(rv.take(idx as int), sv).prev_metric,
            cursor as int == run_spec(rv.take(idx as int), sv).cursor,
            1 <= cursor as int <= rows_bound(rv.take(idx as int)),
        decreases records@.len() - idx,
    {
        let ghost st0 = run_spec(rv.take(idx as int), sv);
        let ghost rvi = rv[idx as int];
        proof {
            assert(rvi == records@[idx as int]@);
            assert(rvi.wf());
            assert(rv.take(idx + 1).drop_last() =~= rv.take(idx as int));
            assert(rv.take(idx + 1).last() == rvi);
            lemma_rows_bound_take_le(rv, idx + 1);
            assert(rows_bound(rv.take(idx + 1)) == rows_bound(rv.take(idx as int))
                + rvi.path.len() + 2);
        }
        // Sheet boundary.
        let is_new: bool = if sheets.len() == 0 {
            true
        } else {
            let li = sheets.len() - 1;
            !(sheets[li].name == records[idx].group)
        };
        if is_new {
            let hdr = header_row(&records[idx].group, scenarios);
            let nm = records[idx].group.clone();
            let fresh = SheetPlan { name: nm, cells: hdr };
            let ghost pre = sheets@;
            let ghost freshv = fresh;
            sheets.push(fresh);
            prev_path = Vec::new();
            prev_metric = String::new();
            cursor = 1;
            proof {
                lemma_plans_view_push(pre, freshv);
            }
        }
        let ghost st1 = sheet_phase(st0, rvi, sv);
        proof {
            assert(plans_view(sheets@) =~= st1.sheets);
            assert(strs_view(prev_path@) =~= st1.prev_path);
            assert(prev_metric@ == st1.prev_metric);
            assert(cursor as int == st1.cursor);
            assert(st1.sheets.len() >= 1);
            assert(st1.cursor <= st0.cursor);
        }
        // Metric boundary.
        let metric_break: bool = prev_metric.as_str().is_empty() || !(prev_metric
            == records[idx].metric);
        if metric_break {
            proof {
                assert(st1.cursor + 2 <= rows_bound(rv.take(idx + 1)));
            }
            if cursor > 1 {
                cursor += 1;
            }
            assert(sheets@.len() >= 1);
            let ghost before = sheets@;
            let popped = sheets.pop();
            let mut sheet = popped.unwrap();
            let c = Cell {
                row: cursor,
                col: 0,
                text: records[idx].metric.clone(),
                indent: 0,
                style: Style::MetricLabel,
            };
            let ghost precells = sheet.cells@;
            let ghost cv = c;
            sheet.cells.push(c);
            proof {
                lemma_cells_view_push(precells, cv);
            }
            let ghost sheetv = sheet;
            sheets.push(sheet);
            cursor += 1;
            prev_metric = records[idx].metric.clone();
            prev_path = Vec::new();
            proof {
                assert(sheetv@.cells =~= before.last()@.cells + seq![cv@]);
                lemma_push_cells_exec(before, sheetv, sheets@, seq![cv@]);
                assert(plans_view(sheets@) =~= push_cells(plans_view(before), seq![cv@]));
            }
        }
        let ghost st2 = metric_phase(st1, rvi);
        proof {
            assert(plans_view(sheets@) =~= st2.sheets);
            assert(strs_view(prev_path@) =~= st2.prev_path);
            assert(prev_metric@ == st2.prev_metric);
            assert(cursor as int == st2.cursor);
            assert(st2.cursor <= st0.cursor + 2);
            assert(st2.sheets.len() >= 1);
            lemma_break_of_bounds(st2.prev_path, rvi.path);
        }
        // Path step.
        let d = diff(&prev_path, &records[idx].path);
        let opt_bl: Option<usize> = match d {
            BreakLevel::NoPriorPath => Some(0),
            BreakLevel::DifferentFirstSegment => Some(0),
            BreakLevel::SameFirstSegment(l) => Some(l),
            BreakLevel::Identical => None,
        };
        if let Some(bl) = opt_bl {
            proof {
                assert(break_of(st2.prev_path, rvi.path) == Some(bl as int));
                assert((bl as int) < rvi.path.len());
                assert(st2.cursor + rvi.path.len() - bl <= rows_bound(rv.take(idx + 1)));
            }
            let ghost before = sheets@;
            let popped = sheets.pop();
            let mut sheet = popped.unwrap();
            let nc = emit(&mut sheet.cells, &records[idx].path, &records[idx].values, bl, cursor);
            let ghost sheetv = sheet;
            sheets.push(sheet);
            cursor = nc;
            proof {
                let cs = emit_cells(rvi.path, rvi.values, bl as int, st2.cursor);
                assert(sheetv@.cells =~= before.last()@.cells + cs);
                lemma_push_cells_exec(before, sheetv, sheets@, cs);
            }
        }
        let cloned_path = records[idx].path.clone();
        proof {
            lemma_cloned_strs(records@[idx as int].path@, cloned_path@);
        }
        prev_path = cloned_path;
        let ghost st3 = path_phase(st2, rvi);
        proof {
            assert(plans_view(sheets@) =~= st3.sheets);
            assert(strs_view(prev_path@) =~= st3.prev_path);
            assert(prev_metric@ == st3.prev_metric);
            assert(cursor as int == st3.cursor);
            assert(run_spec(rv.take(idx + 1), sv) == step(st0, rvi, sv));
            assert(step(st0, rvi, sv) == st3);
            lemma_step_cursor(st0, rvi, sv);
        }
        idx += 1;
    }
    proof {
        assert(rv.take(records@.len() as int) =~= rv);
    }
    Ok(sheets)
}

} // verus!
