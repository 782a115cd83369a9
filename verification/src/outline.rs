//! The path differ and the outline emitter: given the previous and the
//! current hierarchical path, find the break level; given a break level,
//! emit the outline rows and the leaf row of one record.

use vstd::prelude::*;
use crate::record::strs_view;

verus! {

/// The semantic class of a planned cell; its visual rendering is an
/// external styling concern.
#[derive(Debug, Clone, Copy, PartialEq, Eq, Structural)]
pub enum Style {
    HeaderGroup,
    HeaderScenario,
    HeaderScenarioLast,
    MetricLabel,
    OutlineLabel,
    NumericValue,
}

/// One planned cell of a sheet. For a `NumericValue` cell, `text` holds
/// the numeric literal whose parsed value the cell carries.
#[derive(Debug, Clone, PartialEq)]
pub struct Cell {
    pub row: usize,
    pub col: usize,
    pub text: String,
    pub indent: usize,
    pub style: Style,
}

/// The mathematical view of a planned cell.
pub struct CellV {
    pub row: int,
    pub col: int,
    pub text: Seq<char>,
    pub indent: int,
    pub style: Style,
}

impl View for Cell {
    type V = CellV;

    open spec fn view(&self) -> CellV {
        CellV {
            row: self.row as int,
            col: self.col as int,
            text: self.text@,
            indent: self.indent as int,
            style: self.style,
        }
    }
}

/// The view of a sequence of cells.
pub open spec fn cells_view(v: Seq<Cell>) -> Seq<CellV> {
    v.map_values(|c: Cell| c@)
}

/// Viewing a pushed sequence of cells pushes the view.
pub proof fn lemma_cells_view_push(v: Seq<Cell>, x: Cell)
    ensures
        cells_view(v.push(x)) =~= cells_view(v).push(x@),
{
}

/// The outcome of comparing the previous path with the current one.
#[derive(Debug, Clone, Copy, PartialEq, Eq, Structural)]
pub enum BreakLevel {
    /// No prior path is remembered: full break at level zero.
    NoPriorPath,
    /// The paths differ already in their first segment: full break at
    /// level zero.
    DifferentFirstSegment,
    /// The paths share their first segment and first differ at the given
    /// index.
    SameFirstSegment(usize),
    /// Neither path differs from the other within their common length:
    /// nothing is emitted.
    Identical,
}

/// The first index at which the two paths differ, within their common
/// length.
pub open spec fn first_diff(prev: Seq<Seq<char>>, cur: Seq<Seq<char>>) -> Option<int>
    decreases prev.len(),
{
    if prev.len() == 0 || cur.len() == 0 {
        None
    } else if prev[0] != cur[0] {
        Some(0int)
    } else {
        match first_diff(prev.drop_first(), cur.drop_first()) {
            Some(i) => Some(i + 1),
            None => None,
        }
    }
}

/// The break level of the current path against the previous one:
/// `Some(l)` means emission starts at segment `l`; `None` means the paths
/// are treated as fully identical and nothing is emitted.
pub open spec fn break_of(prev: Seq<Seq<char>>, cur: Seq<Seq<char>>) -> Option<int> {
    if prev.len() == 0 {
        Some(0int)
    } else if prev[0] != cur[0] {
        Some(0int)
    } else {
        first_diff(prev, cur)
    }
}

/// The break level that a `BreakLevel` outcome denotes.
pub open spec fn level_of(b: BreakLevel) -> Option<int> {
    match b {
        BreakLevel::NoPriorPath => Some(0int),
        BreakLevel::DifferentFirstSegment => Some(0int),
        BreakLevel::SameFirstSegment(i) => Some(i as int),
        BreakLevel::Identical => None,
    }
}

/// If the paths agree below `i` and differ at `i`, then `i` is the first
/// differing index.
pub proof fn lemma_first_diff_at(prev: Seq<Seq<char>>, cur: Seq<Seq<char>>, i: int)
    requires
        0 <= i < prev.len(),
        i < cur.len(),
        forall|k: int| 0 <= k < i ==> prev[k] == cur[k],
        prev[i] != cur[i],
    ensures
        first_diff(prev, cur) == Some(i),
    decreases i,
{
    if i > 0 {
        lemma_first_diff_at(prev.drop_first(), cur.drop_first(), i - 1);
    }
}

/// If the paths agree on their whole common length, no index differs.
pub proof fn lemma_first_diff_none(prev: Seq<Seq<char>>, cur: Seq<Seq<char>>)
    requires
        forall|k: int| 0 <= k < prev.len() && k < cur.len() ==> prev[k] == cur[k],
    ensures
        first_diff(prev, cur) is None,
    decreases prev.len(),
{
    if prev.len() > 0 && cur.len() > 0 {
        assert(forall|k: int|
            0 <= k < prev.len() - 1 && k < cur.len() - 1 ==> prev.drop_first()[k]
                == cur.drop_first()[k]);
        lemma_first_diff_none(prev.drop_first(), cur.drop_first());
    }
}

/// If some index within the common length differs, a first differing
/// index exists.
pub proof fn lemma_first_diff_some(prev: Seq<Seq<char>>, cur: Seq<Seq<char>>)
    requires
        exists|k: int| 0 <= k < prev.len() && k < cur.len() && prev[k] != cur[k],
    ensures
        first_diff(prev, cur) is Some,
    decreases prev.len(),
{
    let k = choose|k: int| 0 <= k < prev.len() && k < cur.len() && prev[k] != cur[k];
    if prev[0] == cur[0] {
        assert(0 <= k - 1 < prev.drop_first().len() && k - 1 < cur.drop_first().len()
            && prev.drop_first()[k - 1] != cur.drop_first()[k - 1]);
        lemma_first_diff_some(prev.drop_first(), cur.drop_first());
    }
}

/// The first differing index lies within the common length, the paths
/// agree below it and differ at it.
pub proof fn lemma_first_diff_props(prev: Seq<Seq<char>>, cur: Seq<Seq<char>>)
    ensures
        match first_diff(prev, cur) {
            Some(i) => 0 <= i < prev.len() && i < cur.len() && prev[i] != cur[i] && forall|k: int|
                0 <= k < i ==> prev[k] == cur[k],
            None => forall|k: int| 0 <= k < prev.len() && k < cur.len() ==> prev[k] == cur[k],
        },
    decreases prev.len(),
{
    if prev.len() == 0 || cur.len() == 0 {
    } else if prev[0] != cur[0] {
    } else {
        lemma_first_diff_props(prev.drop_first(), cur.drop_first());
        match first_diff(prev.drop_first(), cur.drop_first()) {
            Some(i) => {
                assert forall|k: int| 1 <= k < i + 1 implies prev[k] == cur[k] by {
                    assert(prev.drop_first()[k - 1] == cur.drop_first()[k - 1]);
                }
            },
            None => {
                assert forall|k: int|
                    1 <= k < prev.len() && k < cur.len() implies prev[k] == cur[k] by {
                    assert(prev.drop_first()[k - 1] == cur.drop_first()[k - 1]);
                }
            },
        }
    }
}

/// The path differ: compare the remembered previous path with the current
/// one and report where emission must restart.
pub fn diff(prev: &Vec<String>, cur: &Vec<String>) -> (r: BreakLevel)
    requires
        cur@.len() >= 1,
    ensures
        level_of(r) == break_of(strs_view(prev@), strs_view(cur@)),
        r is NoPriorPath <==> prev@.len() == 0,
        r is DifferentFirstSegment <==> (prev@.len() >= 1 && prev@[0]@ != cur@[0]@),
{
    let ghost pv = strs_view(prev@);
    let ghost cv = strs_view(cur@);
    if prev.len() == 0 {
        return BreakLevel::NoPriorPath;
    }
    if !(prev[0] == cur[0]) {
        return BreakLevel::DifferentFirstSegment;
    }
    let n: usize = if prev.len() < cur.len() {
        prev.len()
    } else {
        cur.len()
    };
    let mut j: usize = 1;
    while j < n
        invariant
            1 <= j <= n,
            n <= prev@.len(),
            n <= cur@.len(),
            n == if pv.len() < cv.len() {
                pv.len() as int
            } else {
                cv.len() as int
            },
            pv =~= strs_view(prev@),
            cv =~= strs_view(cur@),
            forall|k: int| 0 <= k < j ==> pv[k] == cv[k],
        decreases n - j,
    {
        if !(prev[j] == cur[j]) {
            proof {
                lemma_first_diff_at(pv, cv, j as int);
            }
            return BreakLevel::SameFirstSegment(j);
        }
        j += 1;
    }
    proof {
        lemma_first_diff_none(pv, cv);
    }
    BreakLevel::Identical
}

/// The ancestor outline rows of one emission: one row per new path
/// segment strictly before the leaf, each indented one past its depth.
pub open spec fn ancestor_cells(path: Seq<Seq<char>>, bl: int, cursor: int) -> Seq<CellV> {
    Seq::new(
        (path.len() - 1 - bl) as nat,
        |k: int|
            CellV {
                row: cursor + k,
                col: 0,
                text: path[bl + k],
                indent: bl + k + 1,
                style: Style::OutlineLabel,
            },
    )
}

/// The leaf row of one emission: the final path segment, indented one
/// past the path's depth, followed by the record's values left to right.
pub open spec fn leaf_cells(path: Seq<Seq<char>>, values: Seq<Seq<char>>, row: int) -> Seq<
    CellV,
> {
    seq![
        CellV {
            row,
            col: 0,
            text: path.last(),
            indent: path.len() as int + 1,
            style: Style::OutlineLabel,
        },
    ] + Seq::new(
        values.len(),
        |j: int| CellV { row, col: 1 + j, text: values[j], indent: 1, style: Style::NumericValue },
    )
}

/// Everything one emission writes: the ancestor rows from the break level
/// on, then the leaf row with its values.
pub open spec fn emit_cells(
    path: Seq<Seq<char>>,
    values: Seq<Seq<char>>,
    bl: int,
    cursor: int,
) -> Seq<CellV> {
    ancestor_cells(path, bl, cursor) + leaf_cells(
        path,
        values,
        cursor + path.len() - 1 - bl,
    )
}

/// How many rows one emission advances the cursor by.
pub open spec fn emit_advance(path: Seq<Seq<char>>, bl: int) -> int {
    path.len() - bl
}

/// The outline emitter: append the outline rows and the leaf row of one
/// record to the sheet's cells, and return the advanced cursor.
pub fn emit(
    cells: &mut Vec<Cell>,
    path: &Vec<String>,
    values: &Vec<String>,
    bl: usize,
    cursor: usize,
) -> (nc: usize)
    requires
        (bl as int) < path@.len(),
        path@.len() + 2 <= usize::MAX,
        cursor + path@.len() - bl <= usize::MAX,
    ensures
        cells_view(final(cells)@) =~= cells_view(old(cells)@) + emit_cells(
            strs_view(path@),
            strs_view(values@),
            bl as int,
            cursor as int,
        ),
        nc == cursor + path@.len() - bl,
{
    let ghost pv = strs_view(path@);
    let ghost vv = strs_view(values@);
    let ghost base = cells_view(cells@);
    let n: usize = path.len();
    let mut row: usize = cursor;
    let mut i: usize = bl;
    while i < n - 1
        invariant
            bl <= i <= n - 1,
            n == path@.len(),
            n + 2 <= usize::MAX,
            cursor + n - bl <= usize::MAX,
            row == cursor + i - bl,
            pv =~= strs_view(path@),
            vv =~= strs_view(values@),
            base =~= cells_view(old(cells)@),
            cells_view(cells@) =~= base + ancestor_cells(pv, bl as int, cursor as int).take(
                i - bl,
            ),
        decreases n - i,
    {
        let c = Cell {
            row,
            col: 0,
            text: path[i].clone(),
            indent: i + 1,
            style: Style::OutlineLabel,
        };
        let ghost pre = cells@;
        let ghost cvz = c;
        cells.push(c);
        proof {
            lemma_cells_view_push(pre, cvz);
            assert(cells_view(cells@) =~= base + ancestor_cells(
                pv,
                bl as int,
                cursor as int,
            ).take(i + 1 - bl));
        }
        row += 1;
        i += 1;
    }
    proof {
        assert(ancestor_cells(pv, bl as int, cursor as int).take(n - 1 - bl)
            =~= ancestor_cells(pv, bl as int, cursor as int));
    }
    let leaf = Cell {
        row,
        col: 0,
        text: path[n - 1].clone(),
        indent: n + 1,
        style: Style::OutlineLabel,
    };
    let ghost pre = cells@;
    let ghost leafv = leaf;
    cells.push(leaf);
    proof {
        lemma_cells_view_push(pre, leafv);
    }
    let ghost leafrow = row as int;
    let mut j: usize = 0;
    while j < values.len()
        invariant
            0 <= j <= values@.len(),
            n == path@.len(),
            row == leafrow,
            leafrow == cursor + n - 1 - bl,
            (bl as int) < n,
            pv =~= strs_view(path@),
            vv =~= strs_view(values@),
            base =~= cells_view(old(cells)@),
            cells_view(cells@) =~= base + ancestor_cells(pv, bl as int, cursor as int) + leaf_cells(
                pv,
                vv,
                leafrow,
            ).take(1 + j),
        decreases values@.len() - j,
    {
        let c = Cell {
            row,
            col: 1 + j,
            text: values[j].clone(),
            indent: 1,
            style: Style::NumericValue,
        };
        let ghost pre = cells@;
        let ghost cvz = c;
        cells.push(c);
        proof {
            lemma_cells_view_push(pre, cvz);
            assert(cells_view(cells@) =~= base + ancestor_cells(pv, bl as int, cursor as int)
                + leaf_cells(pv, vv, leafrow).take(2 + j));
        }
        j += 1;
    }
    proof {
        assert(leaf_cells(pv, vv, leafrow).take(1 + values@.len() as int) =~= leaf_cells(
            pv,
            vv,
            leafrow,
        ));
        assert(cells_view(cells@) =~= base + emit_cells(pv, vv, bl as int, cursor as int));
    }
    row + 1
}

} // verus!
