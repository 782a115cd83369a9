//! Rendering sheet plans into spreadsheet worksheets. The worksheet
//! itself belongs to the spreadsheet-writing crate; this module drives it
//! through a small set of trusted wrappers. Text cells (headers, metric
//! labels, outline labels) are written here; the numeric value cells of a
//! plan carry floating-point data and are written by the surrounding
//! application from the same plan.

use vstd::prelude::*;
use crate::outline::{CellV, Style};
use crate::driver::{SheetPlan, SheetPlanV};

verus! {

#[verifier::external_type_specification]
#[verifier::external_body]
pub struct ExWorksheet(rust_xlsxwriter::Worksheet);

#[verifier::external_type_specification]
#[verifier::external_body]
pub struct ExXlsxError(rust_xlsxwriter::XlsxError);

/// What a worksheet holds: for each written cell position, the text that
/// was stored there and the indent it was given (zero where none was).
pub uninterp spec fn sheet_cells(ws: rust_xlsxwriter::Worksheet) -> Map<(u32, u16), (Seq<char>, u8)>;

/// The name a worksheet carries.
pub uninterp spec fn sheet_title(ws: rust_xlsxwriter::Worksheet) -> Seq<char>;

/// A character the spreadsheet format forbids in sheet names.
pub open spec fn valid_sheet_char(c: char) -> bool {
    c != '*' && c != '?' && c != ':' && c != '[' && c != ']' && c != '\\' && c != '/'
}

/// A valid sheet name: non-empty, at most 31 characters, free of the
/// forbidden characters, and neither starting nor ending with an
/// apostrophe.
pub open spec fn valid_sheet_name(s: Seq<char>) -> bool {
    &&& 1 <= s.len() <= 31
    &&& (forall|i: int| 0 <= i < s.len() ==> valid_sheet_char(#[trigger] s[i]))
    &&& s[0] != '\''
    &&& s[s.len() - 1] != '\''
}

/// The row limit of a worksheet.
pub open spec fn row_limit() -> int {
    1048576
}

/// The column limit of a worksheet.
pub open spec fn col_limit() -> int {
    16384
}

/// The character limit of one cell's text.
pub open spec fn text_limit() -> int {
    32767
}

/// The contents of a worksheet with no written cell.
pub open spec fn empty_cells() -> Map<(u32, u16), (Seq<char>, u8)> {
    Map::empty()
}

/// Relies on rust_xlsxwriter::Worksheet::new: a fresh worksheet has an
/// empty name and no cell data.
#[verifier::external_body]
fn new_worksheet() -> (ws: rust_xlsxwriter::Worksheet)
    ensures
        sheet_title(ws).len() == 0,
        sheet_cells(ws) == empty_cells(),
{
    rust_xlsxwriter::Worksheet::new()
}

/// Relies on rust_xlsxwriter::Worksheet::set_name: the name is accepted
/// if and only if it is a valid sheet name; the cell data is untouched,
/// and on rejection the old name stays.
#[verifier::external_body]
fn set_sheet_name(ws: &mut rust_xlsxwriter::Worksheet, name: &str) -> (r: Result<
    (),
    rust_xlsxwriter::XlsxError,
>)
    ensures
        r is Ok <==> valid_sheet_name(name@),
        r is Ok ==> sheet_title(*final(ws)) == name@,
        r is Err ==> sheet_title(*final(ws)) == sheet_title(*old(ws)),
        sheet_cells(*final(ws)) == sheet_cells(*old(ws)),
{
    match ws.set_name(name) {
        Ok(_) => Ok(()),
        Err(e) => Err(e),
    }
}

/// Relies on rust_xlsxwriter::Worksheet::write_string_with_format: the
/// write succeeds if and only if the cell lies within the row and column
/// limits and the text within the cell text limit, and it stores the text
/// at that cell (an empty text stores a formatted blank there). The
/// format carries the label styling of the report: bold, left-aligned,
/// indented by `indent`.
#[verifier::external_body]
fn write_label(
    ws: &mut rust_xlsxwriter::Worksheet,
    row: u32,
    col: u16,
    text: &str,
    indent: u8,
) -> (r: Result<(), rust_xlsxwriter::XlsxError>)
    ensures
        r is Ok <==> (row < row_limit() && col < col_limit() && text@.len() <= text_limit()),
        r is Ok ==> sheet_cells(*final(ws)) == sheet_cells(*old(ws)).insert(
            (row, col),
            (text@, indent),
        ),
        r is Err ==> sheet_cells(*final(ws)) == sheet_cells(*old(ws)),
        sheet_title(*final(ws)) == sheet_title(*old(ws)),
{
    let format = rust_xlsxwriter::Format::new()
        .set_bold()
        .set_font_size(10)
        .set_font_name("Aptos")
        .set_align(rust_xlsxwriter::FormatAlign::VerticalCenter)
        .set_align(rust_xlsxwriter::FormatAlign::Left)
        .set_indent(indent);
    match ws.write_string_with_format(row, col, text, &format) {
        Ok(_) => Ok(()),
        Err(e) => Err(e),
    }
}

/// Relies on rust_xlsxwriter::Worksheet::write_string_with_format, as
/// [`write_label`] does; the format carries the group header styling of
/// the report (centered on a highlighted, underlined cell).
#[verifier::external_body]
fn write_header_group(ws: &mut rust_xlsxwriter::Worksheet, row: u32, col: u16, text: &str) -> (r:
    Result<(), rust_xlsxwriter::XlsxError>)
    ensures
        r is Ok <==> (row < row_limit() && col < col_limit() && text@.len() <= text_limit()),
        r is Ok ==> sheet_cells(*final(ws)) == sheet_cells(*old(ws)).insert(
            (row, col),
            (text@, 0u8),
        ),
        r is Err ==> sheet_cells(*final(ws)) == sheet_cells(*old(ws)),
        sheet_title(*final(ws)) == sheet_title(*old(ws)),
{
    let format = rust_xlsxwriter::Format::new()
        .set_align(rust_xlsxwriter::FormatAlign::Center)
        .set_align(rust_xlsxwriter::FormatAlign::VerticalCenter)
        .set_background_color(0xFFD700)
        .set_border_bottom(rust_xlsxwriter::FormatBorder::Thin)
        .set_font_size(14)
        .set_font_name("Aptos");
    match ws.write_string_with_format(row, col, text, &format) {
        Ok(_) => Ok(()),
        Err(e) => Err(e),
    }
}

/// Relies on rust_xlsxwriter::Worksheet::write_string_with_format, as
/// [`write_label`] does; the format carries the scenario header styling
/// of the report.
#[verifier::external_body]
fn write_header_scenario(ws: &mut rust_xlsxwriter::Worksheet, row: u32, col: u16, text: &str) -> (r:
    Result<(), rust_xlsxwriter::XlsxError>)
    ensures
        r is Ok <==> (row < row_limit() && col < col_limit() && text@.len() <= text_limit()),
        r is Ok ==> sheet_cells(*final(ws)) == sheet_cells(*old(ws)).insert(
            (row, col),
            (text@, 0u8),
        ),
        r is Err ==> sheet_cells(*final(ws)) == sheet_cells(*old(ws)),
        sheet_title(*final(ws)) == sheet_title(*old(ws)),
{
    let format = rust_xlsxwriter::Format::new()
        .set_align(rust_xlsxwriter::FormatAlign::Center)
        .set_align(rust_xlsxwriter::FormatAlign::VerticalCenter)
        .set_background_color(0xD3D3D3)
        .set_border_bottom(rust_xlsxwriter::FormatBorder::Thin)
        .set_font_size(10)
        .set_font_name("Aptos");
    match ws.write_string_with_format(row, col, text, &format) {
        Ok(_) => Ok(()),
        Err(e) => Err(e),
    }
}

/// Relies on rust_xlsxwriter::Worksheet::write_string_with_format, as
/// [`write_label`] does; the format is the scenario header styling with
/// the heavier right border that closes the header row.
#[verifier::external_body]
fn write_header_scenario_last(
    ws: &mut rust_xlsxwriter::Worksheet,
    row: u32,
    col: u16,
    text: &str,
) -> (r: Result<(), rust_xlsxwriter::XlsxError>)
    ensures
        r is Ok <==> (row < row_limit() && col < col_limit() && text@.len() <= text_limit()),
        r is Ok ==> sheet_cells(*final(ws)) == sheet_cells(*old(ws)).insert(
            (row, col),
            (text@, 0u8),
        ),
        r is Err ==> sheet_cells(*final(ws)) == sheet_cells(*old(ws)),
        sheet_title(*final(ws)) == sheet_title(*old(ws)),
{
    let format = rust_xlsxwriter::Format::new()
        .set_align(rust_xlsxwriter::FormatAlign::Center)
        .set_align(rust_xlsxwriter::FormatAlign::VerticalCenter)
        .set_background_color(0xD3D3D3)
        .set_border_bottom(rust_xlsxwriter::FormatBorder::Thin)
        .set_border_right(rust_xlsxwriter::FormatBorder::Medium)
        .set_font_size(10)
        .set_font_name("Aptos");
    match ws.write_string_with_format(row, col, text, &format) {
        Ok(_) => Ok(()),
        Err(e) => Err(e),
    }
}

/// A failure of rendering a plan into worksheets.
#[derive(Debug, Clone, PartialEq, Eq)]
pub enum RenderError {
    /// The named sheet's name is not a valid sheet name.
    InvalidSheetName { sheet: usize },
    /// The indexed text cell of the named sheet lies outside the row,
    /// column, indent or text limits.
    CellOutOfRange { sheet: usize, index: usize },
}

/// A text cell the worksheet can hold.
pub open spec fn cell_in_limits(c: CellV) -> bool {
    c.row < row_limit() && c.col < col_limit() && c.indent <= 255 && c.text.len() <= text_limit()
}

/// Whether a planned cell is written here: every cell but the numeric
/// values, which carry floating-point data and are written by the
/// application.
pub open spec fn is_text_cell(c: CellV) -> bool {
    !(c.style is NumericValue)
}

/// The indent a written cell carries: header cells are written without
/// one, label cells with the planned indent.
pub open spec fn written_indent(c: CellV) -> u8 {
    match c.style {
        Style::HeaderGroup => 0u8,
        Style::HeaderScenario => 0u8,
        Style::HeaderScenarioLast => 0u8,
        _ => c.indent as u8,
    }
}

/// The worksheet contents that a plan's cells describe: each text cell's
/// text and written indent at its position, in order.
pub open spec fn text_cells_of(cells: Seq<CellV>) -> Map<(u32, u16), (Seq<char>, u8)>
    decreases cells.len(),
{
    if cells.len() == 0 {
        Map::empty()
    } else {
        let m = text_cells_of(cells.drop_last());
        let c = cells.last();
        if is_text_cell(c) {
            m.insert((c.row as u32, c.col as u16), (c.text, written_indent(c)))
        } else {
            m
        }
    }
}

/// A plan whose name and text cells the worksheet can hold.
pub open spec fn plan_renderable(p: SheetPlanV) -> bool {
    valid_sheet_name(p.name) && forall|i: int|
        0 <= i < p.cells.len() && is_text_cell(#[trigger] p.cells[i]) ==> cell_in_limits(
            p.cells[i],
        )
}

/// Render one sheet plan into a worksheet: set its name and write its
/// text cells in order. Succeeds if and only if the name is valid and
/// every text cell lies within the worksheet's limits; on success the
/// worksheet holds exactly the plan's text cells under the plan's name.
pub fn render_sheet(plan: &SheetPlan, sheet_index: usize) -> (r: Result<
    rust_xlsxwriter::Worksheet,
    RenderError,
>)
    ensures
        r is Ok <==> plan_renderable(plan@),
        r is Ok ==> sheet_title(r->Ok_0) == plan@.name && sheet_cells(r->Ok_0) == text_cells_of(
            plan@.cells,
        ),
        r matches Result::<rust_xlsxwriter::Worksheet, RenderError>::Err(
            RenderError::InvalidSheetName { sheet },
        ) ==> sheet == sheet_index && !valid_sheet_name(plan@.name),
        r matches Result::<rust_xlsxwriter::Worksheet, RenderError>::Err(
            RenderError::CellOutOfRange { sheet, index },
        ) ==> {
            &&& sheet == sheet_index
            &&& valid_sheet_name(plan@.name)
            &&& 0 <= (index as int) < plan@.cells.len()
            &&& is_text_cell(plan@.cells[index as int])
            &&& !cell_in_limits(plan@.cells[index as int])
        },
{
    let mut ws = new_worksheet();
    match set_sheet_name(&mut ws, plan.name.as_str()) {
        Ok(()) => {},
        Err(_) => {
            return Err(RenderError::InvalidSheetName { sheet: sheet_index });
        },
    }
    let ghost cellsv = plan@.cells;
    let mut i: usize = 0;
    proof {
        assert(cellsv.take(0) =~= Seq::<CellV>::empty());
        assert(sheet_cells(ws) =~= text_cells_of(cellsv.take(0)));
    }
    while i < plan.cells.len()
        invariant
            0 <= i <= plan.cells@.len(),
            cellsv == plan@.cells,
            cellsv.len() == plan.cells@.len(),
            valid_sheet_name(plan@.name),
            sheet_title(ws) == plan@.name,
            sheet_cells(ws) == text_cells_of(cellsv.take(i as int)),
            forall|k: int|
                0 <= k < i && is_text_cell(#[trigger] cellsv[k]) ==> cell_in_limits(cellsv[k]),
        decreases plan.cells@.len() - i,
    {
        let c = &plan.cells[i];
        proof {
            assert(cellsv[i as int] == plan.cells@[i as int]@);
            assert(cellsv.take(i + 1).drop_last() =~= cellsv.take(i as int));
            assert(cellsv.take(i + 1).last() == cellsv[i as int]);
        }
        let is_numeric_cell: bool = match c.style {
            Style::NumericValue => true,
            _ => false,
        };
        if !is_numeric_cell {
            if c.row >= 1048576 || c.col >= 16384 || c.indent > 255 {
                return Err(RenderError::CellOutOfRange { sheet: sheet_index, index: i });
            }
            let row: u32 = c.row as u32;
            let col: u16 = c.col as u16;
            let indent: u8 = c.indent as u8;
            let ghost pre_cells = sheet_cells(ws);
            let outcome: Result<(), rust_xlsxwriter::XlsxError> = match c.style {
                Style::HeaderGroup => write_header_group(&mut ws, row, col, c.text.as_str()),
                Style::HeaderScenario => write_header_scenario(&mut ws, row, col, c.text.as_str()),
                Style::HeaderScenarioLast => write_header_scenario_last(
                    &mut ws,
                    row,
                    col,
                    c.text.as_str(),
                ),
                _ => write_label(&mut ws, row, col, c.text.as_str(), indent),
            };
            match outcome {
                Ok(()) => {},
                Err(_) => {
                    return Err(RenderError::CellOutOfRange { sheet: sheet_index, index: i });
                },
            }
            proof {
                let cv = cellsv[i as int];
                assert(is_text_cell(cv));
                assert((row as int, col as int) == (cv.row, cv.col));
                assert(row == cv.row as u32 && col == cv.col as u16);
                assert(indent == cv.indent as u8);
                assert(c.text@ == cv.text);
                assert(pre_cells == text_cells_of(cellsv.take(i as int)));
                assert(sheet_cells(ws) == pre_cells.insert((row, col), (c.text@, written_indent(cv))));
                assert(text_cells_of(cellsv.take(i + 1)) == text_cells_of(
                    cellsv.take(i as int),
                ).insert((cv.row as u32, cv.col as u16), (cv.text, written_indent(cv))));
            }
        } else {
            proof {
                assert(!is_text_cell(cellsv[i as int]));
                assert(text_cells_of(cellsv.take(i + 1)) == text_cells_of(cellsv.take(i as int)));
            }
        }
        proof {
            assert(sheet_cells(ws) == text_cells_of(cellsv.take(i + 1)));
        }
        i += 1;
    }
    proof {
        assert(cellsv.take(cellsv.len() as int) =~= cellsv);
    }
    Ok(ws)
}

/// Render every sheet plan, in order. Succeeds if and only if every plan
/// is renderable; on success the worksheets carry exactly the plans'
/// names and text cells, in the plans' order.
pub fn render(plans: &Vec<SheetPlan>) -> (r: Result<Vec<rust_xlsxwriter::Worksheet>, RenderError>)
    ensures
        r is Ok <==> (forall|i: int|
            0 <= i < plans@.len() ==> plan_renderable(#[trigger] plans@[i]@)),
        r is Ok ==> {
            &&& r->Ok_0@.len() == plans@.len()
            &&& forall|i: int|
                0 <= i < plans@.len() ==> sheet_title(#[trigger] r->Ok_0@[i]) == plans@[i]@.name
                    && sheet_cells(r->Ok_0@[i]) == text_cells_of(plans@[i]@.cells)
        },
        r matches Result::<Vec<rust_xlsxwriter::Worksheet>, RenderError>::Err(e) ==> {
            &&& match e {
                RenderError::InvalidSheetName { sheet } => 0 <= (sheet as int) < plans@.len()
                    && !valid_sheet_name(plans@[sheet as int]@.name),
                RenderError::CellOutOfRange { sheet, index } => 0 <= (sheet as int)
                    < plans@.len() && !plan_renderable(plans@[sheet as int]@),
            }
        },
{
    let mut out: Vec<rust_xlsxwriter::Worksheet> = Vec::new();
    let mut i: usize = 0;
    while i < plans.len()
        invariant
            0 <= i <= plans@.len(),
            out@.len() == i,
            forall|k: int| 0 <= k < i ==> plan_renderable(#[trigger] plans@[k]@),
            forall|k: int|
                0 <= k < i ==> sheet_title(#[trigger] out@[k]) == plans@[k]@.name && sheet_cells(
                    out@[k],
                ) == text_cells_of(plans@[k]@.cells),
        decreases plans@.len() - i,
    {
        match render_sheet(&plans[i], i) {
            Ok(ws) => {
                out.push(ws);
            },
            Err(e) => {
                proof {
                    assert(!plan_renderable(plans@[i as int]@));
                }
                return Err(e);
            },
        }
        i += 1;
    }
    Ok(out)
}

} // verus!
