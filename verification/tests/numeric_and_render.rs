use outline_report::driver::{run, SheetPlan};
use outline_report::outline::{Cell, Style};
use outline_report::numeric::is_numeric_str;
use outline_report::record::Record;
use outline_report::render::{render, RenderError};
use rust_xlsxwriter::{DocProperties, ExcelDateTime, Workbook, Worksheet};

fn rec(group: &str, metric: &str, path: &str, values: &[&str]) -> Record {
    let mut fields: Vec<String> = vec![group.to_string(), metric.to_string(), path.to_string()];
    for v in values {
        fields.push((*v).to_string());
    }
    Record::from_fields(&fields).expect("record must parse")
}

#[test]
fn numeric_literals_accepted() {
    for s in [
        "0", "1", "42", "1.5", "2.25", "-3", "+4", "1.", ".5", "+.5", "-0.25", "1e5", "1E5",
        "1e+5", "1e-5", "2.5e3", "1.e2", "inf", "INF", "+inf", "-Inf", "infinity", "Infinity",
        "nan", "NaN", "-nan", "007", "1e005",
    ] {
        assert!(is_numeric_str(s), "expected {s:?} to be numeric");
        assert!(s.parse::<f32>().is_ok(), "{s:?} must parse as a float");
    }
}

#[test]
fn numeric_literals_rejected() {
    for s in [
        "", "+", "-", ".", "e5", "1e", "1e+", "abc", " 1", "1 ", "1_000", "1,5", "--1", "1.2.3",
        "0x10", "in", "infi", "nanx", "1e5x", "+-1", "1.5e", ".e5",
    ] {
        assert!(!is_numeric_str(s), "expected {s:?} to be rejected");
        assert!(s.parse::<f32>().is_err(), "{s:?} must not parse as a float");
    }
}

#[test]
fn render_sets_sheet_names() {
    let records = vec![
        rec("G1", "M1", "A_B", &["1.5"]),
        rec("G2", "M1", "C", &["2"]),
    ];
    let scen = vec!["S1".to_string()];
    let plans = run(&records, &scen).expect("run must succeed");
    let sheets = render(&plans).expect("render must succeed");
    assert_eq!(sheets.len(), 2);
    assert_eq!(sheets[0].name(), "G1");
    assert_eq!(sheets[1].name(), "G2");
}

#[test]
fn render_rejects_invalid_sheet_name() {
    let records = vec![rec("", "M1", "A", &["1"])];
    let scen = vec!["S1".to_string()];
    let plans = run(&records, &scen).expect("run must succeed");
    let refused = render(&plans);
    assert!(matches!(
        refused,
        Err(RenderError::InvalidSheetName { sheet: 0 })
    ));
    let starry = vec![rec("bad*name", "M1", "A", &["1"])];
    let plans2 = run(&starry, &scen).expect("run must succeed");
    let refused2 = render(&plans2);
    assert!(matches!(
        refused2,
        Err(RenderError::InvalidSheetName { sheet: 0 })
    ));
}

#[test]
fn render_rejects_out_of_range_cells() {
    let far = SheetPlan {
        name: "G1".to_string(),
        cells: vec![Cell {
            row: 2_000_000,
            col: 0,
            text: "deep".to_string(),
            indent: 1,
            style: Style::OutlineLabel,
        }],
    };
    let refused = render(&vec![far]);
    assert!(matches!(
        refused,
        Err(RenderError::CellOutOfRange { sheet: 0, index: 0 })
    ));
    let long_text = SheetPlan {
        name: "G1".to_string(),
        cells: vec![Cell {
            row: 1,
            col: 0,
            text: "x".repeat(40_000),
            indent: 1,
            style: Style::OutlineLabel,
        }],
    };
    let refused2 = render(&vec![long_text]);
    assert!(matches!(
        refused2,
        Err(RenderError::CellOutOfRange { sheet: 0, index: 0 })
    ));
}

fn pinned_buffer(mut sheets: Vec<Worksheet>) -> Vec<u8> {
    let mut workbook = Workbook::new();
    let created = ExcelDateTime::from_ymd(2020, 1, 1).expect("fixed date");
    workbook.set_properties(&DocProperties::new().set_creation_datetime(&created));
    for ws in sheets.drain(..) {
        workbook.push_worksheet(ws);
    }
    workbook.save_to_buffer().expect("save must succeed")
}

#[test]
fn rendered_cells_change_the_document() {
    // A worksheet rendered from a plan must differ, byte for byte, from a
    // bare worksheet that only carries the same name: the cell writes
    // leave their mark on the saved document.
    let records = vec![rec("G1", "M1", "A_B", &["1.5"])];
    let scen = vec!["S1".to_string()];
    let plans = run(&records, &scen).expect("run must succeed");
    let sheets = render(&plans).expect("render must succeed");
    let with_cells = pinned_buffer(sheets);

    let mut bare = Worksheet::new();
    bare.set_name("G1").expect("valid name");
    let without_cells = pinned_buffer(vec![bare]);
    assert_ne!(with_cells, without_cells);
}

#[test]
fn rendering_twice_is_byte_identical() {
    let records = vec![
        rec("G1", "M1", "A_B", &["1.5", "2.25"]),
        rec("G1", "M1", "A_C", &["3", "4"]),
    ];
    let scen = vec!["S1".to_string(), "S2".to_string()];
    let first = pinned_buffer(render(&run(&records, &scen).unwrap()).unwrap());
    let second = pinned_buffer(render(&run(&records, &scen).unwrap()).unwrap());
    assert_eq!(first, second);
}
