use outline_report::driver::{fits_capacity, run, validate_values, SheetPlan};
use outline_report::outline::{Cell, Style};
use outline_report::record::{Record, ReportError};

fn rec(group: &str, metric: &str, path: &str, values: &[&str]) -> Record {
    let mut fields: Vec<String> = vec![group.to_string(), metric.to_string(), path.to_string()];
    for v in values {
        fields.push((*v).to_string());
    }
    Record::from_fields(&fields).expect("record must parse")
}

fn scenarios(names: &[&str]) -> Vec<String> {
    names.iter().map(|s| (*s).to_string()).collect()
}

fn cell(plan: &SheetPlan, row: usize, col: usize) -> &Cell {
    plan.cells
        .iter()
        .find(|c| c.row == row && c.col == col)
        .unwrap_or_else(|| panic!("no cell at ({row}, {col})"))
}

fn leaf_row_count(plan: &SheetPlan) -> usize {
    // A leaf row is the row of a label cell indented one past its path
    // depth; in these fixtures every leaf carries values, so count the
    // distinct rows holding numeric cells.
    let mut rows: Vec<usize> = plan
        .cells
        .iter()
        .filter(|c| c.style == Style::NumericValue)
        .map(|c| c.row)
        .collect();
    rows.sort_unstable();
    rows.dedup();
    rows.len()
}

#[test]
fn two_siblings_share_ancestor() {
    let records = vec![
        rec("G1", "M1", "A_B", &["1.5", "2.25"]),
        rec("G1", "M1", "A_C", &["3", "4"]),
    ];
    let scen = scenarios(&["S1", "S2"]);
    assert!(fits_capacity(&records));
    let plans = run(&records, &scen).expect("run must succeed");
    assert_eq!(plans.len(), 1);
    let p = &plans[0];
    assert_eq!(p.name, "G1");
    // Header row.
    let h = cell(p, 0, 0);
    assert_eq!(h.text, "G1");
    assert_eq!(h.style, Style::HeaderGroup);
    assert_eq!(cell(p, 0, 1).text, "S1");
    assert_eq!(cell(p, 0, 1).style, Style::HeaderScenario);
    assert_eq!(cell(p, 0, 2).text, "S2");
    assert_eq!(cell(p, 0, 2).style, Style::HeaderScenarioLast);
    // Metric label at the first cursor row, no gap before it.
    let m = cell(p, 1, 0);
    assert_eq!(m.text, "M1");
    assert_eq!(m.style, Style::MetricLabel);
    assert_eq!(m.indent, 0);
    // One outline row for "A", indented one.
    let a = cell(p, 2, 0);
    assert_eq!(a.text, "A");
    assert_eq!(a.style, Style::OutlineLabel);
    assert_eq!(a.indent, 1);
    // Leaf "B" with its two values.
    let b = cell(p, 3, 0);
    assert_eq!(b.text, "B");
    assert_eq!(b.indent, 3);
    assert_eq!(cell(p, 3, 1).text, "1.5");
    assert_eq!(cell(p, 3, 1).style, Style::NumericValue);
    assert_eq!(cell(p, 3, 2).text, "2.25");
    // Leaf "C" directly below: no repeated "A" row.
    let c = cell(p, 4, 0);
    assert_eq!(c.text, "C");
    assert_eq!(c.indent, 3);
    assert_eq!(cell(p, 4, 1).text, "3");
    assert_eq!(cell(p, 4, 2).text, "4");
    // No other label cell mentions "A" a second time.
    let a_rows = p.cells.iter().filter(|c| c.text == "A").count();
    assert_eq!(a_rows, 1);
    assert_eq!(leaf_row_count(p), 2);
}

#[test]
fn leaf_rows_match_record_count() {
    let records = vec![
        rec("G1", "M1", "A_B", &["1"]),
        rec("G1", "M1", "A_C", &["2"]),
        rec("G1", "M2", "A_B", &["3"]),
        rec("G1", "M2", "B_B", &["4"]),
        rec("G2", "M1", "Z", &["5"]),
    ];
    let scen = scenarios(&["S1"]);
    let plans = run(&records, &scen).expect("run must succeed");
    let total: usize = plans.iter().map(leaf_row_count).sum();
    assert_eq!(total, records.len());
}

#[test]
fn single_group_single_sheet() {
    let records = vec![
        rec("G1", "M1", "A_B", &["1"]),
        rec("G1", "M2", "C", &["2"]),
        rec("G1", "M2", "D_E_F", &["3"]),
    ];
    let plans = run(&records, &scenarios(&["S1"])).expect("run must succeed");
    assert_eq!(plans.len(), 1);
    assert_eq!(plans[0].name, "G1");
}

#[test]
fn two_groups_two_sheets_in_order() {
    let records = vec![
        rec("G1", "M1", "A_B", &["1"]),
        rec("G2", "M1", "A_B", &["2"]),
    ];
    let plans = run(&records, &scenarios(&["S1"])).expect("run must succeed");
    assert_eq!(plans.len(), 2);
    assert_eq!(plans[0].name, "G1");
    assert_eq!(plans[1].name, "G2");
    // The second sheet is independently headered and re-emits the full
    // path: outline state does not leak across the boundary.
    let p2 = &plans[1];
    assert_eq!(cell(p2, 0, 0).text, "G2");
    assert_eq!(cell(p2, 1, 0).text, "M1");
    let a = cell(p2, 2, 0);
    assert_eq!(a.text, "A");
    assert_eq!(a.indent, 1);
    let b = cell(p2, 3, 0);
    assert_eq!(b.text, "B");
    assert_eq!(cell(p2, 3, 1).text, "2");
}

#[test]
fn metric_change_emits_label_after_gap_and_full_path() {
    let records = vec![
        rec("G1", "M1", "A_B", &["1"]),
        rec("G1", "M2", "A_B", &["2"]),
    ];
    let plans = run(&records, &scenarios(&["S1"])).expect("run must succeed");
    let p = &plans[0];
    // M1 at row 1, "A" row 2, leaf "B" row 3; gap row 4; M2 at row 5,
    // then the path is fully re-emitted: "A" row 6, leaf row 7.
    assert_eq!(cell(p, 1, 0).text, "M1");
    assert_eq!(cell(p, 5, 0).text, "M2");
    assert_eq!(cell(p, 5, 0).style, Style::MetricLabel);
    assert_eq!(cell(p, 6, 0).text, "A");
    assert_eq!(cell(p, 7, 0).text, "B");
    assert_eq!(cell(p, 7, 1).text, "2");
}

#[test]
fn single_segment_path_one_leaf_no_ancestors() {
    let records = vec![rec("G1", "M1", "X", &["7"])];
    let plans = run(&records, &scenarios(&["S1"])).expect("run must succeed");
    let p = &plans[0];
    // Metric at row 1, leaf at row 2, no ancestor rows at all.
    let leaf = cell(p, 2, 0);
    assert_eq!(leaf.text, "X");
    assert_eq!(leaf.indent, 2);
    assert_eq!(cell(p, 2, 1).text, "7");
    let outline_rows = p
        .cells
        .iter()
        .filter(|c| c.style == Style::OutlineLabel)
        .count();
    assert_eq!(outline_rows, 1);
    assert_eq!(leaf_row_count(p), 1);
}

#[test]
fn rerun_produces_identical_plans() {
    let records = vec![
        rec("G1", "M1", "A_B", &["1.5", "2.25"]),
        rec("G1", "M1", "A_C", &["3", "4"]),
        rec("G2", "M9", "D", &["5", "6"]),
    ];
    let scen = scenarios(&["S1", "S2"]);
    let first = run(&records, &scen).expect("run must succeed");
    let second = run(&records, &scen).expect("run must succeed");
    assert_eq!(first, second);
}

#[test]
fn malformed_row_reports_field_count() {
    let fields = vec!["G1".to_string(), "M1".to_string()];
    assert_eq!(
        Record::from_fields(&fields),
        Err(ReportError::MalformedRow { fields_found: 2 })
    );
    let empty: Vec<String> = Vec::new();
    assert_eq!(
        Record::from_fields(&empty),
        Err(ReportError::MalformedRow { fields_found: 0 })
    );
}

#[test]
fn record_parsing_splits_path_and_collects_values() {
    let r = rec("G1", "M1", "A_B_C", &["1", "2"]);
    assert_eq!(r.group, "G1");
    assert_eq!(r.metric, "M1");
    assert_eq!(r.path, vec!["A", "B", "C"]);
    assert_eq!(r.values, vec!["1", "2"]);
    // A record with exactly three fields has no values.
    let bare = rec("G", "M", "P", &[]);
    assert!(bare.values.is_empty());
    // An empty path field yields a single empty segment.
    let e = rec("G", "M", "", &[]);
    assert_eq!(e.path, vec![""]);
    // Consecutive and trailing delimiters yield empty segments.
    let d = rec("G", "M", "A__B_", &[]);
    assert_eq!(d.path, vec!["A", "", "B", ""]);
}

#[test]
fn invalid_numeric_value_aborts_with_position() {
    let records = vec![
        rec("G1", "M1", "A_B", &["1.5"]),
        rec("G1", "M1", "A_C", &["2", "abc"]),
    ];
    let r = run(&records, &scenarios(&["S1", "S2"]));
    assert_eq!(r, Err(ReportError::InvalidNumericValue { row: 1, column: 1 }));
    assert_eq!(
        validate_values(&records),
        Err(ReportError::InvalidNumericValue { row: 1, column: 1 })
    );
}

#[test]
fn capacity_check_accepts_small_inputs() {
    let records = vec![rec("G1", "M1", "A_B", &["1"])];
    assert!(fits_capacity(&records));
    let none: Vec<Record> = Vec::new();
    assert!(fits_capacity(&none));
}
