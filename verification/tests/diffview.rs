use vmiscope_gui::compare::{DiffPlan, KeySource, QueryResult, Sign};
use vmiscope_gui::diffview::{
    build_view, cell_text, diff_to_csv, label_b_rows, only_cols, row_maps, DiffView, RowDelta, TableDiff,
    Verdict,
};

fn strings(items: &[&str]) -> Vec<String> {
    items.iter().map(|s| s.to_string()).collect()
}

fn table(columns: &[&str], rows: &[&[&str]]) -> QueryResult {
    QueryResult {
        columns: strings(columns),
        rows: rows.iter().map(|r| strings(r)).collect(),
        key_columns: strings(&["Name"]),
        partial: None,
    }
}

fn row(pairs: &[(&str, &str)]) -> Vec<(String, String)> {
    pairs.iter().map(|(c, v)| (c.to_string(), v.to_string())).collect()
}

fn plan(columns: &[&str], sound: bool) -> DiffPlan {
    DiffPlan {
        keys: strings(&["Name"]),
        source: KeySource::ClassKey,
        note: None,
        columns: strings(columns),
        ignored: Vec::new(),
        sound,
    }
}

fn signs(view: &DiffView) -> Vec<Sign> {
    view.lines.iter().map(|l| l.sign).collect()
}

fn cell(view: &DiffView, line: usize, column: &str) -> String {
    let col = view.columns.iter().position(|c| c == column).expect("column");
    view.lines[line].cells[col].text.clone()
}

/// The four states in one table, keyed on `Name`, from the report a differ
/// gives for it.
fn four_states() -> (QueryResult, QueryResult, TableDiff) {
    let a = table(&["Name", "State"], &[&["a", "Running"], &["b", "Running"], &["c", "Stopped"]]);
    let b = table(&["Name", "State"], &[&["a", "Running"], &["b", "Stopped"], &["d", "Running"]]);
    let diff = TableDiff {
        added: vec![row(&[("Name", "d"), ("State", "Running")])],
        changed: vec![RowDelta {
            a: row(&[("Name", "b"), ("State", "Running")]),
            b: row(&[("Name", "b"), ("State", "Stopped")]),
            changed_columns: strings(&["State"]),
        }],
        removed: vec![row(&[("Name", "c"), ("State", "Stopped")])],
    };
    (a, b, diff)
}

#[test]
fn every_row_of_b_is_labelled_from_the_report_and_every_sign_counted() {
    let (a, b, diff) = four_states();
    let view = build_view(&a, &b, plan(&["Name", "State"], true), diff);
    assert_eq!(signs(&view), vec![Sign::Same, Sign::Changed, Sign::OnlyB, Sign::OnlyA]);
    assert_eq!(view.counts, [1, 1, 1, 1]);
    assert!(view.sound);
    assert_eq!(cell(&view, 1, "State"), "Running \u{2192} Stopped");
    assert_eq!(cell(&view, 1, "Name"), "b");
    assert!(view.lines[1].cells[1].changed);
    assert!(!view.lines[1].cells[0].changed);
    assert!(!view.lines[0].cells[1].changed);
    // The A-only row shows A's values, not blanks.
    assert_eq!(cell(&view, 3, "State"), "Stopped");
}

#[test]
fn an_unsound_plan_stays_unsound_in_the_view() {
    let (a, b, diff) = four_states();
    let view = build_view(&a, &b, plan(&["Name", "State"], false), diff);
    assert!(!view.sound);
}

#[test]
fn duplicate_rows_take_the_verdicts_in_b_order() {
    let a = table(&["Name", "V"], &[&["dup", "1"], &["dup", "2"], &["dup", "3"]]);
    let b = table(&["Name", "V"], &[&["dup", "9"], &["dup", "2"]]);
    let diff = TableDiff {
        added: Vec::new(),
        changed: vec![RowDelta {
            a: row(&[("Name", "dup"), ("V", "1")]),
            b: row(&[("Name", "dup"), ("V", "9")]),
            changed_columns: strings(&["V"]),
        }],
        removed: vec![row(&[("Name", "dup"), ("V", "3")])],
    };
    let view = build_view(&a, &b, plan(&["Name", "V"], true), diff);
    assert_eq!(signs(&view), vec![Sign::Changed, Sign::Same, Sign::OnlyA]);
    assert_eq!(cell(&view, 0, "V"), "1 \u{2192} 9");
    assert_eq!(cell(&view, 1, "V"), "2");
    assert_eq!(cell(&view, 2, "V"), "3");
    assert_eq!(view.counts, [1, 1, 1, 0]);
}

#[test]
fn a_column_one_side_lacks_is_reported_and_dashed() {
    let a = table(&["Name", "State"], &[&["w32time", "Running"]]);
    let b = table(&["Name", "State", "Description"], &[&["w32time", "Running", "Windows Time"]]);
    let diff = TableDiff {
        added: Vec::new(),
        changed: vec![RowDelta {
            a: row(&[("Name", "w32time"), ("State", "Running")]),
            b: row(&[("Name", "w32time"), ("State", "Running"), ("Description", "Windows Time")]),
            changed_columns: strings(&["Description"]),
        }],
        removed: Vec::new(),
    };
    let view = build_view(&a, &b, plan(&["Name", "State", "Description"], true), diff);
    assert_eq!(view.only_b_cols, strings(&["Description"]));
    assert!(view.only_a_cols.is_empty());
    assert_eq!(signs(&view), vec![Sign::Changed]);
    assert_eq!(cell(&view, 0, "Description"), "\u{2014} \u{2192} Windows Time");
}

#[test]
fn only_columns_come_out_sorted_and_once() {
    let x = strings(&["Zeta", "Alpha", "Name", "Alpha", "Beta"]);
    let y = strings(&["Name"]);
    assert_eq!(only_cols(&x, &y), strings(&["Alpha", "Beta", "Zeta"]));
    assert!(only_cols(&y, &x).is_empty());
}

#[test]
fn the_csv_writes_both_sides_of_a_changed_row_then_the_identical_ones() {
    let a = table(&["Name", "State"], &[&["a", "Running"], &["b", "Running"]]);
    let b = table(&["Name", "State"], &[&["a", "Running"], &["b", "Stopped"]]);
    let diff = TableDiff {
        added: Vec::new(),
        changed: vec![RowDelta {
            a: row(&[("Name", "b"), ("State", "Running")]),
            b: row(&[("Name", "b"), ("State", "Stopped")]),
            changed_columns: strings(&["State"]),
        }],
        removed: Vec::new(),
    };
    let csv = diff_to_csv(&build_view(&a, &b, plan(&["Name", "State"], true), diff));
    let lines: Vec<&str> = csv.lines().collect();
    assert_eq!(lines[0], "Diff,Side,Name,State");
    assert_eq!(lines[1], "!=,A,b,Running");
    assert_eq!(lines[2], "!=,B,b,Stopped");
    assert_eq!(lines[3], "=,B,a,Running");
    assert_eq!(lines.len(), 4);
}

#[test]
fn the_csv_quotes_a_field_that_needs_it_and_keeps_every_side() {
    let (a, b, diff) = four_states();
    let mut diff = diff;
    diff.added = vec![row(&[("Name", "d, e"), ("State", "Running")])];
    let b = QueryResult { rows: vec![strings(&["a", "Running"]), strings(&["b", "Stopped"]), strings(&["d, e", "Running"])], ..b };
    let csv = diff_to_csv(&build_view(&a, &b, plan(&["Name", "State"], true), diff));
    assert_eq!(
        csv,
        "Diff,Side,Name,State\n!=,A,b,Running\n!=,B,b,Stopped\n+,B,\"d, e\",Running\n-,A,c,Stopped\n=,B,a,Running\n"
    );
}

#[test]
fn a_cell_is_its_value_or_a_dash() {
    let r = row(&[("Name", "x"), ("Empty", "")]);
    assert_eq!(cell_text(&r, "Name"), "x");
    assert_eq!(cell_text(&r, "Empty"), "");
    assert_eq!(cell_text(&r, "Missing"), "\u{2014}");
}

#[test]
fn rows_are_named_by_the_columns() {
    let q = table(&["Name", "State"], &[&["a", "Running"], &["b"]]);
    let rows = row_maps(&q);
    assert_eq!(rows[0], row(&[("Name", "a"), ("State", "Running")]));
    assert_eq!(rows[1], row(&[("Name", "b")]));
}

#[test]
fn labels_follow_the_report_by_equality_not_position() {
    let b_rows = vec![row(&[("N", "1")]), row(&[("N", "2")]), row(&[("N", "3")])];
    let diff = TableDiff {
        added: vec![row(&[("N", "3")])],
        changed: vec![RowDelta { a: row(&[("N", "0")]), b: row(&[("N", "2")]), changed_columns: strings(&["N"]) }],
        removed: Vec::new(),
    };
    assert_eq!(label_b_rows(&b_rows, &diff), vec![Verdict::Same, Verdict::Changed(0), Verdict::Added]);
}
