use vmiscope_gui::query::{column_is_numeric, gutter_labels, has_order_by, relative_time, rows_label};

// -- ORDER BY derivation ----------------------------------------------

#[test]
fn a_query_without_order_by_shows_no_note() {
    for wql in [
        "SELECT * FROM Win32_Process",
        "SELECT Name, ProcessId FROM Win32_Process WHERE ProcessId > 4",
        "",
        "ASSOCIATORS OF {Win32_Process.Handle=\"4\"}",
    ] {
        assert!(!has_order_by(wql), "{wql:?} was read as having ORDER BY");
    }
}

#[test]
fn order_by_is_found_whatever_its_casing_or_spacing() {
    for wql in [
        "SELECT * FROM Win32_Process ORDER BY Name",
        "select name from win32_process order by name desc",
        "SELECT * FROM Win32_Process\n  ORDER BY WorkingSetSize DESC",
        "SELECT * FROM Win32_Process ORDER\nBY Name",
        "SELECT * FROM Win32_Process    ORDER     BY   Name",
    ] {
        assert!(has_order_by(wql), "{wql:?} was not recognised");
    }
}

#[test]
fn order_by_inside_a_string_literal_is_not_a_clause() {
    assert!(!has_order_by(
        "SELECT * FROM Win32_Service WHERE Name = 'order by'"
    ));
    assert!(!has_order_by(
        "SELECT * FROM Win32_Service WHERE Caption = \"ORDER BY\""
    ));
    assert!(!has_order_by(
        "SELECT * FROM Win32_Service WHERE Name = 'say ''order by'' now'"
    ));
    assert!(has_order_by(
        "SELECT * FROM Win32_Service WHERE Name = 'order by' ORDER BY Name"
    ));
}

#[test]
fn order_alone_is_not_order_by() {
    assert!(!has_order_by("SELECT OrderBy FROM Widgets"));
    assert!(!has_order_by("SELECT * FROM Orders WHERE Order = 1"));
    assert!(!has_order_by("SELECT * FROM X GROUP BY Y"));
}

// -- gutter ------------------------------------------------------------

#[test]
fn the_gutter_numbers_every_row_when_nothing_wraps() {
    let labels = gutter_labels(&[true, true, true, false]);
    assert_eq!(labels, vec![Some(1), Some(2), Some(3), Some(4)]);
}

#[test]
fn a_wrapped_line_is_numbered_once() {
    let labels = gutter_labels(&[false, false, true, false, false]);
    assert_eq!(labels, vec![Some(1), None, None, Some(2), None]);
}

#[test]
fn a_trailing_newline_gets_its_own_number() {
    let labels = gutter_labels(&[true, false]);
    assert_eq!(labels, vec![Some(1), Some(2)]);
}

#[test]
fn an_empty_galley_has_no_numbers() {
    assert!(gutter_labels(&[]).is_empty());
}

// -- relative time -----------------------------------------------------

#[test]
fn relative_time_is_coarse_and_never_negative() {
    let now = 1_750_000_000;
    assert_eq!(relative_time(now, now), "just now");
    assert_eq!(relative_time(now - 59, now), "just now");
    assert_eq!(relative_time(now - 60, now), "1 min ago");
    assert_eq!(relative_time(now - 3_599, now), "59 min ago");
    assert_eq!(relative_time(now - 3_600, now), "1 h ago");
    assert_eq!(relative_time(now - 86_399, now), "23 h ago");
    assert_eq!(relative_time(now - 86_400, now), "1 d ago");
    assert_eq!(relative_time(now + 10, now), "\u{2014}");
    assert_eq!(relative_time(0, now), "\u{2014}");
}

#[test]
fn one_row_is_a_row() {
    assert_eq!(rows_label(0), "0 rows");
    assert_eq!(rows_label(1), "1 row");
    assert_eq!(rows_label(187), "187 rows");
}

// -- column typing -----------------------------------------------------

fn rows(cells: &[&[&str]]) -> Vec<Vec<String>> {
    cells
        .iter()
        .map(|r| r.iter().map(|s| s.to_string()).collect())
        .collect()
}

#[test]
fn query_numeric_detection_needs_every_nonempty_cell_to_parse() {
    let data = rows(&[
        &["42", "root", "", "3.5"],
        &["17", "12", "", "x"],
        &["8", "9", "", "1"],
    ]);
    assert!(column_is_numeric(&data, 0));
    assert!(!column_is_numeric(&data, 1));
    assert!(!column_is_numeric(&data, 2), "all empty -> not numeric");
    assert!(!column_is_numeric(&data, 3));
}

#[test]
fn instances_numeric_detection_needs_every_nonempty_cell_to_parse() {
    let data = rows(&[
        &["42", "root", "", "3.5"],
        &["17", "12", "", "x"],
        &["8", "9", "", "1"],
    ]);
    assert!(column_is_numeric(&data, 0), "all numbers");
    assert!(!column_is_numeric(&data, 1), "'root' is not a number");
    assert!(!column_is_numeric(&data, 2), "all empty -> not numeric");
    assert!(!column_is_numeric(&data, 3), "'x' breaks it");
}

#[test]
fn float_spellings_count_as_numbers() {
    // What `f64::from_str` accepts: signs, exponents, and the named values.
    let data = rows(&[&["-1.5e3"], &["+.5"], &["inf"], &["NaN"], &["7."]]);
    assert!(column_is_numeric(&data, 0));
    let bad = rows(&[&["1e"], &["5"]]);
    assert!(!column_is_numeric(&bad, 0));
    let hex = rows(&[&["0x10"]]);
    assert!(!column_is_numeric(&hex, 0));
}
