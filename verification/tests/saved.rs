use vmiscope_gui::app::VmiScopeApp;
use vmiscope_gui::nav::View;
use vmiscope_gui::saved::{last_rows_label, preview, SavedQuery, SavedView};

fn library() -> Vec<SavedQuery> {
    vec![
        SavedQuery {
            name: "Processes".into(),
            folder: "Triage".into(),
            wql: "SELECT * FROM Win32_Process".into(),
            namespace: "root\\CIMV2".into(),
            fav: true,
        },
        SavedQuery {
            name: "Services".into(),
            folder: "Triage".into(),
            wql: "SELECT * FROM Win32_Service".into(),
            namespace: "root\\CIMV2".into(),
            fav: false,
        },
        SavedQuery {
            name: "Shares".into(),
            folder: String::new(),
            wql: "SELECT * FROM Win32_Share".into(),
            namespace: String::new(),
            fav: false,
        },
    ]
}

fn names(view: &SavedView) -> Vec<String> {
    library()
        .iter()
        .filter(|q| view.matches(q))
        .map(|q| q.name.clone())
        .collect()
}

#[test]
fn an_empty_filter_matches_everything() {
    let view = SavedView::new();
    assert_eq!(names(&view), vec!["Processes", "Services", "Shares"]);
}

#[test]
fn the_folder_filter_selects_one_folder_and_the_ungrouped_bucket() {
    let view = SavedView { folder: Some("Triage".into()), ..SavedView::new() };
    assert_eq!(names(&view), vec!["Processes", "Services"]);
    let view = SavedView { folder: Some(String::new()), ..SavedView::new() };
    assert_eq!(names(&view), vec!["Shares"]);
}

#[test]
fn the_favourites_filter_keeps_only_starred_queries() {
    let view = SavedView { favs_only: true, ..SavedView::new() };
    assert_eq!(names(&view), vec!["Processes"]);
}

#[test]
fn the_filters_compose() {
    let view = SavedView {
        favs_only: true,
        folder: Some("Triage".into()),
        filter: "service".into(),
    };
    assert!(names(&view).is_empty());

    let view = SavedView {
        folder: Some("Triage".into()),
        filter: "service".into(),
        ..SavedView::new()
    };
    assert_eq!(names(&view), vec!["Services"]);
}

#[test]
fn the_text_filter_searches_name_folder_and_query() {
    let by_name = SavedView { filter: "proc".into(), ..SavedView::new() };
    assert_eq!(names(&by_name), vec!["Processes"]);
    let by_folder = SavedView { filter: "TRIAGE".into(), ..SavedView::new() };
    assert_eq!(names(&by_folder), vec!["Processes", "Services"]);
    let by_body = SavedView { filter: "win32_share".into(), ..SavedView::new() };
    assert_eq!(names(&by_body), vec!["Shares"]);
}

#[test]
fn the_text_filter_is_trimmed() {
    let view = SavedView { filter: "  share \t".into(), ..SavedView::new() };
    assert_eq!(names(&view), vec!["Shares"]);
    let blank = SavedView { filter: "   ".into(), ..SavedView::new() };
    assert_eq!(names(&blank).len(), 3);
}

#[test]
fn the_preview_collapses_whitespace_and_elides_long_queries() {
    assert_eq!(
        preview("SELECT   Name,\n\n   ProcessId\nFROM Win32_Process"),
        "SELECT Name,\nProcessId\nFROM Win32_Process"
    );
    assert_eq!(
        preview("a\nb\nc\nd\ne"),
        format!("a\nb\nc\n{}", "\u{2026}"),
        "a query longer than the preview must say so"
    );
    assert_eq!(preview(""), "");
}

#[test]
fn exactly_three_lines_are_not_elided() {
    assert_eq!(preview("a\r\n\tb  c \r\nd"), "a\nb c\nd");
}

#[test]
fn an_unmeasured_row_count_renders_as_an_em_dash() {
    assert_eq!(last_rows_label(None), "\u{2014}");
    assert_eq!(last_rows_label(Some(0)), "0 rows");
    assert_eq!(last_rows_label(Some(1)), "1 row");
    assert_eq!(last_rows_label(Some(187)), "187 rows");
}

#[test]
fn a_saved_query_reopens_in_its_own_namespace() {
    let mut app = VmiScopeApp::new();
    let lib = library();
    let ns = app.apply_saved_query(&lib[0]);
    assert_eq!(ns.as_deref(), Some("root\\CIMV2"));
    assert_eq!(app.query_text, "SELECT * FROM Win32_Process");
    assert_eq!(app.view, View::Query);
    assert_eq!(app.apply_saved_query(&lib[2]), None);
}
