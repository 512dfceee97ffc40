use vmiscope_gui::app::{CentralView, VmiScopeApp};
use vmiscope_gui::search::{HitAction, SearchHit, SearchIndex};

fn s(x: &str) -> String {
    x.to_string()
}

fn index(has_methods: bool) -> SearchIndex {
    SearchIndex {
        classes: vec![s("Win32_Service"), s("Win32_Process"), s("CIM_Process")],
        properties: vec![
            (s("Win32_Process"), vec![s("Name"), s("ProcessId")]),
            (s("Win32_Service"), vec![s("ProcessId"), s("State")]),
        ],
        methods: vec![(s("Win32_Process"), vec![s("Terminate"), s("AttachProcess")])],
        has_methods,
    }
}

fn shape(h: &SearchHit) -> (String, Option<String>, bool) {
    (h.class.clone(), h.member.clone(), h.is_method)
}

#[test]
fn no_index_means_no_hits() {
    let app = VmiScopeApp::new();
    assert!(app.compute_hits("process").is_empty());
}

#[test]
fn hits_sort_by_class_then_member_with_the_class_first() {
    let mut app = VmiScopeApp::new();
    app.search_index = Some(index(true));
    let hits: Vec<_> = app.compute_hits("process").iter().map(shape).collect();
    assert_eq!(
        hits,
        vec![
            (s("CIM_Process"), None, false),
            (s("Win32_Process"), None, false),
            (s("Win32_Process"), Some(s("AttachProcess")), true),
            (s("Win32_Process"), Some(s("ProcessId")), false),
            (s("Win32_Service"), Some(s("ProcessId")), false),
        ]
    );
}

#[test]
fn methods_are_only_searched_when_indexed() {
    let mut app = VmiScopeApp::new();
    app.search_index = Some(index(false));
    let hits: Vec<_> = app.compute_hits("process").iter().map(shape).collect();
    assert_eq!(hits.len(), 4);
    assert!(hits.iter().all(|h| !h.2));
}

#[test]
fn matching_ignores_the_case_of_the_name() {
    let mut app = VmiScopeApp::new();
    app.search_index = Some(index(false));
    let hits: Vec<_> = app.compute_hits("state").iter().map(shape).collect();
    assert_eq!(hits, vec![(s("Win32_Service"), Some(s("State")), false)]);
}

#[test]
fn at_most_three_hundred_hits_are_shown() {
    let mut app = VmiScopeApp::new();
    let classes: Vec<String> = (0..400).rev().map(|i| format!("Class{:03}", i)).collect();
    app.search_index = Some(SearchIndex {
        classes,
        properties: Vec::new(),
        methods: Vec::new(),
        has_methods: false,
    });
    let hits = app.compute_hits("class");
    assert_eq!(hits.len(), 300);
    assert_eq!(hits[0].class, "Class000");
    assert_eq!(hits[299].class, "Class299");
}

fn hit(class: &str, member: Option<&str>, is_method: bool) -> SearchHit {
    SearchHit { class: s(class), member: member.map(s), is_method }
}

#[test]
fn a_class_hit_selects_the_class() {
    let mut app = VmiScopeApp::new();
    app.central_view = CentralView::Schema;
    app.query_text = s("SELECT Name FROM Win32_Service");
    match app.apply_search_hit(hit("Win32_Process", None, false)) {
        HitAction::SelectClass(c) => assert_eq!(c, "Win32_Process"),
        _ => panic!("a class hit selects its class"),
    }
    assert_eq!(app.central_view, CentralView::Instances);
    assert_eq!(app.query_text, "SELECT Name FROM Win32_Service");
}

#[test]
fn a_property_hit_queries_that_property() {
    let mut app = VmiScopeApp::new();
    assert!(matches!(app.apply_search_hit(hit("Win32_Process", Some("ProcessId"), false)), HitAction::RunQuery));
    assert_eq!(app.query_text, "SELECT ProcessId FROM Win32_Process");
    assert_eq!(app.selected_class.as_deref(), Some("Win32_Process"));
    assert_eq!(app.central_view, CentralView::Instances);
}

#[test]
fn a_method_hit_queries_the_class_and_opens_the_method() {
    let mut app = VmiScopeApp::new();
    match app.apply_search_hit(hit("Win32_Process", Some("Terminate"), true)) {
        HitAction::RunForMethod { method, class } => {
            assert_eq!(method, "Terminate");
            assert_eq!(class, "Win32_Process");
        }
        _ => panic!("a method hit opens the method"),
    }
    assert_eq!(app.query_text, "SELECT * FROM Win32_Process");
    assert_eq!(app.selected_class.as_deref(), Some("Win32_Process"));
}
