use vmiscope_gui::app::VmiScopeApp;
use vmiscope_gui::diffview::{RowDelta, TableDiff};
use vmiscope_gui::machines::CredRef;
use vmiscope_gui::compare::{
    candidates, display_columns, first_line, is_volatile_column, list_or_none, resolve_ignores, resolve_keys,
    HostRef, KeySource, QueryResult, Response, SideState, Sign, Which,
};

fn table(columns: &[&str], rows: &[&[&str]]) -> QueryResult {
    QueryResult {
        columns: columns.iter().map(|s| s.to_string()).collect(),
        rows: rows
            .iter()
            .map(|r| r.iter().map(|s| s.to_string()).collect())
            .collect(),
        ..Default::default()
    }
}

fn keyed(columns: &[&str], rows: &[&[&str]], keys: &[&str]) -> QueryResult {
    QueryResult {
        key_columns: keys.iter().map(|s| s.to_string()).collect(),
        ..table(columns, rows)
    }
}

fn strings(items: &[&str]) -> Vec<String> {
    items.iter().map(|s| s.to_string()).collect()
}

// -- keys --------------------------------------------------------------

#[test]
fn a_declared_class_key_is_used() {
    let a = keyed(&["Name", "State"], &[&["spooler", "Running"]], &["Name"]);
    let (keys, source, note) = resolve_keys(&a, &a, None);
    assert_eq!(keys, strings(&["Name"]));
    assert_eq!(source, KeySource::ClassKey);
    assert!(note.is_none());
}

#[test]
fn a_key_the_query_did_not_return_falls_back_to_relpath() {
    let a = keyed(
        &["State", "__RELPATH"],
        &[&["Running", r#"Win32_Service.Name="spooler""#]],
        &["Name"],
    );
    let (keys, source, note) = resolve_keys(&a, &a, None);
    assert_eq!(keys, strings(&["__RELPATH"]));
    assert_eq!(source, KeySource::RelPath);
    assert!(note.expect("the fall-back is explained").contains("Name"));
}

#[test]
fn no_key_and_no_relpath_is_whole_row_and_says_so() {
    let a = table(&["State"], &[&["Running"]]);
    let (keys, source, note) = resolve_keys(&a, &a, None);
    assert!(keys.is_empty());
    assert_eq!(source, KeySource::WholeRow);
    assert!(note.is_some());
}

#[test]
fn a_manual_key_overrides_the_derived_one() {
    let a = keyed(&["Name", "State"], &[&["spooler", "Running"]], &["Name"]);
    let (keys, source, _) = resolve_keys(&a, &a, Some(&strings(&["State"])));
    assert_eq!(keys, strings(&["State"]));
    assert_eq!(source, KeySource::Manual);
}

#[test]
fn a_partly_returned_compound_key_is_not_used() {
    let a = keyed(
        &["Antecedent", "__RELPATH"],
        &[&["x", "y"]],
        &["Antecedent", "Dependent"],
    );
    let (keys, source, _) = resolve_keys(&a, &a, None);
    assert_eq!(keys, strings(&["__RELPATH"]));
    assert_eq!(source, KeySource::RelPath);
}

// -- ignores -----------------------------------------------------------

#[test]
fn volatile_columns_are_recognised() {
    for name in [
        "__PATH",
        "ProcessId",
        "ParentProcessId",
        "IDProcess",
        "Handle",
        "HandleCount",
        "ThreadCount",
        "InstallDate",
        "LastBootUpTime",
        "KernelModeTime",
        "Timestamp_Sys100NS",
        "PageFileUsage",
        "WorkingSetSize",
        "PrivateBytes",
        "PercentProcessorTime",
        "FreeSpace",
        "AvailableBytes",
        "ElapsedTime",
        "SystemUpTime",
        "VirtualSize",
        "PeakVirtualSize",
    ] {
        assert!(is_volatile_column(name), "{name} should be volatile");
    }
}

#[test]
fn stable_columns_are_left_alone() {
    for name in [
        "Name",
        "State",
        "Status",
        "StartMode",
        "StartName",
        "PathName",
        "Description",
        "Caption",
        "ServiceType",
        "ErrorControl",
        "__RELPATH",
        "__CLASS",
        "Version",
        "BytesPerSector",
        "Size",
        "TotalPhysicalMemory",
    ] {
        assert!(!is_volatile_column(name), "{name} should not be volatile");
    }
}

#[test]
fn the_ignore_list_can_be_replaced_wholesale() {
    let columns = strings(&["Name", "ProcessId", "State"]);
    assert_eq!(
        resolve_ignores(&columns, &Vec::new(), None),
        strings(&["ProcessId"])
    );
    let mine = strings(&["State"]);
    assert_eq!(
        resolve_ignores(&columns, &Vec::new(), Some(&mine)),
        strings(&["State"])
    );
}

#[test]
fn a_key_column_is_never_ignored_by_default() {
    let columns = strings(&["Handle", "Name", "ThreadCount"]);
    assert_eq!(
        resolve_ignores(&columns, &strings(&["Handle"]), None),
        strings(&["ThreadCount"])
    );
    assert_eq!(
        resolve_ignores(&columns, &Vec::new(), None),
        strings(&["Handle", "ThreadCount"])
    );
}

#[test]
fn the_key_leads_the_columns_and_b_only_columns_trail() {
    let a = table(&["State", "Name"], &[]);
    let b = table(&["State", "Name", "Extra"], &[]);
    assert_eq!(
        display_columns(&a, &b, &strings(&["Name"])),
        strings(&["Name", "State", "Extra"])
    );
}

// -- signs, labels and notes -------------------------------------------

#[test]
fn each_sign_has_its_own_mark_label_and_slot() {
    let all = [Sign::Same, Sign::Changed, Sign::OnlyA, Sign::OnlyB];
    let ranks: Vec<usize> = all.iter().map(|s| s.rank()).collect();
    assert_eq!(ranks, vec![0, 1, 2, 3]);
    assert_eq!(Sign::OnlyA.label(), "Only on A");
    assert_eq!(Sign::OnlyB.mark(), "+");
    assert_eq!(Which::B.label(), "B");
    assert_eq!(KeySource::RelPath.note(), "__RELPATH");
}

#[test]
fn an_empty_list_reads_as_a_dash() {
    assert_eq!(list_or_none(&Vec::new()), "\u{2014}");
    assert_eq!(list_or_none(&strings(&["Name", "State"])), "Name, State");
}

#[test]
fn a_status_line_keeps_only_the_first_line() {
    assert_eq!(first_line("access denied\nat line 2"), "access denied");
    assert_eq!(first_line(""), "");
    assert_eq!(first_line("one"), "one");
}

// -- the view's decisions ------------------------------------------------

#[test]
fn a_fresh_view_has_run_nothing() {
    let app = VmiScopeApp::new();
    assert_eq!(app.compare_status(), "No comparison run");
    assert!(!app.has_compare_blocker());
}

#[test]
fn a_run_refuses_a_side_that_needs_a_password() {
    let mut app = VmiScopeApp::new();
    app.compare.b.target = HostRef::Alt {
        host: "SRV2".into(),
        user: "CORP\\admin".into(),
    };
    app.compare.class = "  Win32_Share ".into();
    let d = app.compare_run();
    assert_eq!(d.wql, "SELECT * FROM Win32_Share");
    assert_eq!(d.namespace, "root\\CIMV2");
    assert_eq!(d.sides, vec![Which::A]);
    assert!(matches!(app.compare.b.state, SideState::Refused(_)));
    assert_eq!(app.compare_status(), "Side B was not run");
    assert!(app.has_compare_blocker());

    app.compare_sent(Which::A, Some(7), 8, true);
    assert_eq!(app.compare_status(), "Comparing\u{2026}");
    // A refresh while a side is running asks for nothing.
    assert!(app.compare_refresh().is_none());
}

#[test]
fn a_partial_side_withholds_the_diff_until_accepted() {
    let mut app = VmiScopeApp::new();
    let whole = keyed(&["Name", "State"], &[&["spooler", "Running"]], &["Name"]);
    let partial = QueryResult {
        partial: Some("truncated at 1 row".into()),
        ..keyed(&["Name", "State"], &[&["spooler", "Stopped"]], &["Name"])
    };
    app.compare.a.state = SideState::Done(whole);
    app.compare.b.state = SideState::Done(partial);
    assert!(app.compare_rebuild().is_none());
    assert_eq!(app.compare_status(), "Partial read \u{2014} the diff is withheld");
    assert!(app.has_compare_blocker());

    app.compare.allow_partial = true;
    let plan = app.compare_rebuild().expect("accepted");
    assert_eq!(plan.keys, strings(&["Name"]));
    assert_eq!(plan.source, KeySource::ClassKey);
    assert_eq!(plan.columns, strings(&["Name", "State"]));
    assert!(plan.ignored.is_empty());
    assert!(!plan.sound);

    let pair = |n: &str, s: &str| vec![("Name".to_string(), n.to_string()), ("State".to_string(), s.to_string())];
    let diff = TableDiff {
        added: Vec::new(),
        changed: vec![RowDelta {
            a: pair("spooler", "Running"),
            b: pair("spooler", "Stopped"),
            changed_columns: strings(&["State"]),
        }],
        removed: Vec::new(),
    };
    app.compare_show(plan, diff);
    assert_eq!(
        app.compare_status(),
        "0 identical \u{00b7} 1 changed \u{00b7} 0 only on A \u{00b7} 0 only on B \u{00b7} partial"
    );
    let csv = app.compare_export_csv().expect("a view is shown");
    assert_eq!(csv, "Diff,Side,Name,State\n!=,A,spooler,Running\n!=,B,spooler,Stopped\n");
}

#[test]
fn a_failed_side_is_named_in_the_status() {
    let mut app = VmiScopeApp::new();
    app.compare.a.state = SideState::Failed {
        context: "connect".into(),
        message: "RPC server unavailable".into(),
    };
    assert_eq!(app.compare_status(), "Side A did not answer");
    assert!(app.has_compare_blocker());
}

#[test]
fn a_reply_goes_to_the_side_that_asked_and_a_stale_one_is_dropped() {
    let mut app = VmiScopeApp::new();
    let d = app.compare_run();
    assert_eq!(d.sides, vec![Which::A, Which::B]);
    app.compare_sent(Which::A, Some(1), 2, true);
    app.compare_sent(Which::B, None, 3, true);

    // An id from a superseded run changes nothing.
    assert!(app.compare_apply(Response::QueryResult { id: 99, result: table(&["Name"], &[]) }).is_none());
    assert!(matches!(app.compare.a.state, SideState::Running));

    assert!(app.compare_apply(Response::HostConnected { id: 1, connect_ms: 40 }).is_none());
    assert_eq!(app.compare.a.connect_ms, Some(40));
    assert_eq!(app.compare.a.connect_id, None);

    app.compare_apply(Response::QueryResult { id: 2, result: keyed(&["Name"], &[&["a"]], &["Name"]) });
    assert!(matches!(app.compare.a.state, SideState::Done(_)));
    assert!(app.compare.stale);

    let logged = app.compare_apply(Response::Error {
        id: 3,
        context: "query".into(),
        message: "access denied".into(),
    });
    assert_eq!(logged.as_deref(), Some("Compare B: query\naccess denied"));
    assert_eq!(app.compare_status(), "Side B did not answer");
    // The reply's id is spent: the same reply again is dropped.
    assert!(app.compare_apply(Response::Error {
        id: 3,
        context: "query".into(),
        message: "again".into(),
    })
    .is_none());
}

/// The pickers are built from the saved targets, and the one thing they must
/// get right is which of those Compare can actually reach: an
/// alternate-credential target has no persisted password.
#[test]
fn the_pickers_offer_this_machine_first_and_lock_alt_cred_targets() {
    let targets = vec![
        ("SRV1".to_string(), CredRef::CurrentUser),
        (
            "SRV2".to_string(),
            CredRef::Alt { user: "admin".into(), domain: Some("CORP".into()) },
        ),
    ];
    let list = candidates(&targets);
    assert_eq!(list.len(), 3);

    assert_eq!(list[0].host, HostRef::Local);
    assert!(list[0].reachable);

    assert_eq!(list[1].host, HostRef::Sso { host: "SRV1".into() });
    assert!(list[1].reachable);

    assert_eq!(
        list[2].host,
        HostRef::Alt { host: "SRV2".into(), user: r"CORP\admin".into() }
    );
    assert!(!list[2].reachable);
}

#[test]
fn a_nameless_target_is_not_offered_and_names_are_trimmed() {
    let targets = vec![
        ("   ".to_string(), CredRef::CurrentUser),
        (" SRV3 ".to_string(), CredRef::Alt { user: "ops".into(), domain: Some(String::new()) }),
    ];
    let list = candidates(&targets);
    assert_eq!(list.len(), 2);
    assert_eq!(list[0].label, "This machine");
    assert_eq!(list[1].label, r"\\SRV3");
    assert_eq!(list[1].host, HostRef::Alt { host: "SRV3".into(), user: "ops".into() });
}

#[test]
fn nothing_is_exported_before_a_diff_is_shown() {
    let app = VmiScopeApp::new();
    assert!(app.compare_export_csv().is_none());
}

#[test]
fn a_refresh_dispatches_like_a_run() {
    let mut app = VmiScopeApp::new();
    app.compare.namespace = " root\\default ".into();
    app.compare.key_override = Some(strings(&["Name"]));
    let d = app.compare_refresh().expect("a run can start");
    assert_eq!(d.wql, "SELECT * FROM Win32_Service");
    assert_eq!(d.namespace, "root\\default");
    assert_eq!(d.sides, vec![Which::A, Which::B]);
    assert!(app.compare.key_override.is_none());
    assert_eq!(app.compare.ran_namespace, "root\\default");
}

fn shown_view(app: &mut VmiScopeApp) {
    let a = keyed(&["Name", "State", "PathName"], &[&["a", "Running", "x"]], &["Name"]);
    let b = keyed(&["Name", "State", "Description"], &[&["a", "Running", "y"]], &["Name"]);
    app.compare.a.state = SideState::Done(a);
    app.compare.b.state = SideState::Done(b);
    let plan = app.compare_rebuild().expect("both whole");
    let diff = TableDiff { added: Vec::new(), changed: Vec::new(), removed: Vec::new() };
    app.compare_show(plan, diff);
}

#[test]
fn shared_columns_only_ignores_what_one_side_lacks() {
    let mut app = VmiScopeApp::new();
    app.compare_shared_columns_only();
    assert!(app.compare.ignore_override.is_none());
    shown_view(&mut app);
    app.compare_shared_columns_only();
    assert_eq!(app.compare.ignore_override, Some(strings(&["Description", "PathName"])));
    assert!(app.compare.stale);
}

#[test]
fn toggling_an_ignored_column_edits_the_set() {
    let mut app = VmiScopeApp::new();
    shown_view(&mut app);
    app.compare_toggle_ignored("State");
    assert_eq!(app.compare.ignore_override, Some(strings(&["State"])));
    // The view still shows the defaults until it is rebuilt; toggling again
    // from the shown list adds another.
    app.compare_toggle_ignored("Name");
    assert_eq!(app.compare.ignore_override, Some(strings(&["Name"])));
    app.compare_reset_ignores();
    assert!(app.compare.ignore_override.is_none());
}

#[test]
fn accepting_a_partial_side_marks_the_view_for_rebuilding() {
    let mut app = VmiScopeApp::new();
    app.compare_accept_partial();
    assert!(app.compare.allow_partial);
    assert!(app.compare.stale);
}

#[test]
fn an_ignore_override_comes_back_as_a_sorted_set() {
    let columns = strings(&["Name", "State", "ProcessId"]);
    let over = strings(&["State", "Name", "State"]);
    assert_eq!(resolve_ignores(&columns, &Vec::new(), Some(&over)), strings(&["Name", "State"]));
}
