use vmiscope_gui::app::{MonitorMode, VmiScopeApp};
use vmiscope_gui::process::{
    advice, cmd_of, csv_field, depths, empty_note, exit_cell, keep, Cmd, Enrichment, Lifecycle,
    ProcInfo, TrackedProc, MAX_DEPTH, shown_process_rows,
};

/// A row as the log holds one after a start event: parent 4, session 1, no
/// owner or command line resolved yet.
fn started(pid: u32, parent_pid: u32, at: u64) -> TrackedProc {
    TrackedProc {
        pid,
        parent_pid,
        name: format!("p{pid}.exe"),
        user: String::new(),
        session_id: 1,
        started_at: at,
        ended_at: None,
        exit_status: None,
        command_line: Enrichment::Skipped,
    }
}

fn stopped(mut t: TrackedProc, exit: Option<u32>, at: u64) -> TrackedProc {
    t.ended_at = Some(at);
    t.exit_status = exit;
    t
}

#[test]
fn an_unreadable_command_line_is_not_an_empty_one() {
    let readable = Enrichment::Found(ProcInfo {
        command_line: "cmd /c exit".into(),
        executable_path: String::new(),
    });
    assert!(matches!(cmd_of(&readable), Cmd::Line("cmd /c exit")));

    let null = Enrichment::Found(ProcInfo {
        command_line: String::new(),
        executable_path: String::new(),
    });
    let unavailable = Enrichment::Unavailable;
    let skipped = Enrichment::Skipped;
    let (unreadable, unavailable, skipped) = (cmd_of(&null), cmd_of(&unavailable), cmd_of(&skipped));
    for cell in [&unreadable, &unavailable, &skipped] {
        assert!(
            matches!(cell, Cmd::Missing(..)),
            "a missing command line must never render as content"
        );
    }
    let label = |c: &Cmd<'_>| match c {
        Cmd::Line(_) => "",
        Cmd::Missing(l, _) => l,
    };
    assert_ne!(label(&unreadable), label(&unavailable));
    assert_ne!(label(&unavailable), label(&skipped));
    assert_ne!(label(&unreadable), label(&skipped));
}

#[test]
fn a_missing_exit_status_is_never_shown_as_zero() {
    let running = started(100, 4, 0);
    let (text, why) = exit_cell(&running);
    assert_eq!(text, "\u{2014}", "a running process has no status yet");
    assert!(why.is_none());

    let (text, why) = exit_cell(&stopped(running, None, 1));
    assert_eq!(text, "unknown");
    assert!(why.is_some(), "'unknown' has to say why");

    assert_eq!(exit_cell(&stopped(started(101, 4, 0), Some(0), 1)).0, "0");

    let (text, why) = exit_cell(&stopped(started(102, 4, 0), Some(0xc000_0005), 1));
    assert_eq!(text, "0xc0000005");
    assert_eq!(why.as_deref(), Some("3221225477 (0xc0000005)"));
    assert_eq!(exit_cell(&stopped(started(103, 4, 0), Some(0x100), 1)).0, "0x00000100");
}

#[test]
fn filters_compose() {
    let mut live = started(10, 4, 0);
    live.user = "CORP\\a.demir".into();
    live.command_line = Enrichment::Found(ProcInfo {
        command_line: "p10.exe --serve".into(),
        executable_path: String::new(),
    });
    let dead = stopped(started(11, 4, 0), Some(1), 1);

    assert!(keep(&live, "", Lifecycle::Live, false, None));
    assert!(!keep(&dead, "", Lifecycle::Live, false, None));
    assert!(keep(&dead, "", Lifecycle::Ended, false, None));

    assert!(!keep(&live, "", Lifecycle::All, true, None));
    assert!(keep(&dead, "", Lifecycle::All, true, None));

    assert!(keep(&live, "", Lifecycle::All, false, Some(1)));
    assert!(!keep(&live, "", Lifecycle::All, false, Some(2)));
    assert!(keep(&live, "p10", Lifecycle::All, false, None));
    assert!(keep(&live, "a.demir", Lifecycle::All, false, None));
    assert!(keep(&live, "--serve", Lifecycle::All, false, None));

    assert!(keep(&live, "p10", Lifecycle::Live, false, Some(1)));
    assert!(!keep(&live, "p10", Lifecycle::Ended, false, Some(1)));
    assert!(!keep(&live, "p99", Lifecycle::Live, false, Some(1)));

    assert!(!keep(&dead, "not queried", Lifecycle::All, false, None));
}

#[test]
fn the_text_filter_ignores_case_in_the_row() {
    let mut t = started(10, 4, 0);
    t.name = "SVCHOST.EXE".into();
    assert!(keep(&t, "svchost", Lifecycle::All, false, None));
}

#[test]
fn ancestry_does_not_depend_on_arrival_order() {
    let rows = vec![started(600, 500, 0), started(500, 4, 0)];
    let d = depths(&rows);
    assert_eq!(d[0], 1, "the child must be indented under a later-seen parent");
    assert_eq!(d[1], 0, "the parent is a root: pid 4 is not in the log");
}

#[test]
fn ancestry_is_bounded_and_refuses_a_later_parent() {
    let rows = vec![started(1, 2, 0), started(2, 1, 0)];
    for d in depths(&rows) {
        assert!(d <= MAX_DEPTH, "the walk has to stop somewhere");
    }

    let rows = vec![started(10, 900, 0), started(900, 4, 30)];
    assert_eq!(depths(&rows)[0], 0);
}

#[test]
fn ancestry_stops_at_the_indent_cap() {
    let rows: Vec<TrackedProc> = (1..=(MAX_DEPTH as u32 + 3))
        .map(|pid| started(pid, pid.saturating_sub(1), u64::from(pid)))
        .collect();
    let d = depths(&rows);
    assert_eq!(d[0], 0, "the root of the chain");
    assert_eq!(d[1], 1);
    assert_eq!(*d.last().expect("rows"), MAX_DEPTH);
}

#[test]
fn a_recycled_pid_points_at_its_latest_row() {
    // Two rows claim pid 7; the child belongs to the later one.
    let rows = vec![started(7, 4, 0), started(7, 3, 5), started(8, 7, 10), started(3, 4, 1)];
    let d = depths(&rows);
    assert_eq!(d[2], 2, "8 under the second 7, under 3");
}

#[test]
fn csv_fields_are_quoted_only_when_they_must_be() {
    assert_eq!(csv_field("plain"), "plain");
    assert_eq!(csv_field("p10.exe --serve, now"), "\"p10.exe --serve, now\"");
    assert_eq!(csv_field("say \"hi\""), "\"say \"\"hi\"\"\"");
    assert_eq!(csv_field("two\nlines"), "\"two\nlines\"");
    assert_eq!(csv_field(""), "");
}

#[test]
fn the_empty_table_says_why() {
    assert_eq!(empty_note(3, true), "No rows match the filters.");
    assert_eq!(empty_note(0, true), "Watching. Nothing has started or stopped yet.");
    assert_eq!(empty_note(0, false), "The monitor is stopped \u{2014} click Start.");
    assert!(advice(true).starts_with("This process already holds an elevated token"));
    assert!(advice(false).starts_with("This token is not elevated."));
}

#[test]
fn the_status_line_counts_live_and_kept_rows_and_names_the_mode() {
    let mut app = VmiScopeApp::new();
    assert!(!app.proc_running());
    assert_eq!(app.proc_status(), "0 live \u{00b7} 0 kept \u{00b7} stopped");
    app.proc.log.push(started(10, 4, 0));
    app.proc.log.push(stopped(started(11, 4, 0), Some(0), 3));
    app.proc.running = true;
    assert_eq!(app.proc_status(), "1 live \u{00b7} 1 kept \u{00b7} connecting");
    app.proc.mode = Some(MonitorMode { degraded: true });
    assert_eq!(app.proc_status(), "1 live \u{00b7} 1 kept \u{00b7} watching (degraded)");
    app.proc.mode = Some(MonitorMode { degraded: false });
    assert!(app.proc_running());
    assert_eq!(app.proc_status(), "1 live \u{00b7} 1 kept \u{00b7} watching (trace)");
}

#[test]
fn the_table_shows_newest_first_unless_sorted_or_a_tree() {
    let all = vec![
        started(10, 4, 1),
        started(11, 10, 2),
        stopped(started(12, 10, 3), Some(0), 4),
        started(13, 11, 5),
    ];
    // Default: newest first.
    let rows = shown_process_rows(&all, "", Lifecycle::All, false, None, false, None);
    assert_eq!(rows, vec![(3, 0), (2, 0), (1, 0), (0, 0)]);
    // A column sort takes them in the log's order.
    let rows = shown_process_rows(&all, "", Lifecycle::All, false, None, false, Some((2, true)));
    assert_eq!(rows, vec![(0, 0), (1, 0), (2, 0), (3, 0)]);
    // The tree: causal order, indented by ancestry over every row, even a
    // parent the filter hides.
    let rows = shown_process_rows(&all, "", Lifecycle::Live, false, None, true, None);
    assert_eq!(rows, vec![(0, 0), (1, 1), (3, 2)]);
    let rows = shown_process_rows(&all, "P13", Lifecycle::All, false, None, true, None);
    assert_eq!(rows, vec![(3, 2)]);
}
