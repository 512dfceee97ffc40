use vmiscope_gui::wql::{
    accepts_within, delivery_note, event_class_of, inject_within, is_intrinsic, subject_of,
    watched_class_of, within_of,
};

// -- the WQL scanner ---------------------------------------------------

#[test]
fn a_literal_hides_its_contents_from_every_derivation() {
    // Every one of these words is a keyword outside a literal and a value
    // inside one. A substring search would find all four.
    let wql = "SELECT * FROM __InstanceCreationEvent WITHIN 2 \
               WHERE TargetInstance.Name = 'within from isa 99'";
    assert_eq!(event_class_of(wql), Some("__InstanceCreationEvent"));
    assert_eq!(within_of(wql), Some(2));
    assert_eq!(watched_class_of(wql), None);
}

#[test]
fn a_doubled_quote_is_an_escape_not_a_terminator() {
    let wql = "SELECT * FROM X WHERE Name = 'it''s here' AND Other ISA 'Win32_Service'";
    assert_eq!(watched_class_of(wql), Some("Win32_Service"));
}

#[test]
fn the_watched_class_beats_the_event_class_as_the_subject() {
    let wql = "SELECT * FROM __InstanceCreationEvent WITHIN 2 \
               WHERE TargetInstance ISA 'Win32_Process'";
    assert_eq!(subject_of(wql), "Win32_Process");
    // With no ISA there is nothing better than the event class itself.
    assert_eq!(
        subject_of("SELECT * FROM Win32_ProcessStartTrace"),
        "Win32_ProcessStartTrace"
    );
}

// -- WITHIN injection --------------------------------------------------

#[test]
fn the_interval_is_written_into_the_existing_clause() {
    let wql = "SELECT * FROM __InstanceCreationEvent WITHIN 2 \
               WHERE TargetInstance ISA 'Win32_Process'";
    let out = inject_within(wql, 15);
    assert_eq!(
        out,
        "SELECT * FROM __InstanceCreationEvent WITHIN 15 \
         WHERE TargetInstance ISA 'Win32_Process'"
    );
    assert_eq!(within_of(&out), Some(15));
}

#[test]
fn injection_survives_line_breaks_and_lower_case() {
    let wql = "SELECT * FROM __InstanceModificationEvent\n  within 2\n WHERE TargetInstance ISA 'Win32_Service'";
    let out = inject_within(wql, 30);
    assert_eq!(within_of(&out), Some(30));
    assert!(out.contains("within 30"), "{out}");
    // The rest of the text is untouched, newlines included.
    assert_eq!(out.lines().count(), 3);
}

#[test]
fn a_query_without_a_clause_gets_one_in_the_right_place() {
    let out = inject_within(
        "SELECT * FROM __InstanceDeletionEvent WHERE TargetInstance ISA 'Win32_Process'",
        5,
    );
    assert_eq!(
        out,
        "SELECT * FROM __InstanceDeletionEvent WITHIN 5 \
         WHERE TargetInstance ISA 'Win32_Process'"
    );
    assert_eq!(within_of(&out), Some(5));
}

#[test]
fn a_query_with_no_from_is_left_exactly_as_it_is() {
    // Nowhere to put the clause, so nothing is guessed.
    let broken = "SELECT * WHERE TargetInstance ISA 'Win32_Process'";
    assert_eq!(inject_within(broken, 5), broken);
}

#[test]
fn only_intrinsic_queries_accept_an_interval() {
    assert!(accepts_within(
        "SELECT * FROM __InstanceCreationEvent WHERE TargetInstance ISA 'Win32_Process'"
    ));
    assert!(!accepts_within("SELECT * FROM Win32_ProcessStartTrace"));
    // ... unless one is already there, in which case the field edits it.
    assert!(accepts_within(
        "SELECT * FROM Win32_ProcessStartTrace WITHIN 4"
    ));
    assert!(!is_intrinsic("__ExtrinsicEvent"));
    assert!(is_intrinsic("__NamespaceOperationEvent"));
}

#[test]
fn the_delivery_note_reads_off_the_query() {
    assert_eq!(
        delivery_note("SELECT * FROM __InstanceCreationEvent WITHIN 2 WHERE X ISA 'Y'"),
        "polled / 2 s"
    );
    assert_eq!(
        delivery_note("SELECT * FROM Win32_ProcessStartTrace"),
        "pushed"
    );
    assert_eq!(delivery_note("nonsense"), "\u{2014}");
}

// -- kinds and summaries -------------------------------------------------

use vmiscope_gui::app::{EventRow, MonitorMsg, VmiScopeApp};
use vmiscope_gui::events::{
    empty_note, kind_of, leaf, summarize, summary_fields, utc_clock, utc_stamp, EventKind, EventLog,
    LOG_CAP,
};

fn pairs(keys: &[&str]) -> Vec<(String, String)> {
    keys.iter()
        .map(|k| ((*k).to_string(), "x".to_string()))
        .collect()
}

#[test]
fn the_kind_comes_from_the_subscription_class() {
    let p = pairs(&["TargetInstance.Name"]);
    assert_eq!(kind_of("__InstanceCreationEvent", &p), EventKind::Creation);
    assert_eq!(kind_of("__InstanceDeletionEvent", &p), EventKind::Deletion);
    assert_eq!(
        kind_of("__InstanceModificationEvent", &p),
        EventKind::Modification
    );
    assert_eq!(kind_of("Win32_ProcessStartTrace", &p), EventKind::Extrinsic);
}

#[test]
fn an_operation_event_is_only_narrowed_where_the_payload_allows_it() {
    assert_eq!(
        kind_of(
            "__InstanceOperationEvent",
            &pairs(&["TargetInstance.Name", "PreviousInstance.Name"])
        ),
        EventKind::Modification
    );
    assert_eq!(
        kind_of("__InstanceOperationEvent", &pairs(&["TargetInstance.Name"])),
        EventKind::Operation
    );
}

#[test]
fn the_summary_leads_with_the_identity_not_the_alphabet() {
    let ev = vec![
        ("TIME_CREATED".to_string(), "133".to_string()),
        ("TargetInstance.Caption".to_string(), "cmd.exe".to_string()),
        (
            "TargetInstance.CommandLine".to_string(),
            "cmd /c whoami".to_string(),
        ),
        ("TargetInstance.Name".to_string(), "cmd.exe".to_string()),
        ("TargetInstance.ProcessId".to_string(), "9016".to_string()),
    ];
    let line = summarize(&ev);
    assert!(line.starts_with("Name = cmd.exe"), "{line}");
    assert!(line.contains("ProcessId = 9016"), "{line}");
    assert!(
        !line.contains("TIME_CREATED"),
        "the envelope crowded out the payload: {line}"
    );
}

#[test]
fn an_event_with_nothing_familiar_still_summarises() {
    let ev = vec![("Foo".to_string(), "1".to_string())];
    assert_eq!(summarize(&ev), "Foo = 1");
    assert_eq!(summarize(&[]), "");
}

#[test]
fn a_modification_folds_its_two_halves_into_one_field() {
    let changed = vec![
        ("PreviousInstance.Name".to_string(), "Running".to_string()),
        ("TargetInstance.Name".to_string(), "Stopped".to_string()),
    ];
    assert_eq!(summarize(&changed), "Name = Running \u{2192} Stopped");

    let unchanged = vec![
        ("PreviousInstance.Name".to_string(), "wsl".to_string()),
        ("TargetInstance.Name".to_string(), "wsl".to_string()),
    ];
    assert_eq!(summarize(&unchanged), "Name = wsl");

    let gone = vec![("PreviousInstance.Handle".to_string(), "42".to_string())];
    assert_eq!(summarize(&gone), "was Handle = 42");
}

#[test]
fn a_key_loses_its_prefix_and_the_envelope_is_dropped() {
    assert_eq!(leaf("TargetInstance.Name"), "Name");
    assert_eq!(leaf("Name"), "Name");
    let fields = summary_fields(&[
        ("TIME_CREATED".to_string(), "133".to_string()),
        ("TargetInstance.Name".to_string(), "cmd.exe".to_string()),
    ]);
    assert_eq!(fields, vec![("Name".to_string(), "cmd.exe".to_string())]);
}

// -- the ring -----------------------------------------------------------

#[test]
fn the_ring_holds_its_cap_newest_first_and_counts_what_it_drops() {
    let mut log = EventLog::with_cap(3);
    for i in 0..10u64 {
        log.push(i);
    }
    assert_eq!(log.len(), 3);
    assert_eq!(log.received(), 10, "the total must survive eviction");
    assert_eq!(log.dropped(), 7);

    let held: Vec<u64> = (0..log.len()).map(|i| *log.get(i).1).collect();
    assert_eq!(held, vec![9, 8, 7], "newest first");
}

#[test]
fn a_default_log_keeps_events() {
    let mut log = EventLog::new();
    assert_eq!(log.cap(), LOG_CAP);
    log.push(0u64);
    assert_eq!(log.len(), 1);
    assert!(!log.is_empty());
}

#[test]
fn a_selection_survives_eviction_or_is_told_it_did_not() {
    let mut log = EventLog::with_cap(2);
    log.push(0u64);
    let first = log.get(0).0;
    assert!(log.find(first).is_some());
    log.push(1u64);
    log.push(2u64);
    assert!(
        log.find(first).is_none(),
        "an evicted seq must not resolve to some other row"
    );
}

#[test]
fn clearing_resets_the_counters_too() {
    let mut log = EventLog::with_cap(1);
    log.push(0u64);
    log.push(1u64);
    assert_eq!(log.dropped(), 1);
    log.clear();
    assert_eq!(log.len(), 0);
    assert_eq!(log.received(), 0);
    assert_eq!(log.dropped(), 0);
}

// -- clock --------------------------------------------------------------

#[test]
fn the_stamp_is_utc_to_the_millisecond() {
    let ms: u64 = (3600 + 2 * 60 + 3) * 1000 + 456;
    assert_eq!(utc_clock(ms), "01:02:03");
    assert_eq!(utc_stamp(ms), "01:02:03.456");
    assert_eq!(utc_clock(ms + 86_400_000), "01:02:03");
}

#[test]
fn the_empty_stream_says_why() {
    assert_eq!(empty_note(true, true, 3), "No event held matches this filter.");
    assert_eq!(empty_note(true, true, 0), "Subscribed. Nothing has matched yet.");
    assert_eq!(empty_note(false, true, 0), "Stopped. The log was cleared.");
    assert_eq!(
        empty_note(false, false, 0),
        "Not started \u{2014} check the query and press Start."
    );
}

// -- the subscription ------------------------------------------------------

#[test]
fn an_edit_that_changes_the_subscription_is_drift() {
    let mut app = VmiScopeApp::new();
    app.monitor_wql = "SELECT * FROM __InstanceCreationEvent WITHIN 2 WHERE TargetInstance ISA 'Win32_Process'".into();
    app.monitor_running = true;
    app.events.event_class = "__InstanceCreationEvent".into();
    app.events.subject = "Win32_Process".into();
    app.events.started_within = Some(2);
    assert!(!app.subscription_drifted());
    // A reformatted line break is no drift.
    app.monitor_wql = "SELECT * FROM __InstanceCreationEvent\nWITHIN 2 WHERE TargetInstance ISA 'Win32_Process'".into();
    assert!(!app.subscription_drifted());
    app.monitor_wql = "SELECT * FROM __InstanceCreationEvent WITHIN 5 WHERE TargetInstance ISA 'Win32_Process'".into();
    assert!(app.subscription_drifted());
    app.stop_monitor();
    assert!(!app.subscription_drifted());
    assert!(app.monitor_error.is_none());
}

#[test]
fn the_stream_note_counts_since_start() {
    let mut app = VmiScopeApp::new();
    assert_eq!(app.stream_note(), "not started");
    app.events.started = true;
    app.events.started_unix_ms = (3600 + 2 * 60 + 3) * 1000;
    app.events_log.push(EventRow {
        kind: EventKind::Creation,
        class: "Win32_Process".into(),
        event_class: "__InstanceCreationEvent".into(),
        summary: "Name = cmd.exe".into(),
        pairs: Vec::new(),
        unix_ms: 0,
    });
    assert_eq!(app.stream_note(), "1 events since 01:02:03 UTC");
}

#[test]
fn a_row_matches_on_any_of_its_words() {
    let row = EventRow {
        kind: EventKind::Creation,
        class: "Win32_Process".into(),
        event_class: "__InstanceCreationEvent".into(),
        summary: "Name = cmd.exe".into(),
        pairs: vec![("TargetInstance.CommandLine".into(), "cmd /c WHOAMI".into())],
        unix_ms: 0,
    };
    assert!(row.matches("win32_process"));
    assert!(row.matches("creation"));
    assert!(row.matches("whoami"));
    assert!(!row.matches("svchost"));
}

#[test]
fn a_bare_within_gets_a_number_behind_it() {
    let out = inject_within("SELECT * FROM __InstanceCreationEvent WITHIN WHERE X ISA 'Y'", 7);
    assert_eq!(out, "SELECT * FROM __InstanceCreationEvent WITHIN 7 WHERE X ISA 'Y'");
    assert_eq!(within_of(&out), Some(7));
}

#[test]
fn a_written_interval_reads_back() {
    for (wql, secs) in [
        ("SELECT * FROM __InstanceCreationEvent", 1u32),
        ("SELECT * FROM __InstanceCreationEvent WITHIN 0005", 4_000_000_000),
        ("select * from __ClassOperationEvent where x = 'within 9'", 12),
        ("SELECT * FROM __InstanceDeletionEvent WITHIN", 3),
    ] {
        assert_eq!(within_of(&inject_within(wql, secs)), Some(secs), "{wql}");
    }
}

#[test]
fn a_quoted_class_takes_the_clause_inside_its_quotes() {
    // The class token is the literal's contents, so the clause lands before
    // the closing quote and is not read back.
    let out = inject_within("SELECT * FROM 'X' WHERE Y = 1", 5);
    assert_eq!(out, "SELECT * FROM 'X WITHIN 5' WHERE Y = 1");
    assert_eq!(within_of(&out), None);
}

#[test]
fn start_resolves_the_subscription_from_the_box() {
    let mut app = VmiScopeApp::new();
    app.monitor_wql = "SELECT * FROM __InstanceCreationEvent WITHIN 2 WHERE TargetInstance ISA 'Win32_Process'".into();
    app.monitor_error = Some("old".into());
    app.start_monitor();
    assert!(app.monitor_running);
    assert!(app.monitor_error.is_none());
    assert_eq!(app.events.event_class, "__InstanceCreationEvent");
    assert_eq!(app.events.subject, "Win32_Process");
    assert_eq!(app.events.started_within, Some(2));
    assert!(!app.subscription_drifted(), "nothing to apply right after Start");
    assert!(app.stream_note().starts_with("0 events since "));
}

#[test]
fn a_drain_turns_events_into_rows_and_keeps_the_last_error() {
    let mut app = VmiScopeApp::new();
    // Nothing is up: nothing is queued, nothing is logged.
    app.drain_events(vec![MonitorMsg::Error("x".into())]);
    assert_eq!(app.events.queued, 0);
    assert!(app.monitor_error.is_none());

    app.monitor_wql = "SELECT * FROM __InstanceCreationEvent WITHIN 2 WHERE TargetInstance ISA 'Win32_Process'".into();
    app.start_monitor();
    app.drain_events(vec![
        MonitorMsg::Event(vec![("TargetInstance.Name".into(), "cmd.exe".into())]),
        MonitorMsg::Error("RPC".into()),
        MonitorMsg::Event(vec![("TargetInstance.Name".into(), "ping.exe".into())]),
    ]);
    assert_eq!(app.events.queued, 3);
    assert_eq!(app.events.queued_peak, 3);
    assert_eq!(app.events_log.len(), 2);
    assert_eq!(app.events_log.received(), 2);
    assert_eq!(app.monitor_error.as_deref(), Some("RPC"));
    let (newest_seq, newest) = app.events_log.get(0);
    assert_eq!(newest_seq, 1);
    assert_eq!(newest.summary, "Name = ping.exe");
    assert_eq!(newest.class, "Win32_Process");
    assert_eq!(newest.kind, EventKind::Creation);
    assert_eq!(app.events_log.get(1).1.summary, "Name = cmd.exe");
    app.drain_events(Vec::new());
    assert_eq!(app.events.queued, 0);
    assert_eq!(app.events.queued_peak, 3);
}

#[test]
fn a_full_log_keeps_the_newest_drained_rows() {
    let mut app = VmiScopeApp::new();
    app.events_log = vmiscope_gui::events::EventLog::with_cap(2);
    app.monitor_wql = "SELECT * FROM __InstanceCreationEvent WITHIN 2 WHERE TargetInstance ISA 'Win32_Process'".into();
    app.start_monitor();
    let ev = |n: &str| MonitorMsg::Event(vec![("TargetInstance.Name".into(), n.into())]);
    app.drain_events(vec![ev("a.exe"), ev("b.exe"), ev("c.exe")]);
    assert_eq!(app.events_log.len(), 2);
    assert_eq!(app.events_log.received(), 3);
    assert_eq!(app.events_log.get(0).0, 2);
    assert_eq!(app.events_log.get(0).1.summary, "Name = c.exe");
    assert_eq!(app.events_log.get(1).0, 1);
    assert_eq!(app.events_log.get(1).1.summary, "Name = b.exe");
}

#[test]
fn respacing_the_query_after_start_is_no_drift() {
    let mut app = VmiScopeApp::new();
    app.monitor_wql = "SELECT * FROM __InstanceCreationEvent WITHIN 2 WHERE TargetInstance ISA 'Win32_Process'".into();
    app.start_monitor();
    app.monitor_wql = "SELECT *\n  FROM   __InstanceCreationEvent\nWITHIN 2\n WHERE TargetInstance ISA 'Win32_Process'  ".into();
    assert!(!app.subscription_drifted());
    app.monitor_wql = "SELECT * FROM __InstanceDeletionEvent WITHIN 2 WHERE TargetInstance ISA 'Win32_Process'".into();
    assert!(app.subscription_drifted());
}
