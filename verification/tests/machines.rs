use vmiscope_gui::app::{ConnStatus, Probe, VmiScopeApp};
use vmiscope_gui::machines::{
    age, age_since, cred_ref_of, status_at, CredRef, SavedTarget, StatusTip, Tone,
};

#[test]
fn ages_are_coarse() {
    let now = 1_750_000_000;
    assert_eq!(age_since(now, now), "just now");
    assert_eq!(age_since(now, now - 44), "just now");
    assert_eq!(age_since(now, now - 45), "1m ago");
    assert_eq!(age_since(now, now - 150), "2m ago");
    assert_eq!(age_since(now, now - 3_600), "1h ago");
    assert_eq!(age_since(now, now - 86_400 * 3), "3d ago");
    // A reading from the future is as fresh as it gets.
    assert_eq!(age_since(now, now + 100), "just now");
    // Against the wall clock, a stamp of zero is decades old.
    assert!(age(0).ends_with("d ago"));
}

#[test]
fn the_form_describes_its_credential() {
    assert!(matches!(cred_ref_of(false, "admin", "CORP"), CredRef::CurrentUser));
    assert!(matches!(cred_ref_of(true, "   ", "CORP"), CredRef::CurrentUser));
    match cred_ref_of(true, " admin ", "  ") {
        CredRef::Alt { user, domain } => {
            assert_eq!(user, "admin");
            assert_eq!(domain, None);
        }
        CredRef::CurrentUser => panic!("an alternate account was typed"),
    }
    let mut app = VmiScopeApp::new();
    app.conn_use_creds = true;
    app.conn_user = "admin".into();
    app.conn_domain = " CORP ".into();
    match app.active_cred_ref() {
        CredRef::Alt { user, domain } => {
            assert_eq!(user, "admin");
            assert_eq!(domain.as_deref(), Some("CORP"));
        }
        CredRef::CurrentUser => panic!("an alternate account was typed"),
    }
}

#[test]
fn a_failed_connect_is_noted_on_its_target() {
    let mut app = VmiScopeApp::new();
    app.machines.connecting = Some("srv1".into());
    app.machines.pending_namespace = Some("root\\default".into());
    app.note_connect_failed_at("access denied\n  at connect", 77);
    assert!(app.machines.connecting.is_none());
    assert!(app.machines.pending_namespace.is_none());
    assert_eq!(app.machines.probes.len(), 1);
    match &app.machines.probes[0] {
        (key, Probe::Failed { message, at }) => {
            assert_eq!(key, "srv1");
            assert_eq!(message, "access denied");
            assert_eq!(*at, 77);
        }
        _ => panic!("a failure was expected"),
    }
    // A second failure on the same target replaces the first.
    app.machines.connecting = Some("srv1".into());
    app.machines_note_connect_failed("");
    assert_eq!(app.machines.probes.len(), 1);
    match &app.machines.probes[0].1 {
        Probe::Failed { message, .. } => assert_eq!(message, "connect failed"),
        _ => panic!("a failure was expected"),
    }
}

#[test]
fn the_pending_namespace_is_taken_once() {
    let mut app = VmiScopeApp::new();
    app.machines.pending_namespace = Some("root\\default".into());
    assert_eq!(app.machines_take_pending_namespace().as_deref(), Some("root\\default"));
    assert_eq!(app.machines_take_pending_namespace(), None);
}

#[test]
fn a_status_says_how_it_knows() {
    let now = 1_750_000_000;
    let local = status_at(now, true, false, false, Some(&Probe::Failed { message: "x".into(), at: now }), None);
    assert_eq!(local.tone, Tone::Neutral);
    assert_eq!(local.label, "This machine");

    let binding = status_at(now, false, true, true, None, Some(now));
    assert_eq!(binding.tone, Tone::Warn);
    assert_eq!(binding.label, "Connecting\u{2026}");

    let failed = status_at(now, false, false, false, Some(&Probe::Failed { message: "access denied".into(), at: now - 120 }), None);
    assert_eq!(failed.tone, Tone::Bad);
    assert_eq!(failed.note.as_deref(), Some("2m ago"));
    assert!(matches!(failed.tip, Some(StatusTip::Text(ref t)) if t == "access denied"));

    let online = Probe::Online { rtt_ms: 40, probe_ms: 1200, os: "26100".into(), at: now - 10 };
    let active = status_at(now, false, true, false, Some(&online), None);
    assert_eq!(active.label, "Connected");
    assert_eq!(active.note.as_deref(), Some("checked just now"));
    assert!(matches!(active.tip, Some(StatusTip::Timing { bind_ms: 40, probe_ms: 1200 })));
    assert_eq!(status_at(now, false, false, false, Some(&online), None).label, "Online");

    let cached = status_at(now, false, false, false, None, Some(now - 7_200));
    assert_eq!(cached.tone, Tone::Neutral);
    assert_eq!(cached.label, "Last seen");
    assert_eq!(cached.note.as_deref(), Some("2h ago"));

    let unknown = status_at(now, false, false, false, None, None);
    assert_eq!(unknown.label, "Unknown");
    assert_eq!(unknown.note.as_deref(), Some("not tested"));

    let app = VmiScopeApp::new();
    assert_eq!(app.resolve_status(true, false, None, None).label, "Connected");
}

#[test]
fn a_connect_is_noted_online_with_its_build_or_summary() {
    let mut app = VmiScopeApp::new();
    app.machines.connecting = Some("srv1|current".to_string());
    app.machines.probes.push(("srv1|current".to_string(), Probe::Connecting));
    app.machines.pending_namespace = Some("root\\cimv2".to_string());
    app.note_connected_at(12, 30, "22631", "Windows 11 Pro", 99);
    assert!(app.machines.connecting.is_none());
    // The namespace is left for the reseed to take.
    assert_eq!(app.machines.pending_namespace.as_deref(), Some("root\\cimv2"));
    assert_eq!(app.machines.probes.len(), 1);
    match &app.machines.probes[0].1 {
        Probe::Online { rtt_ms, probe_ms, os, at } => {
            assert_eq!((*rtt_ms, *probe_ms, os.as_str(), *at), (12, 30, "22631", 99));
        }
        _ => panic!("the probe should be online"),
    }

    app.machines.connecting = Some("srv2|current".to_string());
    app.machines_note_connected(5, 6, "", "Windows Server");
    assert_eq!(app.machines.probes.len(), 2);
    assert_eq!(app.machines.probes[1].0, "srv2|current");
    match &app.machines.probes[1].1 {
        Probe::Online { os, .. } => assert_eq!(os, "Windows Server"),
        _ => panic!("the probe should be online"),
    }

    // Nothing in flight: nothing changes.
    app.note_connected_at(1, 1, "x", "y", 1);
    assert_eq!(app.machines.probes.len(), 2);
}

fn saved(name: &str, key: &str) -> SavedTarget {
    SavedTarget {
        name: name.to_string(),
        namespace: "root\\cimv2".to_string(),
        cred: CredRef::CurrentUser,
        key: key.to_string(),
        last_rtt_ms: Some(40),
        last_os: "19045".to_string(),
        last_seen: Some(1),
    }
}

#[test]
fn the_table_lists_this_machine_the_saved_targets_and_an_unsaved_connection() {
    let mut app = VmiScopeApp::new();
    app.conn_status = ConnStatus::Remote("SRV9".to_string());
    app.conn_host = " \\\\SRV9 ".to_string();
    app.machines.namespace = "root\\default".to_string();
    app.machines.probes.push((
        "srv1".to_string(),
        Probe::Online { rtt_ms: 12, probe_ms: 3, os: "22631".to_string(), at: 0 },
    ));
    let targets = vec![saved("SRV1", "srv1"), saved("SRV2", "srv2")];
    let rows = app.resolve_rows(&"root\\cimv2".to_string(), "local".to_string(), &targets, "srv9".to_string());
    assert_eq!(rows.len(), 4);

    assert_eq!(rows[0].display_name, "This machine");
    assert!(rows[0].is_local);
    assert_eq!(rows[0].status.label, "This machine");

    // Online this session: the probe's numbers, not the saved ones.
    assert_eq!(rows[1].display_name, "\\\\SRV1");
    assert_eq!(rows[1].rtt_ms, Some(12));
    assert_eq!(rows[1].os, "22631");
    assert_eq!(rows[1].status.label, "Online");

    // Not probed: what was saved.
    assert_eq!(rows[2].rtt_ms, Some(40));
    assert_eq!(rows[2].os, "19045");
    assert_eq!(rows[2].status.label, "Last seen");

    // The bound host, never saved, still has a row.
    assert_eq!(rows[3].name, "SRV9");
    assert_eq!(rows[3].key, "srv9");
    assert_eq!(rows[3].namespace, "root\\default");
    assert_eq!(rows[3].status.label, "Connected");
    assert_eq!(rows[3].rtt_ms, None);
}

#[test]
fn a_saved_bound_target_gets_no_second_row() {
    let mut app = VmiScopeApp::new();
    app.conn_status = ConnStatus::Remote("SRV2".to_string());
    app.conn_host = "SRV2".to_string();
    let targets = vec![saved("SRV1", "srv1"), saved("SRV2", "srv2")];
    let rows = app.resolve_rows(&"root\\cimv2".to_string(), "local".to_string(), &targets, "srv2".to_string());
    assert_eq!(rows.len(), 3);
    assert_eq!(rows[2].status.label, "Connected");

    // Bound to this machine: never an extra row.
    app.conn_status = ConnStatus::Local;
    let rows = app.resolve_rows(&"root\\cimv2".to_string(), "local".to_string(), &targets, "local".to_string());
    assert_eq!(rows.len(), 3);
}

#[test]
fn a_connect_asks_for_the_form_host_credential_and_namespace() {
    let mut app = VmiScopeApp::new();
    app.conn_host = "  \\\\SRV7 ".to_string();
    app.conn_use_creds = true;
    app.conn_user = " admin ".to_string();
    app.conn_domain = "CORP".to_string();
    app.machines.namespace = "   ".to_string();
    let req = app.connect_request();
    assert_eq!(req.host.as_deref(), Some("SRV7"));
    match &req.cred {
        CredRef::Alt { user, domain } => {
            assert_eq!(user, "admin");
            assert_eq!(domain.as_deref(), Some("CORP"));
        }
        CredRef::CurrentUser => panic!("the form names an account"),
    }
    assert_eq!(req.namespace, "root\\CIMV2");

    app.machines_begin_connect("srv7|corp\\admin".to_string(), req);
    assert_eq!(app.conn_host, "SRV7");
    assert_eq!(app.machines.connecting.as_deref(), Some("srv7|corp\\admin"));
    assert_eq!(app.machines.pending_namespace.as_deref(), Some("root\\CIMV2"));
    assert!(matches!(app.machines.probes[0].1, Probe::Connecting));
}

#[test]
fn an_empty_host_connects_to_this_machine() {
    let mut app = VmiScopeApp::new();
    app.conn_host = " \\\\ ".to_string();
    app.machines.namespace = " root\\default ".to_string();
    let req = app.connect_request();
    assert!(req.host.is_none());
    assert!(matches!(req.cred, CredRef::CurrentUser));
    assert_eq!(req.namespace, "root\\default");
}

#[test]
fn rows_carry_their_credentials_and_a_click_loads_them() {
    let mut app = VmiScopeApp::new();
    app.conn_status = ConnStatus::Remote("SRV9".to_string());
    app.conn_host = "SRV9".to_string();
    app.conn_use_creds = true;
    app.conn_user = "ops".to_string();
    let mut alt = saved("SRV1", "srv1");
    alt.cred = CredRef::Alt { user: "admin".into(), domain: Some("CORP".into()) };
    let targets = vec![alt, saved("SRV2", "srv2")];
    let rows = app.resolve_rows(&"root\\cimv2".to_string(), "local".to_string(), &targets, "srv9".to_string());
    assert!(matches!(rows[0].cred, CredRef::CurrentUser));
    assert!(matches!(&rows[1].cred, CredRef::Alt { user, .. } if user == "admin"));
    assert!(matches!(rows[2].cred, CredRef::CurrentUser));
    assert!(matches!(&rows[3].cred, CredRef::Alt { user, domain: None } if user == "ops"));

    app.machines_load_row(&rows[1]);
    assert_eq!(app.conn_host, "SRV1");
    assert!(app.conn_use_creds);
    assert_eq!(app.conn_user, "admin");
    assert_eq!(app.conn_domain, "CORP");
    assert_eq!(app.machines.namespace, "root\\cimv2");

    app.machines_load_row(&rows[2]);
    assert!(!app.conn_use_creds);
    assert_eq!(app.conn_host, "SRV2");
}
