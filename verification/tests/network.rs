use vmiscope_gui::network::{net_base_order, net_counts, net_empty_note, net_row_shown};

#[test]
fn three_empty_tables_are_three_sentences() {
    assert_eq!(net_empty_note(true, true, true).0, "Reading the connection table");
    assert_eq!(net_empty_note(true, false, true).0, "No connections");
    assert!(net_empty_note(true, false, true).1.starts_with("The snapshot came back empty."));
    assert_eq!(net_empty_note(false, false, true).0, "No connections");
    assert_eq!(net_empty_note(false, false, false).0, "No rows match the filters");
}

fn shown(filter: &str, external_only: bool, external: bool) -> bool {
    net_row_shown(filter, external_only, external, "Chrome.exe", "10.0.0.5", 51512, "142.250.74.46", 443, "Established")
}

#[test]
fn the_filter_looks_in_process_addresses_ports_and_state() {
    assert!(shown("", false, false));
    assert!(shown("CHROME", false, false));
    assert!(shown("10.0.0", false, false));
    assert!(shown("142.250", false, false));
    assert!(shown("5151", false, false));
    assert!(shown("443", false, false));
    assert!(shown("establ", false, false));
    assert!(!shown("listen", false, false));
    assert!(!shown("firefox", false, false));
}

#[test]
fn external_only_hides_local_connections_whatever_the_text() {
    assert!(!shown("", true, false));
    assert!(shown("", true, true));
    assert!(!shown("chrome", true, false));
}

#[test]
fn the_chips_count_active_closing_and_external() {
    let conns = vec![(true, false), (true, true), (false, true), (false, false), (true, false)];
    assert_eq!(net_counts(&conns), (3, 2, 2));
    assert_eq!(net_counts(&Vec::new()), (0, 0, 0));
}

fn row(p: &str, proto: &str, lp: u16, ra: &str, rp: u16) -> (String, String, u16, String, u16) {
    (p.to_string(), proto.to_string(), lp, ra.to_string(), rp)
}

#[test]
fn the_base_order_groups_by_process_then_protocol_and_ports() {
    let rows = vec![
        row("svchost.exe", "TCP", 135, "0.0.0.0", 0),
        row("Chrome.exe", "UDP", 5353, "*", 0),
        row("chrome.exe", "TCP", 51512, "142.250.74.46", 443),
        row("Chrome.exe", "TCP", 51512, "142.250.74.46", 80),
        row("chrome.exe", "TCP", 443, "1.1.1.1", 443),
        row("svchost.exe", "TCP", 135, "0.0.0.0", 0),
    ];
    assert_eq!(net_base_order(&rows), vec![4, 3, 2, 1, 0, 5]);
    assert!(net_base_order(&Vec::new()).is_empty());
}
