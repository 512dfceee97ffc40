use vmiscope_gui::app::{CentralView, ClassSchema, ConnStatus, PropertySchema, VmiScopeApp};
use vmiscope_gui::compare::QueryResult;
use vmiscope_gui::explorer::{
    assoc_subtext, badge_kind, method_signature, prop_icon, qualifiers_note, value_of, AssocInfo,
    ClassChip, ClassKind, Glyph, Kind, MethodSchema, ParamSchema,
};

#[test]
fn a_key_property_gets_the_key_glyph_in_accent() {
    let (icon, accent) = prop_icon(true, false, "string");
    assert_eq!(icon, Glyph::Key);
    assert!(accent, "the key glyph must be the accented one");
}

#[test]
fn non_key_icons_follow_type_then_writability() {
    assert_eq!(prop_icon(false, false, "datetime").0, Glyph::Clock);
    assert_eq!(prop_icon(false, false, "uint32").0, Glyph::Hash);
    assert_eq!(prop_icon(false, false, "sint64").0, Glyph::Hash);
    assert_eq!(prop_icon(false, true, "string").0, Glyph::PencilSimple);
    assert_eq!(prop_icon(false, false, "string").0, Glyph::TextAa);
    assert!(!prop_icon(false, true, "string").1);
}

#[test]
fn qualifiers_note_lists_flags_and_enum_arity() {
    assert_eq!(
        qualifiers_note(true, true, false, None, 0),
        "key \u{00b7} read"
    );
    assert_eq!(
        qualifiers_note(false, true, true, Some("bytes"), 3),
        "read \u{00b7} write \u{00b7} [bytes] \u{00b7} enum(3)"
    );
    assert_eq!(qualifiers_note(false, false, false, Some(""), 0), "");
}

#[test]
fn value_of_matches_by_column_name() {
    let result = QueryResult {
        columns: vec!["Handle".into(), "Name".into()],
        rows: vec![vec!["4".into(), "System".into()]],
        ..Default::default()
    };
    assert_eq!(value_of(&result, 0, "Handle"), Some("4".to_string()));
    assert_eq!(value_of(&result, 0, "Name"), Some("System".to_string()));
    assert_eq!(value_of(&result, 0, "ExecutablePath"), None);
}

const NONE: ClassKind = ClassKind {
    dynamic: false,
    association: false,
    event: false,
    system: false,
    is_abstract: false,
    perf: false,
};

#[test]
fn chips_match_by_membership() {
    assert!(ClassChip::All.matches(NONE));
    assert!(ClassChip::Dynamic.matches(ClassKind { dynamic: true, perf: true, ..NONE }));
    assert!(!ClassChip::Dynamic.matches(ClassKind { is_abstract: true, ..NONE }));
    assert!(ClassChip::Association.matches(ClassKind { dynamic: true, association: true, ..NONE }));
    assert!(ClassChip::Event.matches(ClassKind { event: true, is_abstract: true, ..NONE }));
    assert!(ClassChip::System.matches(ClassKind { system: true, dynamic: true, ..NONE }));
    assert!(!ClassChip::System.matches(ClassKind { dynamic: true, ..NONE }));
    assert_eq!(ClassKind::none(), NONE);
    assert_eq!(ClassChip::Association.label(), "Assoc");
    assert_eq!(ClassChip::all().len(), 5);
    assert_eq!(Kind::Association.letter(), "A");
}

#[test]
fn badge_precedence_matches_the_skip_list() {
    assert_eq!(badge_kind(ClassKind { dynamic: true, ..NONE }), Kind::Class);
    assert_eq!(badge_kind(NONE), Kind::Class);
    assert_eq!(
        badge_kind(ClassKind { dynamic: true, association: true, ..NONE }),
        Kind::Association
    );
    assert_eq!(
        badge_kind(ClassKind { is_abstract: true, association: true, ..NONE }),
        Kind::Association
    );
    assert_eq!(
        badge_kind(ClassKind { event: true, is_abstract: true, system: true, ..NONE }),
        Kind::Event
    );
    assert_eq!(
        badge_kind(ClassKind { event: true, association: true, ..NONE }),
        Kind::Event
    );
}

fn param(name: &str, cim: &str) -> ParamSchema {
    ParamSchema {
        name: name.to_string(),
        cim_type: cim.to_string(),
    }
}

#[test]
fn signature_puts_the_return_first_and_omits_returnvalue() {
    let m = MethodSchema {
        name: "Create".into(),
        in_params: vec![
            param("CommandLine", "string"),
            param("CurrentDirectory", "string"),
        ],
        out_params: vec![param("ProcessId", "uint32"), param("ReturnValue", "uint32")],
    };
    assert_eq!(
        method_signature(&m),
        "uint32 Create(string CommandLine, string CurrentDirectory)"
    );
}

#[test]
fn a_method_without_a_return_value_is_void() {
    let m = MethodSchema {
        name: "Reset".into(),
        in_params: Vec::new(),
        out_params: Vec::new(),
    };
    assert_eq!(method_signature(&m), "void Reset()");
}

#[test]
fn assoc_subtext_joins_present_parts_only() {
    assert_eq!(
        assoc_subtext(&AssocInfo {
            assoc_class: "Win32_SessionProcess".into(),
            role: "Dependent".into(),
            target_class: "Win32_LogonSession".into(),
            note: String::new(),
        }),
        "via Win32_SessionProcess \u{00b7} role Dependent"
    );
    assert_eq!(
        assoc_subtext(&AssocInfo {
            assoc_class: String::new(),
            role: String::new(),
            target_class: "Win32_Foo".into(),
            note: "reported by ASSOCIATORS OF only".into(),
        }),
        "reported by ASSOCIATORS OF only"
    );
}

fn process_app() -> VmiScopeApp {
    let mut app = VmiScopeApp::new();
    app.selected_class = Some("Win32_Process".into());
    app.schema_class = "Win32_Process".into();
    app.schema = Some(ClassSchema {
        properties: vec![
            PropertySchema { name: "Handle".into(), cim_type: "string".into(), is_key: true },
            PropertySchema { name: "Name".into(), cim_type: "string".into(), is_key: false },
        ],
        methods: vec!["Create".into(), "Terminate".into()],
    });
    app.result = Some(QueryResult {
        columns: vec!["Handle".into(), "Name".into()],
        rows: vec![
            vec!["4".into(), "System".into()],
            vec!["88".into(), "Registry".into()],
        ],
        ..Default::default()
    });
    app
}

#[test]
fn the_header_names_the_instance_by_its_key() {
    let mut app = process_app();
    assert_eq!(app.instance_header("Win32_Process"), "Win32_Process");
    app.selected_row = Some(1);
    assert_eq!(app.instance_header("Win32_Process"), "Win32_Process.Handle=\"88\"");
    // A projection without the key column falls back to the position.
    app.result.as_mut().unwrap().columns = vec!["Pid".into(), "Name".into()];
    assert_eq!(
        app.instance_header("Win32_Process"),
        "Win32_Process \u{00b7} instance 2 of 2"
    );
    app.selected_row = Some(5);
    assert_eq!(app.instance_header("Win32_Process"), "Win32_Process");
}

#[test]
fn sub_tab_counts_come_from_real_data_or_not_at_all() {
    let mut app = process_app();
    assert_eq!(app.subtab_count(CentralView::Properties), Some("2".to_string()));
    assert_eq!(app.subtab_count(CentralView::Methods), Some("2".to_string()));
    assert_eq!(app.subtab_count(CentralView::Instances), Some("2".to_string()));
    assert_eq!(app.subtab_count(CentralView::Schema), None);
    assert_eq!(app.subtab_count(CentralView::Code), None);
    app.instance_counts.push(("Win32_Process".into(), "214".into()));
    assert_eq!(app.instances_tab_count(), Some("214".to_string()));
    // A schema for another class must not label this one.
    app.schema_class = "Win32_Service".into();
    assert_eq!(app.subtab_count(CentralView::Properties), None);
}

#[test]
fn the_breadcrumb_host_is_the_remote_or_a_dot() {
    let mut app = VmiScopeApp::new();
    assert_eq!(app.breadcrumb_host(), ".");
    app.conn_status = ConnStatus::Remote("SRV1".into());
    assert_eq!(app.breadcrumb_host(), "SRV1");
    app.conn_status = ConnStatus::Local;
    assert_eq!(app.breadcrumb_host(), ".");
}

#[test]
fn the_tree_counts_the_root_and_every_loaded_child() {
    let mut app = VmiScopeApp::new();
    assert_eq!(app.known_namespace_count(), 1);
    app.ns_children.push(("root".into(), vec!["root\\CIMV2".into(), "root\\default".into()]));
    app.ns_children.push(("root\\CIMV2".into(), vec!["root\\CIMV2\\mdm".into()]));
    assert_eq!(app.known_namespace_count(), 4);
}
