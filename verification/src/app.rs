//! The application state the views' decisions read and write.
//!
//! Only the state those decisions depend on lives here: the connection form,
//! the Explorer selection, the event subscription's bookkeeping, the process
//! log, the Machines probes, the Saved view's filters and the Compare view.
//! The workers, the windows and the clocks stay with the caller, which runs
//! each decision and performs what it asks for.

use vstd::prelude::*;
use crate::compare::{CompareState, QueryResult};
use crate::events::EventLog;
use crate::process::TrackedProc;
use crate::saved::SavedView;
use crate::search::SearchIndex;

verus! {

/// The namespace a fresh session browses.
pub open spec fn default_namespace() -> Seq<char> {
    "root\\CIMV2"@
}

/// What the worker is bound to.
pub enum ConnStatus {
    /// Not connected.
    Disconnected,
    /// A bind is in flight.
    Connecting,
    /// This machine.
    Local,
    /// A remote host, by name.
    Remote(String),
}

/// The Explorer detail sub-tabs, in strip order.
#[derive(Clone, Copy, PartialEq, Eq, Debug, Structural)]
pub enum CentralView {
    Instances,
    Properties,
    Methods,
    Schema,
    Code,
}

/// One property of a reflected class.
pub struct PropertySchema {
    pub name: String,
    pub cim_type: String,
    pub is_key: bool,
}

/// A reflected class: its properties and its methods.
pub struct ClassSchema {
    pub properties: Vec<PropertySchema>,
    pub methods: Vec<String>,
}

/// One row of the event stream. The log hands out its sequence number.
pub struct EventRow {
    pub kind: crate::events::EventKind,
    /// What the row is about: the watched class, or the event class.
    pub class: String,
    /// The class the subscription delivers.
    pub event_class: String,
    /// The one-line summary of what arrived.
    pub summary: String,
    /// Every property the event carried, flattened.
    pub pairs: Vec<(String, String)>,
    /// The wall-clock millisecond it arrived at.
    pub unix_ms: u64,
}

/// The Events view's bookkeeping of the running subscription.
pub struct EventsState {
    /// The event class resolved at Start.
    pub event_class: String,
    /// The subject resolved at Start.
    pub subject: String,
    /// The `WITHIN` interval resolved at Start.
    pub started_within: Option<u32>,
    /// Whether Start has been pressed since the log was last cleared.
    pub started: bool,
    /// The wall-clock millisecond Start was pressed at.
    pub started_unix_ms: u64,
    /// How many messages were waiting in the channel at the last drain.
    pub queued: usize,
    /// The most that have been waiting at once since Start.
    pub queued_peak: usize,
    pub filter: String,
}

/// What the event subscription delivers: the flattened properties of one
/// event, or an error.
pub enum MonitorMsg {
    Event(Vec<(String, String)>),
    Error(String),
}

/// How the process monitor settled: on the kernel trace, or degraded to
/// polling.
#[derive(Clone, Copy, PartialEq, Eq, Debug, Structural)]
pub struct MonitorMode {
    pub degraded: bool,
}

/// The Process view's state that its status line reads.
pub struct ProcessState {
    /// Whether the subscription is up.
    pub running: bool,
    /// Which subscription the monitor settled on; `None` until it reports.
    pub mode: Option<MonitorMode>,
    /// Everything seen so far, ended rows included.
    pub log: Vec<TrackedProc>,
}

/// What the last probe of a target found.
pub enum Probe {
    /// A bind is in flight.
    Connecting,
    /// The bind succeeded: the bind's and the identity queries' times, the OS
    /// build, and when.
    Online { rtt_ms: u64, probe_ms: u64, os: String, at: u64 },
    /// The bind failed: the error's first line, and when.
    Failed { message: String, at: u64 },
}

/// The Machines view's state.
pub struct MachinesState {
    /// The key of the target a connect is in flight for.
    pub connecting: Option<String>,
    /// The last probe of each target, by key; each key once.
    pub probes: Vec<(String, Probe)>,
    /// The namespace an in-flight connect asked to open.
    pub pending_namespace: Option<String>,
    /// The connection form's namespace.
    pub namespace: String,
}

pub struct VmiScopeApp {
    pub conn_status: ConnStatus,
    pub conn_host: String,
    pub conn_user: String,
    pub conn_domain: String,
    pub conn_use_creds: bool,
    pub active_ns: String,
    pub view: crate::nav::View,
    /// The Explorer's detail sub-tab.
    pub central_view: CentralView,
    pub query_text: String,
    // Explorer
    /// Each loaded namespace and its children; each parent once.
    pub ns_children: Vec<(String, Vec<String>)>,
    pub selected_class: Option<String>,
    pub selected_row: Option<usize>,
    pub result: Option<QueryResult>,
    pub schema: Option<ClassSchema>,
    /// The class `schema` was reflected from.
    pub schema_class: String,
    pub associations: Option<Vec<String>>,
    /// The class `associations` belong to.
    pub assoc_class: String,
    /// Each class's instance-count badge, as its tally reads; each class once.
    pub instance_counts: Vec<(String, String)>,
    // Events
    pub monitor_running: bool,
    pub monitor_error: Option<String>,
    pub monitor_wql: String,
    pub events: EventsState,
    pub events_log: EventLog<EventRow>,
    // Process
    pub proc: ProcessState,
    // Machines
    pub machines: MachinesState,
    // Saved
    pub saved_view: SavedView,
    // Compare
    pub compare: CompareState,
    /// The Explorer's global search index, once built.
    pub search_index: Option<SearchIndex>,
}

impl VmiScopeApp {
    /// A fresh session: not connected, in the Explorer, nothing loaded,
    /// nothing subscribed.
    pub fn new() -> (app: VmiScopeApp)
        ensures
            app.conn_status is Disconnected,
            app.active_ns@ == default_namespace(),
            app.view == crate::nav::View::Explorer,
            app.selected_class is None,
            app.result is None,
            app.schema is None,
            !app.monitor_running,
            !app.events.started,
            app.events_log.wf(),
            app.events_log.received_spec() == 0,
            !app.proc.running,
            app.proc.log@.len() == 0,
            app.machines.connecting is None,
            app.compare.view is None,
            app.search_index is None,
    {
        VmiScopeApp {
            conn_status: ConnStatus::Disconnected,
            conn_host: String::new(),
            conn_user: String::new(),
            conn_domain: String::new(),
            conn_use_creds: false,
            active_ns: "root\\CIMV2".to_owned(),
            view: crate::nav::View::Explorer,
            central_view: CentralView::Instances,
            query_text: String::new(),
            ns_children: Vec::new(),
            selected_class: None,
            selected_row: None,
            result: None,
            schema: None,
            schema_class: String::new(),
            associations: None,
            assoc_class: String::new(),
            instance_counts: Vec::new(),
            monitor_running: false,
            monitor_error: None,
            monitor_wql: String::new(),
            events: EventsState {
                event_class: String::new(),
                subject: String::new(),
                started_within: None,
                started: false,
                started_unix_ms: 0,
                queued: 0,
                queued_peak: 0,
                filter: String::new(),
            },
            events_log: EventLog::new(),
            proc: ProcessState { running: false, mode: None, log: Vec::new() },
            machines: MachinesState {
                connecting: None,
                probes: Vec::new(),
                pending_namespace: None,
                namespace: String::new(),
            },
            saved_view: SavedView::new(),
            compare: CompareState::new(),
            search_index: None,
        }
    }
}

} // verus!
