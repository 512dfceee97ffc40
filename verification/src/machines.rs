//! The Machines view's rules: probe ages and the identity the connection
//! form describes.

use vstd::prelude::*;
use crate::app::{ConnStatus, MachinesState, Probe, VmiScopeApp};
use crate::text::{
    chars_of, dec, decimal, extend_chars, lines, lines_of, lit, str_eq, string_of, trim_chars, trimmed,
};

verus! {

/// Under this many seconds a probe reads as "just now".
pub const JUST_NOW_SECS: u64 = 45;

/// Seconds since the Unix epoch on the wall clock, or 0 on a clock that
/// predates it. Nothing is promised of the value: it is the time.
#[verifier::external_body]
pub fn unix_now() -> u64 {
    std::time::SystemTime::now().duration_since(std::time::UNIX_EPOCH).map_or(0, |d| d.as_secs())
}

/// A coarse "how long ago" for an age in seconds: fresh or stale, not to the
/// second.
pub open spec fn age_text(secs: nat) -> Seq<char> {
    if secs < JUST_NOW_SECS {
        "just now"@
    } else if secs < 3600 {
        dec(if secs / 60 >= 1 { secs / 60 } else { 1 }) + "m ago"@
    } else if secs < 86_400 {
        dec(secs / 3600) + "h ago"@
    } else {
        dec(secs / 86_400) + "d ago"@
    }
}

/// The age label of a reading taken at `at`, seen at `now`; a reading from
/// the future is "just now".
pub open spec fn age_at(now: u64, at: u64) -> Seq<char> {
    age_text(if now >= at { (now - at) as nat } else { 0 })
}

pub fn age_since(now: u64, at: u64) -> (r: String)
    ensures
        r@ == age_at(now, at),
{
    let secs = now.saturating_sub(at);
    if secs < JUST_NOW_SECS {
        return "just now".to_owned();
    }
    let (n, unit) = if secs < 3600 {
        (if secs / 60 >= 1 { secs / 60 } else { 1 }, lit("m ago"))
    } else if secs < 86_400 {
        (secs / 3600, lit("h ago"))
    } else {
        (secs / 86_400, lit("d ago"))
    };
    let mut v = decimal(n);
    extend_chars(&mut v, unit.as_slice());
    string_of(v.as_slice())
}

/// A coarse "how long ago" for a probe timestamp, against the wall clock.
pub fn age(at: u64) -> (r: String)
    ensures
        exists|now: u64| #[trigger] age_at(now, at) == r@,
{
    let now = unix_now();
    age_since(now, at)
}

/// A persistable reference to a credential: never a password.
pub enum CredRef {
    /// The signed-in user's own token.
    CurrentUser,
    /// An alternate account, by name.
    Alt { user: String, domain: Option<String> },
}

/// What the connection form describes: the alternate account when the box
/// is ticked and a user is typed (both trimmed, an empty domain dropped),
/// else the current user.
pub open spec fn cred_of_form(use_creds: bool, user: Seq<char>, domain: Seq<char>) -> Option<(Seq<char>, Option<Seq<char>>)> {
    if use_creds && trimmed(user).len() > 0 {
        Some((trimmed(user), if trimmed(domain).len() > 0 { Some(trimmed(domain)) } else { None }))
    } else {
        None
    }
}

/// The credential a connection form describes, as a persistable reference.
pub fn cred_ref_of(use_creds: bool, user: &str, domain: &str) -> (r: CredRef)
    ensures
        match r {
            CredRef::CurrentUser => cred_of_form(use_creds, user@, domain@) is None,
            CredRef::Alt { user: u, domain: d } => cred_of_form(use_creds, user@, domain@) == Some(
                (
                    u@,
                    match d {
                        Some(x) => Some(x@),
                        None => None,
                    },
                ),
            ),
        },
{
    let uc = chars_of(user);
    let ut = trim_chars(uc.as_slice());
    if use_creds && ut.len() > 0 {
        let dc = chars_of(domain);
        let dt = trim_chars(dc.as_slice());
        let d = if dt.len() > 0 { Some(string_of(dt.as_slice())) } else { None };
        CredRef::Alt { user: string_of(ut.as_slice()), domain: d }
    } else {
        CredRef::CurrentUser
    }
}

} // verus!

verus! {

// ---------------------------------------------------------------------------
// Probes and the connection form
// ---------------------------------------------------------------------------

/// The note a failed connect leaves on its target: the first line of the
/// error, or "connect failed" when the error has none.
pub open spec fn failure_text(message: Seq<char>) -> Seq<char> {
    if lines(message).len() > 0 { lines(message)[0] } else { "connect failed"@ }
}

/// The first entry of `probes` for `key`.
pub open spec fn probe_index(probes: Seq<(String, Probe)>, key: Seq<char>, k: int) -> Option<int>
    decreases probes.len() - k,
{
    if k < 0 || k >= probes.len() {
        None
    } else if probes[k].0@ == key {
        Some(k)
    } else {
        probe_index(probes, key, k + 1)
    }
}

/// `new_probes` is `old_probes` with `key`'s entry now `p`: the entry
/// replaced where there was one, added at the end where there was not, and
/// every other entry untouched.
pub open spec fn put_into(old_probes: Seq<(String, Probe)>, new_probes: Seq<(String, Probe)>, key: Seq<char>, p: Probe) -> bool {
    let slot = match probe_index(old_probes, key, 0) {
        Some(i) => i,
        None => old_probes.len() as int,
    };
    &&& new_probes.len() == if slot < old_probes.len() { old_probes.len() } else { old_probes.len() + 1 }
    &&& forall|j: int| 0 <= j < old_probes.len() && j != slot ==> #[trigger] new_probes[j] == old_probes[j]
    &&& new_probes[slot].0@ == key
    &&& new_probes[slot].1 == p
}

/// `probes` with `key`'s entry now a failure of `message` seen at `at`.
pub open spec fn failed_into(
    old_probes: Seq<(String, Probe)>,
    new_probes: Seq<(String, Probe)>,
    key: Seq<char>,
    message: Seq<char>,
    at: u64,
) -> bool {
    exists|m: String| #[trigger] put_into(old_probes, new_probes, key, Probe::Failed { message: m, at }) && m@ == failure_text(message)
}

/// No key appears twice among the probes.
pub open spec fn keys_distinct(probes: Seq<(String, Probe)>) -> bool {
    forall|i: int, j: int| 0 <= i < j < probes.len() ==> (#[trigger] probes[i]).0@ != (#[trigger] probes[j]).0@
}

proof fn lemma_probe_index(probes: Seq<(String, Probe)>, key: Seq<char>, k: int)
    requires
        0 <= k,
    ensures
        match probe_index(probes, key, k) {
            Some(i) => k <= i < probes.len() && probes[i].0@ == key,
            None => forall|j: int| k <= j < probes.len() ==> (#[trigger] probes[j]).0@ != key,
        },
    decreases probes.len() - k,
{
    if k < probes.len() && probes[k].0@ != key {
        lemma_probe_index(probes, key, k + 1);
    }
}

/// Setting a probe keeps each target's key once: the entry for the key is
/// replaced where there is one, and only a new key is added.
pub proof fn lemma_probe_keys_stay_distinct(
    old_probes: Seq<(String, Probe)>,
    new_probes: Seq<(String, Probe)>,
    key: Seq<char>,
    p: Probe,
)
    requires
        keys_distinct(old_probes),
        put_into(old_probes, new_probes, key, p),
    ensures
        keys_distinct(new_probes),
{
    lemma_probe_index(old_probes, key, 0);
    let slot = match probe_index(old_probes, key, 0) {
        Some(i) => i,
        None => old_probes.len() as int,
    };
    assert forall|i: int, j: int| 0 <= i < j < new_probes.len() implies (#[trigger] new_probes[i]).0@
        != (#[trigger] new_probes[j]).0@ by {
        if i != slot && j != slot {
            assert(new_probes[i] == old_probes[i]);
            assert(new_probes[j] == old_probes[j]);
        } else if i == slot {
            assert(new_probes[j] == old_probes[j]);
        } else {
            assert(new_probes[i] == old_probes[i]);
        }
    }
}

/// The OS column of a connected host: its build, or its summary where the
/// OS query answered no build.
pub open spec fn os_of(build_number: Seq<char>, summary: Seq<char>) -> Seq<char> {
    if build_number.len() == 0 { summary } else { build_number }
}

/// `probes` with `key`'s entry now online with these measurements.
pub open spec fn online_into(
    old_probes: Seq<(String, Probe)>,
    new_probes: Seq<(String, Probe)>,
    key: Seq<char>,
    rtt_ms: u64,
    probe_ms: u64,
    os: Seq<char>,
    at: u64,
) -> bool {
    exists|o: String| #[trigger] put_into(old_probes, new_probes, key, Probe::Online { rtt_ms, probe_ms, os: o, at }) && o@ == os
}

/// What a successful connect leaves behind: the target online with its
/// measurements, no connect in flight, nothing else touched.
pub open spec fn connected_outcome(
    before: VmiScopeApp,
    after: VmiScopeApp,
    rtt_ms: u64,
    probe_ms: u64,
    os: Seq<char>,
    at: u64,
) -> bool {
    &&& after.machines.connecting is None
    &&& match before.machines.connecting {
        Some(key) => online_into(before.machines.probes@, after.machines.probes@, key@, rtt_ms, probe_ms, os, at),
        None => after.machines.probes == before.machines.probes,
    }
    &&& after == (VmiScopeApp {
        machines: MachinesState { connecting: None, probes: after.machines.probes, ..before.machines },
        ..before
    })
}

/// Set `key`'s probe to `p`.
fn put_probe(probes: &mut Vec<(String, Probe)>, key: String, p: Probe)
    ensures
        put_into(old(probes)@, final(probes)@, key@, p),
{
    let ghost old_probes = probes@;
    let mut i: usize = 0;
    while i < probes.len()
        invariant
            i <= probes@.len(),
            probes@ == old_probes,
            probe_index(old_probes, key@, 0) == probe_index(old_probes, key@, i as int),
        ensures
            i <= probes@.len(),
            probes@ == old_probes,
            probe_index(old_probes, key@, 0) == probe_index(old_probes, key@, i as int),
            i < probes@.len() ==> probes@[i as int].0@ == key@,
        decreases probes.len() - i,
    {
        if str_eq(probes[i].0.as_str(), key.as_str()) {
            break;
        }
        i += 1;
    }
    if i < probes.len() {
        let k = probes[i].0.clone();
        probes.set(i, (k, p));
        assert(probes@ == old_probes.update(i as int, (k, p)));
    } else {
        probes.push((key, p));
        assert(probes@ == old_probes.push((key, p)));
    }
}

/// What a failed connect leaves behind: the failure on the target it was
/// for, no connect in flight, no pending namespace, nothing else touched.
pub open spec fn connect_failed_outcome(before: VmiScopeApp, after: VmiScopeApp, message: Seq<char>, at: u64) -> bool {
    &&& after.machines.connecting is None
    &&& after.machines.pending_namespace is None
    &&& match before.machines.connecting {
        Some(key) => failed_into(before.machines.probes@, after.machines.probes@, key@, message, at),
        None => after.machines.probes == before.machines.probes,
    }
    &&& after == (VmiScopeApp { machines: after.machines, ..before })
}

fn failure_message(message: &str) -> (r: String)
    ensures
        r@ == failure_text(message@),
{
    let cs = chars_of(message);
    let ls = lines_of(cs.as_slice());
    if ls.len() > 0 {
        proof {
            assert(ls@.map_values(|l: Vec<char>| l@)[0] == ls@[0]@);
        }
        string_of(ls[0].as_slice())
    } else {
        "connect failed".to_owned()
    }
}

impl VmiScopeApp {
    /// Record a failed connect on the target it was for, seen at `at`; the
    /// namespace the connect asked for is forgotten either way.
    pub fn note_connect_failed_at(&mut self, message: &str, at: u64)
        ensures
            connect_failed_outcome(*old(self), *final(self), message@, at),
    {
        let key = self.machines.connecting.take();
        if let Some(key) = key {
            let m = failure_message(message);
            let ghost mv = m;
            put_probe(&mut self.machines.probes, key, Probe::Failed { message: m, at });
            assert(put_into(old(self).machines.probes@, self.machines.probes@, old(self).machines.connecting.unwrap()@, Probe::Failed { message: mv, at }));
        }
        self.machines.pending_namespace = None;
    }

    /// Record a failed connect on the target it was for. Called from the
    /// connect error path; the failure is stamped with the wall clock.
    pub fn machines_note_connect_failed(&mut self, message: &str)
        ensures
            exists|at: u64| #[trigger] connect_failed_outcome(*old(self), *final(self), message@, at),
    {
        let now = unix_now();
        self.note_connect_failed_at(message, now);
    }

    /// Record a successful connect on the target it was for, seen at `at`:
    /// the bind time, the identity queries' time and the OS build, or the
    /// host's summary where the OS query gave no build.
    pub fn note_connected_at(&mut self, connect_ms: u64, probe_ms: u64, build_number: &str, summary: &str, at: u64)
        ensures
            connected_outcome(*old(self), *final(self), connect_ms, probe_ms, os_of(build_number@, summary@), at),
    {
        let key = self.machines.connecting.take();
        if let Some(key) = key {
            let os = if build_number.is_empty() {
                summary.to_owned()
            } else {
                build_number.to_owned()
            };
            let ghost ov = os;
            put_probe(&mut self.machines.probes, key, Probe::Online { rtt_ms: connect_ms, probe_ms, os, at });
            assert(put_into(
                old(self).machines.probes@,
                self.machines.probes@,
                old(self).machines.connecting.unwrap()@,
                Probe::Online { rtt_ms: connect_ms, probe_ms, os: ov, at },
            ));
        }
    }

    /// Record a successful connect on the target it was for, stamped with the
    /// wall clock. Called from the connect reply.
    pub fn machines_note_connected(&mut self, connect_ms: u64, probe_ms: u64, build_number: &str, summary: &str)
        ensures
            exists|at: u64|
                #[trigger] connected_outcome(*old(self), *final(self), connect_ms, probe_ms, os_of(build_number@, summary@), at),
    {
        let now = unix_now();
        self.note_connected_at(connect_ms, probe_ms, build_number, summary, now);
    }

    /// The namespace an in-flight connect asked to open, consumed.
    pub fn machines_take_pending_namespace(&mut self) -> (r: Option<String>)
        ensures
            r == old(self).machines.pending_namespace,
            *final(self) == (VmiScopeApp {
                machines: MachinesState { pending_namespace: None, ..old(self).machines },
                ..*old(self)
            }),
    {
        self.machines.pending_namespace.take()
    }

    /// The credential the form currently describes, as a persistable
    /// reference.
    pub fn active_cred_ref(&self) -> (r: CredRef)
        ensures
            match r {
                CredRef::CurrentUser => cred_of_form(self.conn_use_creds, self.conn_user@, self.conn_domain@) is None,
                CredRef::Alt { user: u, domain: d } => cred_of_form(self.conn_use_creds, self.conn_user@, self.conn_domain@)
                    == Some((u@, match d {
                        Some(x) => Some(x@),
                        None => None,
                    })),
            },
    {
        cred_ref_of(self.conn_use_creds, self.conn_user.as_str(), self.conn_domain.as_str())
    }
}

} // verus!

verus! {

// ---------------------------------------------------------------------------
// A target's status
// ---------------------------------------------------------------------------

/// The colour family a status is painted in.
#[derive(Clone, Copy, PartialEq, Eq, Debug, Structural)]
pub enum Tone {
    Neutral,
    Warn,
    Bad,
    Good,
}

/// The hover explanation of a status.
pub enum StatusTip {
    /// Words to show as they are.
    Text(String),
    /// The bind's and the identity queries' times, in milliseconds, shown
    /// side by side because they fail for different reasons.
    Timing { bind_ms: u64, probe_ms: u64 },
}

/// A fully resolved status for one row of the targets table.
pub struct StatusView {
    pub tone: Tone,
    pub label: String,
    /// The probe's age, or a cached "last seen" age.
    pub note: Option<String>,
    pub tip: Option<StatusTip>,
}

/// The status a row shows, seen at `now`. The order is deliberate: the local
/// machine first (its reachability is not in question), then an in-flight
/// bind, then this session's probe, then the active connection, then a
/// cached "last seen", then the honest default.
pub open spec fn status_spec(
    now: u64,
    is_local: bool,
    is_active: bool,
    connecting: bool,
    probe: Option<Probe>,
    last_seen: Option<u64>,
) -> (Tone, Seq<char>, Option<Seq<char>>, Option<Seq<char>>, Option<(u64, u64)>) {
    if is_local {
        (Tone::Neutral, "This machine"@, None, None, None)
    } else if is_active && connecting {
        (Tone::Warn, "Connecting\u{2026}"@, None, None, None)
    } else {
        match probe {
            Some(Probe::Connecting) => (Tone::Warn, "Connecting\u{2026}"@, None, None, None),
            Some(Probe::Failed { message, at }) => (Tone::Bad, "Failed"@, Some(age_at(now, at)), Some(message@), None),
            Some(Probe::Online { rtt_ms, probe_ms, at, .. }) => (
                Tone::Good,
                if is_active { "Connected"@ } else { "Online"@ },
                Some("checked "@ + age_at(now, at)),
                None,
                Some((rtt_ms, probe_ms)),
            ),
            None => if is_active {
                (Tone::Good, "Connected"@, None, None, None)
            } else {
                match last_seen {
                    Some(seen) => (
                        Tone::Neutral,
                        "Last seen"@,
                        Some(age_at(now, seen)),
                        Some("Cached from an earlier probe \u{2014} connect or test to refresh"@),
                        None,
                    ),
                    None => (Tone::Neutral, "Unknown"@, Some("not tested"@), None, None),
                }
            },
        }
    }
}

/// A status as its parts: tone, label, note, tip text, tip timings.
pub open spec fn status_parts(v: StatusView) -> (Tone, Seq<char>, Option<Seq<char>>, Option<Seq<char>>, Option<(u64, u64)>) {
    (
        v.tone,
        v.label@,
        match v.note {
            Some(n) => Some(n@),
            None => None,
        },
        match v.tip {
            Some(StatusTip::Text(t)) => Some(t@),
            _ => None,
        },
        match v.tip {
            Some(StatusTip::Timing { bind_ms, probe_ms }) => Some((bind_ms, probe_ms)),
            _ => None,
        },
    )
}

/// Turn a target's runtime probe and cached facts into a status, at `now`.
pub fn status_at(
    now: u64,
    is_local: bool,
    is_active: bool,
    connecting: bool,
    probe: Option<&Probe>,
    last_seen: Option<u64>,
) -> (v: StatusView)
    ensures
        status_parts(v) == status_spec(now, is_local, is_active, connecting, probe_of(probe), last_seen),
{
    if is_local {
        return StatusView { tone: Tone::Neutral, label: "This machine".to_owned(), note: None, tip: None };
    }
    if is_active && connecting {
        return StatusView { tone: Tone::Warn, label: "Connecting\u{2026}".to_owned(), note: None, tip: None };
    }
    match probe {
        Some(Probe::Connecting) => StatusView {
            tone: Tone::Warn,
            label: "Connecting\u{2026}".to_owned(),
            note: None,
            tip: None,
        },
        Some(Probe::Failed { message, at }) => StatusView {
            tone: Tone::Bad,
            label: "Failed".to_owned(),
            note: Some(age_since(now, *at)),
            tip: Some(StatusTip::Text(message.clone())),
        },
        Some(Probe::Online { rtt_ms, probe_ms, at, .. }) => {
            let mut note = lit("checked ");
            let a = age_since(now, *at);
            extend_chars(&mut note, chars_of(a.as_str()).as_slice());
            StatusView {
                tone: Tone::Good,
                label: if is_active { "Connected".to_owned() } else { "Online".to_owned() },
                note: Some(string_of(note.as_slice())),
                tip: Some(StatusTip::Timing { bind_ms: *rtt_ms, probe_ms: *probe_ms }),
            }
        },
        None => {
            if is_active {
                StatusView { tone: Tone::Good, label: "Connected".to_owned(), note: None, tip: None }
            } else if let Some(seen) = last_seen {
                StatusView {
                    tone: Tone::Neutral,
                    label: "Last seen".to_owned(),
                    note: Some(age_since(now, seen)),
                    tip: Some(
                        StatusTip::Text(
                            "Cached from an earlier probe \u{2014} connect or test to refresh".to_owned(),
                        ),
                    ),
                }
            } else {
                StatusView {
                    tone: Tone::Neutral,
                    label: "Unknown".to_owned(),
                    note: Some("not tested".to_owned()),
                    tip: None,
                }
            }
        },
    }
}

/// The probe a row was handed, as a value.
pub open spec fn probe_of(p: Option<&Probe>) -> Option<Probe> {
    match p {
        Some(x) => Some(*x),
        None => None,
    }
}

impl VmiScopeApp {
    /// A target row's status against the wall clock. `is_active` says whether
    /// the row is the target the worker is bound to.
    pub fn resolve_status(&self, is_active: bool, is_local: bool, probe: Option<&Probe>, last_seen: Option<u64>) -> (v: StatusView)
        ensures
            exists|now: u64| #[trigger] status_spec(
                now,
                is_local,
                is_active,
                self.conn_status is Connecting,
                probe_of(probe),
                last_seen,
            ) == status_parts(v),
    {
        let now = unix_now();
        let connecting = match self.conn_status {
            ConnStatus::Connecting => true,
            _ => false,
        };
        status_at(now, is_local, is_active, connecting, probe, last_seen)
    }
}

// ---------------------------------------------------------------------------
// The targets table
// ---------------------------------------------------------------------------

/// What the table shows of a saved target: its identity, by the key the
/// targets list files it under, and what earlier probes measured.
pub struct SavedTarget {
    pub name: String,
    pub namespace: String,
    pub cred: CredRef,
    pub key: String,
    pub last_rtt_ms: Option<u64>,
    pub last_os: String,
    pub last_seen: Option<u64>,
}

/// One row of the targets table.
pub struct RowView {
    /// The host name, empty for this machine.
    pub name: String,
    pub display_name: String,
    pub namespace: String,
    pub cred: CredRef,
    pub is_local: bool,
    pub key: String,
    pub rtt_ms: Option<u64>,
    pub os: String,
    pub status: StatusView,
}

/// The probe filed under `key`, if any.
pub open spec fn probe_for(probes: Seq<(String, Probe)>, key: Seq<char>) -> Option<Probe> {
    match probe_index(probes, key, 0) {
        Some(i) => Some(probes[i].1),
        None => None,
    }
}

fn find_probe<'a>(probes: &'a Vec<(String, Probe)>, key: &str) -> (r: Option<&'a Probe>)
    ensures
        probe_of(r) == probe_for(probes@, key@),
{
    let mut i: usize = 0;
    while i < probes.len()
        invariant
            i <= probes@.len(),
            probe_index(probes@, key@, 0) == probe_index(probes@, key@, i as int),
        decreases probes.len() - i,
    {
        if str_eq(probes[i].0.as_str(), key) {
            return Some(&probes[i].1);
        }
        i += 1;
    }
    None
}

/// A row as the table resolves it: named `\\name` (or "This machine"), its
/// round trip and OS from this session's probe when the target is online,
/// else from what was saved, and its status at some moment of the call.
pub open spec fn row_resolved(
    app: VmiScopeApp,
    r: RowView,
    name: String,
    namespace: String,
    is_local: bool,
    key: String,
    saved: Option<SavedTarget>,
    active_key: Seq<char>,
) -> bool {
    let probe = probe_for(app.machines.probes@, key@);
    &&& r.name == name
    &&& r.namespace == namespace
    &&& r.is_local == is_local
    &&& r.key == key
    &&& r.display_name@ == if is_local { "This machine"@ } else { "\\\\"@ + name@ }
    &&& r.rtt_ms == match probe {
        Some(Probe::Online { rtt_ms, .. }) => Some(rtt_ms),
        _ => match saved {
            Some(t) => t.last_rtt_ms,
            None => None,
        },
    }
    &&& r.os@ == match probe {
        Some(Probe::Online { os, .. }) => os@,
        _ => match saved {
            Some(t) => t.last_os@,
            None => Seq::empty(),
        },
    }
    &&& status_seen(app, r.status, is_local, key@ == active_key, probe, match saved {
        Some(t) => t.last_seen,
        None => None,
    })
}

/// `v` is the status a row with these facts shows at some moment.
pub open spec fn status_seen(
    app: VmiScopeApp,
    v: StatusView,
    is_local: bool,
    is_active: bool,
    probe: Option<Probe>,
    last_seen: Option<u64>,
) -> bool {
    exists|now: u64| #[trigger] status_spec(now, is_local, is_active, app.conn_status is Connecting, probe, last_seen)
        == status_parts(v)
}

/// Leading backslashes dropped.
pub open spec fn strip_backslashes(s: Seq<char>) -> Seq<char>
    decreases s.len(),
{
    if s.len() > 0 && s[0] == '\\' { strip_backslashes(s.drop_first()) } else { s }
}

/// The host name the connection form holds: trimmed, without the leading
/// backslashes of a UNC-style name.
pub open spec fn form_host(host: Seq<char>) -> Seq<char> {
    strip_backslashes(trimmed(host))
}

fn form_host_name(host: &str) -> (r: String)
    ensures
        r@ == form_host(host@),
{
    let hc = chars_of(host);
    let t = trim_chars(hc.as_slice());
    let mut k: usize = 0;
    assert(t@.subrange(0, t@.len() as int) =~= t@);
    while k < t.len() && t[k] == '\\'
        invariant
            k <= t@.len(),
            strip_backslashes(t@) == strip_backslashes(t@.subrange(k as int, t@.len() as int)),
        decreases t.len() - k,
    {
        assert(t@.subrange(k as int, t@.len() as int).drop_first() =~= t@.subrange(k + 1, t@.len() as int));
        k += 1;
    }
    let rest = crate::text::slice_chars(t.as_slice(), k, t.len());
    string_of(rest.as_slice())
}

impl VmiScopeApp {
    /// Resolve one row of the targets table. `key` is the target's key in the
    /// targets list and `active_key` the key of the target the worker is
    /// bound to.
    pub fn resolve_row(
        &self,
        name: String,
        namespace: String,
        cred: CredRef,
        is_local: bool,
        key: String,
        saved: Option<&SavedTarget>,
        active_key: &str,
    ) -> (r: RowView)
        ensures
            row_resolved(*self, r, name, namespace, is_local, key, match saved {
                Some(t) => Some(*t),
                None => None,
            }, active_key@),
            r.cred == cred,
    {
        let display_name = if is_local {
            "This machine".to_owned()
        } else {
            let mut v = lit("\\\\");
            extend_chars(&mut v, chars_of(name.as_str()).as_slice());
            string_of(v.as_slice())
        };
        let probe = find_probe(&self.machines.probes, key.as_str());
        let rtt_ms = match probe {
            Some(Probe::Online { rtt_ms, .. }) => Some(*rtt_ms),
            _ => match saved {
                Some(t) => t.last_rtt_ms,
                None => None,
            },
        };
        let os = match probe {
            Some(Probe::Online { os, .. }) => os.clone(),
            _ => match saved {
                Some(t) => t.last_os.clone(),
                None => String::new(),
            },
        };
        let last_seen = match saved {
            Some(t) => t.last_seen,
            None => None,
        };
        let is_active = str_eq(key.as_str(), active_key);
        let status = self.resolve_status(is_active, is_local, probe, last_seen);
        RowView { name, display_name, namespace, cred, is_local, key, rtt_ms, os, status }
    }

    /// The targets table: this machine first, then every saved target, then
    /// the active remote connection when no row has its key. `local_key` is
    /// this machine's key in the targets list, `active_key` the bound
    /// target's.
    pub fn resolve_rows(
        &self,
        default_namespace: &String,
        local_key: String,
        targets: &Vec<SavedTarget>,
        active_key: String,
    ) -> (rows: Vec<RowView>)
        ensures
            ({
                let extra = !(self.conn_status is Local) && !(local_key@ == active_key@) && forall|i: int|
                    0 <= i < targets@.len() ==> #[trigger] targets@[i].key@ != active_key@;
                &&& rows@.len() == targets@.len() + 1 + if extra { 1int } else { 0int }
                &&& extra ==> row_resolved(
                    *self,
                    rows@[targets@.len() as int + 1],
                    rows@[targets@.len() as int + 1].name,
                    self.machines.namespace,
                    false,
                    active_key,
                    None,
                    active_key@,
                ) && rows@[targets@.len() as int + 1].name@ == form_host(self.conn_host@) && cred_view(
                    rows@[targets@.len() as int + 1].cred,
                ) == cred_of_form(self.conn_use_creds, self.conn_user@, self.conn_domain@)
            }),
            forall|i: int| 0 <= i < targets@.len() ==> (#[trigger] rows@[i + 1]).cred == targets@[i].cred,
            row_resolved(*self, rows@[0], rows@[0].name, *default_namespace, true, local_key, None, active_key@),
            rows@[0].name@.len() == 0,
            rows@[0].cred is CurrentUser,
            forall|i: int|
                0 <= i < targets@.len() ==> row_resolved(
                    *self,
                    #[trigger] rows@[i + 1],
                    targets@[i].name,
                    targets@[i].namespace,
                    false,
                    targets@[i].key,
                    Some(targets@[i]),
                    active_key@,
                ),
    {
        let mut rows: Vec<RowView> = Vec::new();
        let first = self.resolve_row(
            String::new(),
            default_namespace.clone(),
            CredRef::CurrentUser,
            true,
            local_key,
            None,
            active_key.as_str(),
        );
        rows.push(first);
        let mut seen_active = str_eq(rows[0].key.as_str(), active_key.as_str());
        let mut i: usize = 0;
        while i < targets.len()
            invariant
                i <= targets@.len(),
                rows@.len() == i + 1,
                row_resolved(*self, rows@[0], rows@[0].name, *default_namespace, true, rows@[0].key, None, active_key@),
                rows@[0].key == local_key,
                rows@[0].name@.len() == 0,
                rows@[0].cred is CurrentUser,
                forall|j: int|
                    0 <= j < i ==> row_resolved(
                        *self,
                        #[trigger] rows@[j + 1],
                        targets@[j].name,
                        targets@[j].namespace,
                        false,
                        targets@[j].key,
                        Some(targets@[j]),
                        active_key@,
                    ),
                forall|j: int| 0 <= j < i ==> (#[trigger] rows@[j + 1]).cred == targets@[j].cred,
                seen_active == (local_key@ == active_key@ || exists|j: int|
                    0 <= j < i && #[trigger] targets@[j].key@ == active_key@),
            decreases targets.len() - i,
        {
            let t = &targets[i];
            let r = self.resolve_row(
                t.name.clone(),
                t.namespace.clone(),
                clone_cred(&t.cred),
                false,
                t.key.clone(),
                Some(t),
                active_key.as_str(),
            );
            if str_eq(t.key.as_str(), active_key.as_str()) {
                seen_active = true;
            }
            rows.push(r);
            i += 1;
        }
        let local = match self.conn_status {
            ConnStatus::Local => true,
            _ => false,
        };
        if !local && !seen_active {
            let cred = self.active_cred_ref();
            let name = form_host_name(self.conn_host.as_str());
            let r = self.resolve_row(
                name,
                self.machines.namespace.clone(),
                cred,
                false,
                active_key.clone(),
                None,
                active_key.as_str(),
            );
            rows.push(r);
        }
        rows
    }
}

// ---------------------------------------------------------------------------
// Starting a connect
// ---------------------------------------------------------------------------

/// A credential reference as plain values: the alternate account's user and
/// domain, or nothing for the signed-in user.
pub open spec fn cred_view(c: CredRef) -> Option<(Seq<char>, Option<Seq<char>>)> {
    match c {
        CredRef::CurrentUser => None,
        CredRef::Alt { user, domain } => Some((user@, match domain {
            Some(d) => Some(d@),
            None => None,
        })),
    }
}

/// The namespace a connect opens: the form's, trimmed, or the default one
/// when the form's is blank.
pub open spec fn form_namespace(ns: Seq<char>) -> Seq<char> {
    if trimmed(ns).len() == 0 { crate::app::default_namespace() } else { trimmed(ns) }
}

/// What a connect from the form asks for: the host (none for this machine),
/// the credential, the namespace to open.
pub struct ConnectRequest {
    pub host: Option<String>,
    pub cred: CredRef,
    pub namespace: String,
}

impl VmiScopeApp {
    /// What connecting from the form asks for: the form's host, trimmed and
    /// without leading backslashes, or this machine when that is empty; the
    /// credential the form describes; and the form's namespace, or the
    /// default one.
    pub fn connect_request(&self) -> (r: ConnectRequest)
        ensures
            match r.host {
                Some(h) => h@ == form_host(self.conn_host@) && h@.len() > 0,
                None => form_host(self.conn_host@).len() == 0,
            },
            cred_view(r.cred) == cred_of_form(self.conn_use_creds, self.conn_user@, self.conn_domain@),
            r.namespace@ == form_namespace(self.machines.namespace@),
    {
        let name = form_host_name(self.conn_host.as_str());
        let host = if name.as_str().is_empty() {
            None
        } else {
            Some(name)
        };
        let cred = self.active_cred_ref();
        let nc = chars_of(self.machines.namespace.as_str());
        let nt = trim_chars(nc.as_slice());
        let namespace = if nt.len() == 0 {
            "root\\CIMV2".to_owned()
        } else {
            string_of(nt.as_slice())
        };
        proof {
            reveal_strlit("root\\CIMV2");
        }
        ConnectRequest { host, cred, namespace }
    }

    /// Start a connect to the target filed under `key`: its probe reads
    /// "connecting" until the reply, it is the connect in flight, its
    /// namespace waits for the reseed, and the form shows the host as sent.
    pub fn machines_begin_connect(&mut self, key: String, req: ConnectRequest)
        ensures
            put_into(old(self).machines.probes@, final(self).machines.probes@, key@, Probe::Connecting),
            final(self).machines.connecting == Some(key),
            final(self).machines.pending_namespace == Some(req.namespace),
            final(self).conn_host@ == match req.host {
                Some(h) => h@,
                None => Seq::empty(),
            },
            *final(self) == (VmiScopeApp {
                conn_host: final(self).conn_host,
                machines: MachinesState {
                    connecting: Some(key),
                    probes: final(self).machines.probes,
                    pending_namespace: Some(req.namespace),
                    ..old(self).machines
                },
                ..*old(self)
            }),
    {
        let k = key.clone();
        put_probe(&mut self.machines.probes, k, Probe::Connecting);
        self.machines.connecting = Some(key);
        self.machines.pending_namespace = Some(req.namespace);
        self.conn_host = match req.host {
            Some(h) => h,
            None => String::new(),
        };
    }
}

impl VmiScopeApp {
    /// Load a clicked row into the connection form: its host, its
    /// namespace, and its credential -- for an alternate account the user
    /// and domain, the password being never stored.
    pub fn machines_load_row(&mut self, r: &RowView)
        ensures
            final(self).conn_host == r.name,
            final(self).machines.namespace == r.namespace,
            match r.cred {
                CredRef::CurrentUser => !final(self).conn_use_creds && final(self).conn_user == old(self).conn_user
                    && final(self).conn_domain == old(self).conn_domain,
                CredRef::Alt { user, domain } => final(self).conn_use_creds && final(self).conn_user == user
                    && final(self).conn_domain@ == match domain {
                        Some(d) => d@,
                        None => Seq::empty(),
                    },
            },
            *final(self) == (VmiScopeApp {
                conn_host: final(self).conn_host,
                conn_use_creds: final(self).conn_use_creds,
                conn_user: final(self).conn_user,
                conn_domain: final(self).conn_domain,
                machines: MachinesState { namespace: final(self).machines.namespace, ..old(self).machines },
                ..*old(self)
            }),
    {
        self.conn_host = r.name.clone();
        self.machines.namespace = r.namespace.clone();
        match &r.cred {
            CredRef::CurrentUser => self.conn_use_creds = false,
            CredRef::Alt { user, domain } => {
                self.conn_use_creds = true;
                self.conn_user = user.clone();
                self.conn_domain = match domain {
                    Some(d) => d.clone(),
                    None => String::new(),
                };
            },
        }
    }
}

/// A copy of a credential reference.
fn clone_cred(c: &CredRef) -> (r: CredRef)
    ensures
        r == *c,
{
    match c {
        CredRef::CurrentUser => CredRef::CurrentUser,
        CredRef::Alt { user, domain } => CredRef::Alt {
            user: user.clone(),
            domain: match domain {
                Some(d) => Some(d.clone()),
                None => None,
            },
        },
    }
}

} // verus!
