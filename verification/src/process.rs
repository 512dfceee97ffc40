//! The Process tab's rules: what ran on this box, and what became of it.
//!
//! An ended process dims and stays. Two of the columns can be empty for
//! reasons that are not "there was nothing there" -- an unreadable command
//! line, an unresolved owner -- and every function here keeps that difference
//! instead of flattening it.

use vstd::prelude::*;
use std::collections::HashMap;
use crate::app::{MonitorMode, ProcessState, VmiScopeApp};
use crate::text::{
    extend_chars, chars_of, dec, decimal, digit_char, has_sub, lit, lower_contains, lowercase, string_of,
};

verus! {

broadcast use vstd::std_specs::hash::group_hash_axioms;

/// Where the indent stops: past a handful of levels the name column is mostly
/// whitespace and the tree stops being readable as a tree.
pub const MAX_DEPTH: usize = 6;

// ---------------------------------------------------------------------------
// The rows
// ---------------------------------------------------------------------------

/// What a command-line lookup answered with.
pub struct ProcInfo {
    /// Empty when WMI answered with a NULL `CommandLine`.
    pub command_line: String,
    pub executable_path: String,
}

/// The state of a row's command-line lookup.
pub enum Enrichment {
    /// Answered.
    Found(ProcInfo),
    /// The process was gone, or its pid had been reused, when it was asked.
    Unavailable,
    /// The lookup is in flight.
    Pending,
    /// No lookup was made.
    Skipped,
}

/// One process the log has seen, running or ended.
pub struct TrackedProc {
    pub pid: u32,
    pub parent_pid: u32,
    pub name: String,
    /// `DOMAIN\user`; empty when the owner could not be resolved.
    pub user: String,
    pub session_id: u32,
    /// When it started, in the log's own ticks: what rows are ordered by.
    pub started_at: u64,
    /// When it ended; `None` while it runs.
    pub ended_at: Option<u64>,
    /// The exit status the stop event carried, if it carried one.
    pub exit_status: Option<u32>,
    pub command_line: Enrichment,
}

impl TrackedProc {
    pub open spec fn alive(&self) -> bool {
        self.ended_at is None
    }

    /// Ended with a status, and the status is not a clean exit.
    pub open spec fn failed_spec(&self) -> bool {
        !self.alive() && (self.exit_status matches Some(c) && c != 0)
    }

    pub fn is_alive(&self) -> (b: bool)
        ensures
            b == self.alive(),
    {
        self.ended_at.is_none()
    }

    pub fn failed(&self) -> (b: bool)
        ensures
            b == self.failed_spec(),
    {
        match self.exit_status {
            Some(c) => !self.is_alive() && c != 0,
            None => false,
        }
    }
}

/// The view's lifecycle filter: one control rather than two checkboxes, so
/// that "show nothing" is not a reachable combination.
#[derive(Clone, Copy, PartialEq, Eq, Debug, Structural)]
pub enum Lifecycle {
    All,
    Live,
    Ended,
}

// ---------------------------------------------------------------------------
// The command-line cell
// ---------------------------------------------------------------------------

/// What the command-line cell can honestly say.
pub enum Cmd<'a> {
    /// A real command line.
    Line(&'a str),
    /// Why there is none: a short label, and the long form for the tooltip.
    Missing(&'static str, &'static str),
}

pub open spec fn unreadable_label() -> Seq<char> { "unreadable"@ }
pub open spec fn unavailable_label() -> Seq<char> { "unavailable"@ }
pub open spec fn pending_label() -> Seq<char> { "looking\u{2026}"@ }
pub open spec fn skipped_label() -> Seq<char> { "not queried"@ }

/// The label a row with no command line shows, by why it has none.
pub open spec fn missing_label(e: Enrichment) -> Seq<char> {
    match e {
        Enrichment::Found(_) => unreadable_label(),
        Enrichment::Unavailable => unavailable_label(),
        Enrichment::Pending => pending_label(),
        Enrichment::Skipped => skipped_label(),
    }
}

/// The command line itself, when the lookup answered with one.
pub open spec fn readable_line(e: Enrichment) -> Option<Seq<char>> {
    match e {
        Enrichment::Found(info) => if info.command_line@.len() > 0 {
            Some(info.command_line@)
        } else {
            None
        },
        _ => None,
    }
}

/// Three ways to have no command line, and they are three different facts.
pub fn cmd_of(enrichment: &Enrichment) -> (c: Cmd<'_>)
    ensures
        match c {
            Cmd::Line(line) => readable_line(*enrichment) == Some(line@),
            Cmd::Missing(label, _) => readable_line(*enrichment) is None && label@ == missing_label(
                *enrichment,
            ),
        },
{
    match enrichment {
        Enrichment::Found(info) => {
            if !info.command_line.as_str().is_empty() {
                return Cmd::Line(info.command_line.as_str());
            }
            proof {
                reveal_strlit("unreadable");
            }
            Cmd::Missing(
                "unreadable",
                "WMI answered with a NULL CommandLine, which it does for any process this \
                 token does not own. The process has a command line; this session cannot \
                 read it.",
            )
        },
        Enrichment::Unavailable => Cmd::Missing(
            "unavailable",
            "The process was already gone when it was asked, or the pid had been reused \
             and the identity check refused to attribute someone else's command line to \
             this row.",
        ),
        Enrichment::Pending => Cmd::Missing(
            "looking\u{2026}",
            "The lookup is in flight. This is the state a row is born in, and it \
             usually lasts a fraction of a second.",
        ),
        Enrichment::Skipped => Cmd::Missing(
            "not queried",
            "No lookup was made: a stop event, where the process is gone by definition, \
             or an enrichment queue too deep to join without holding up the event stream.",
        ),
    }
}

// ---------------------------------------------------------------------------
// The exit-status cell
// ---------------------------------------------------------------------------

pub open spec fn hex_char(d: nat) -> char {
    if d < 10 { digit_char(d) } else { ((d - 10) + 97) as char }
}

/// The low `count` hexadecimal digits of `n`, most significant first.
pub open spec fn hex_digits(n: nat, count: nat) -> Seq<char>
    decreases count,
{
    if count == 0 {
        Seq::empty()
    } else {
        hex_digits(n / 16, (count - 1) as nat).push(hex_char(n % 16))
    }
}

/// `format!("{code:#010x}")`: `0x` and eight lower-case hex digits.
pub open spec fn hex10(n: nat) -> Seq<char> {
    "0x"@ + hex_digits(n, 8)
}

fn push_hex(v: &mut Vec<char>, n: u32, count: usize)
    requires
        count <= 8,
    ensures
        final(v)@ == old(v)@ + hex_digits(n as nat, count as nat),
    decreases count,
{
    if count > 0 {
        push_hex(v, n / 16, count - 1);
        let d = n % 16;
        let c = if d < 10 {
            crate::text::digit_char_of(d as u64)
        } else {
            ((d - 10) as u8 + 97u8) as char
        };
        v.push(c);
    }
}

pub open spec fn running_text() -> Seq<char> { "\u{2014}"@ }
pub open spec fn unknown_text() -> Seq<char> { "unknown"@ }

/// The exit cell's text.
pub open spec fn exit_text(t: TrackedProc) -> Seq<char> {
    if t.alive() {
        running_text()
    } else {
        match t.exit_status {
            None => unknown_text(),
            Some(code) => if code <= 0xff { dec(code as nat) } else { hex10(code as nat) },
        }
    }
}

/// Whether the exit cell needs a tooltip, and which.
pub open spec fn exit_tip(t: TrackedProc) -> Option<Seq<char>> {
    if t.alive() {
        None
    } else {
        match t.exit_status {
            None => Some(
                "The stop event carried no ExitStatus. The polled fallback never does."@,
            ),
            Some(code) => if code <= 0xff {
                None
            } else {
                Some(dec(code as nat) + " ("@ + hex10(code as nat) + ")"@)
            },
        }
    }
}

/// The exit-status cell: its text, and the tooltip it needs when the text
/// alone would mislead. A running process has no status yet, and an ended
/// one whose provider left it NULL is "unknown" -- never a clean 0.
pub fn exit_cell(t: &TrackedProc) -> (r: (String, Option<String>))
    ensures
        r.0@ == exit_text(*t),
        match r.1 {
            Some(tip) => exit_tip(*t) == Some(tip@),
            None => exit_tip(*t) is None,
        },
{
    if t.is_alive() {
        return ("\u{2014}".to_owned(), None);
    }
    match t.exit_status {
        None => (
            "unknown".to_owned(),
            Some("The stop event carried no ExitStatus. The polled fallback never does.".to_owned()),
        ),
        Some(code) => {
            if code <= 0xff {
                let d = decimal(code as u64);
                (string_of(d.as_slice()), None)
            } else {
                let mut h = lit("0x");
                push_hex(&mut h, code, 8);
                let mut tip = decimal(code as u64);
                let ghost d = tip@;
                let open = lit(" (");
                crate::text::extend_chars(&mut tip, open.as_slice());
                crate::text::extend_chars(&mut tip, h.as_slice());
                let close = lit(")");
                crate::text::extend_chars(&mut tip, close.as_slice());
                proof {
                    assert(tip@ =~= d + " ("@ + hex10(code as nat) + ")"@);
                }
                (string_of(h.as_slice()), Some(string_of(tip.as_slice())))
            }
        },
    }
}

// ---------------------------------------------------------------------------
// Empty states and advice
// ---------------------------------------------------------------------------

/// What the view says when the table is empty, which is a different sentence
/// depending on why it is empty: `logged` is how many rows the log holds.
pub fn empty_note(logged: usize, running: bool) -> (r: &'static str)
    ensures
        r@ == (if logged > 0 {
            "No rows match the filters."@
        } else if running {
            "Watching. Nothing has started or stopped yet."@
        } else {
            "The monitor is stopped \u{2014} click Start."@
        }),
{
    if logged > 0 {
        "No rows match the filters."
    } else if running {
        "Watching. Nothing has started or stopped yet."
    } else {
        "The monitor is stopped \u{2014} click Start."
    }
}

/// What to do about a refused trace subscription, which depends on whether
/// this process already holds an elevated token.
pub fn advice(elevated: bool) -> (r: &'static str)
    ensures
        r@ == (if elevated {
            "This process already holds an elevated token and the WMI Kernel Trace Event \
             Provider refused it anyway, so elevation is not the missing piece here. Read \
             every row below as a sample, not as an inventory."@
        } else {
            "This token is not elevated. Closing VMI-Scope and starting it again with \
             Run as administrator is the documented next step -- though whether an elevated \
             token lifts this particular denial has never been observed here, so it may \
             change nothing. Until it does, read every row below as a sample, not as an \
             inventory."@
        }),
{
    if elevated {
        "This process already holds an elevated token and the WMI Kernel Trace Event \
         Provider refused it anyway, so elevation is not the missing piece here. Read \
         every row below as a sample, not as an inventory."
    } else {
        "This token is not elevated. Closing VMI-Scope and starting it again with \
         Run as administrator is the documented next step -- though whether an elevated \
         token lifts this particular denial has never been observed here, so it may \
         change nothing. Until it does, read every row below as a sample, not as an \
         inventory."
    }
}

// ---------------------------------------------------------------------------
// Ancestry
// ---------------------------------------------------------------------------

/// The last row before `n` whose pid is `pid`: with a recycled pid, the most
/// recent row is the better guess at whose parent it is.
pub open spec fn last_with_pid(rows: Seq<TrackedProc>, pid: u32, n: int) -> Option<int>
    decreases n,
{
    if n <= 0 {
        None
    } else if rows[n - 1].pid == pid {
        Some(n - 1)
    } else {
        last_with_pid(rows, pid, n - 1)
    }
}

/// The row `at` climbs to: its parent's row, unless there is none, it is the
/// row itself, or it started after the child -- then it is a recycled pid,
/// not an ancestor.
pub open spec fn up_of(rows: Seq<TrackedProc>, at: int) -> Option<int> {
    match last_with_pid(rows, rows[at].parent_pid, rows.len() as int) {
        Some(up) => if up != at && rows[up].started_at <= rows[at].started_at {
            Some(up)
        } else {
            None
        },
        None => None,
    }
}

/// How many steps up the chain from `at`, taking at most `budget`.
pub open spec fn climb(rows: Seq<TrackedProc>, at: int, budget: nat) -> nat
    decreases budget,
{
    if budget == 0 {
        0
    } else {
        match up_of(rows, at) {
            Some(up) => 1 + climb(rows, up, (budget - 1) as nat),
            None => 0,
        }
    }
}

pub proof fn lemma_last_with_pid(rows: Seq<TrackedProc>, pid: u32, n: int)
    requires
        n <= rows.len(),
    ensures
        last_with_pid(rows, pid, n) matches Some(k) ==> 0 <= k < n && rows[k].pid == pid,
        last_with_pid(rows, pid, n) is None ==> forall|k: int|
            0 <= k < n ==> #[trigger] rows[k].pid != pid,
    decreases n,
{
    if n > 0 {
        lemma_last_with_pid(rows, pid, n - 1);
    }
}

/// `climb` never exceeds its budget.
pub proof fn lemma_climb_bounded(rows: Seq<TrackedProc>, at: int, budget: nat)
    ensures
        climb(rows, at, budget) <= budget,
    decreases budget,
{
    if budget > 0 {
        if let Some(up) = up_of(rows, at) {
            lemma_climb_bounded(rows, up, (budget - 1) as nat);
        }
    }
}

/// How deep under an ancestor each row sits, by row index.
///
/// Two passes: arrival order is not causal order (a batch of polled
/// instances routinely lands a child before its parent), so the pid index is
/// built over every row first and only then walked. The walk is bounded by
/// [`MAX_DEPTH`], which is also what makes it safe when pid reuse produces
/// two rows that each claim the other as parent.
pub fn depths(all: &[TrackedProc]) -> (d: Vec<usize>)
    ensures
        d@.len() == all@.len(),
        forall|i: int| 0 <= i < all@.len() ==> d@[i] == climb(all@, i, MAX_DEPTH as nat),
{
    let ghost rows = all@;
    let mut by_pid: HashMap<u32, usize> = HashMap::new();
    let mut at: usize = 0;
    while at < all.len()
        invariant
            at <= rows.len(),
            rows == all@,
            forall|p: u32| #[trigger] by_pid@.contains_key(p) ==> last_with_pid(rows, p, at as int)
                == Some(by_pid@[p] as int),
            forall|p: u32| !#[trigger] by_pid@.contains_key(p) ==> last_with_pid(rows, p, at as int)
                is None,
        decreases all.len() - at,
    {
        by_pid.insert(all[at].pid, at);
        at += 1;
    }
    let mut out: Vec<usize> = Vec::new();
    let mut start: usize = 0;
    while start < all.len()
        invariant
            start <= rows.len(),
            rows == all@,
            out@.len() == start,
            forall|p: u32| #[trigger] by_pid@.contains_key(p) ==> last_with_pid(rows, p, rows.len() as int)
                == Some(by_pid@[p] as int),
            forall|p: u32| !#[trigger] by_pid@.contains_key(p) ==> last_with_pid(rows, p, rows.len() as int)
                is None,
            forall|i: int| 0 <= i < start ==> out@[i] == climb(rows, i, MAX_DEPTH as nat),
        decreases all.len() - start,
    {
        let mut depth: usize = 0;
        let mut at: usize = start;
        let ghost goal = climb(rows, start as int, MAX_DEPTH as nat);
        while depth < MAX_DEPTH
            invariant
                depth <= MAX_DEPTH,
                at < rows.len(),
                rows == all@,
                forall|p: u32| #[trigger] by_pid@.contains_key(p) ==> last_with_pid(rows, p, rows.len() as int)
                    == Some(by_pid@[p] as int),
                forall|p: u32| !#[trigger] by_pid@.contains_key(p) ==> last_with_pid(rows, p, rows.len() as int)
                    is None,
                depth + climb(rows, at as int, (MAX_DEPTH - depth) as nat) == goal,
            ensures
                depth == goal,
            decreases MAX_DEPTH - depth,
        {
            let parent = all[at].parent_pid;
            proof {
                lemma_last_with_pid(rows, parent, rows.len() as int);
            }
            match by_pid.get(&parent) {
                Some(upref) => {
                    let up: usize = *upref;
                    if up != at && all[up].started_at <= all[at].started_at {
                        depth += 1;
                        at = up;
                    } else {
                        break;
                    }
                },
                None => {
                    break;
                },
            }
        }
        out.push(depth);
        start += 1;
    }
    out
}

// ---------------------------------------------------------------------------
// Filters
// ---------------------------------------------------------------------------

/// The text the filter searches in a row's command line: the line itself, or
/// nothing when there is none -- matching the view's own words for missing
/// data would be a search over the UI's vocabulary.
pub open spec fn searchable_command(e: Enrichment) -> Seq<char> {
    match readable_line(e) {
        Some(line) => line,
        None => Seq::empty(),
    }
}

/// Does a row survive the filters? Every clause has to hold. `needle` is the
/// filter text, already lower-cased.
pub open spec fn keep_spec(
    t: TrackedProc,
    needle: Seq<char>,
    lifecycle: Lifecycle,
    failed_only: bool,
    session: Option<u32>,
) -> bool {
    &&& match lifecycle {
        Lifecycle::All => true,
        Lifecycle::Live => t.alive(),
        Lifecycle::Ended => !t.alive(),
    }
    &&& (failed_only ==> t.failed_spec())
    &&& (session matches Some(s) ==> t.session_id == s)
    &&& (needle.len() == 0 || has_sub(lowercase(t.name@), needle) || has_sub(lowercase(t.user@), needle)
        || has_sub(lowercase(searchable_command(t.command_line)), needle))
}

pub fn keep(
    t: &TrackedProc,
    needle: &str,
    lifecycle: Lifecycle,
    failed_only: bool,
    session: Option<u32>,
) -> (b: bool)
    ensures
        b == keep_spec(*t, needle@, lifecycle, failed_only, session),
{
    let lifecycle_ok = match lifecycle {
        Lifecycle::All => true,
        Lifecycle::Live => t.is_alive(),
        Lifecycle::Ended => !t.is_alive(),
    };
    if !lifecycle_ok || (failed_only && !t.failed()) {
        return false;
    }
    if let Some(s) = session {
        if t.session_id != s {
            return false;
        }
    }
    if needle.is_empty() {
        return true;
    }
    let command = match cmd_of(&t.command_line) {
        Cmd::Line(line) => line,
        Cmd::Missing(..) => "",
    };
    proof {
        reveal_strlit("");
        assert(command@ =~= searchable_command(t.command_line));
    }
    let n = chars_of(needle);
    assert(needle@.len() > 0);
    lower_contains(t.name.as_str(), n.as_slice()) || lower_contains(t.user.as_str(), n.as_slice())
        || lower_contains(command, n.as_slice())
}

// ---------------------------------------------------------------------------
// The rows shown
// ---------------------------------------------------------------------------

/// The rows of the first `k` of `all` that survive the filters, oldest
/// first: each row's position in the log and its indent -- its ancestry depth
/// in tree mode, else none.
pub open spec fn kept_rows(
    all: Seq<TrackedProc>,
    needle: Seq<char>,
    lifecycle: Lifecycle,
    failed_only: bool,
    session: Option<u32>,
    tree: bool,
    k: int,
) -> Seq<(usize, usize)>
    decreases k,
{
    if k <= 0 {
        Seq::empty()
    } else {
        let rest = kept_rows(all, needle, lifecycle, failed_only, session, tree, k - 1);
        if keep_spec(all[k - 1], needle, lifecycle, failed_only, session) {
            rest.push(((k - 1) as usize, if tree { climb(all, k - 1, MAX_DEPTH as nat) as usize } else { 0usize }))
        } else {
            rest
        }
    }
}

/// The rows the table gets: the log's rows that survive the filters (the
/// text filter lower-cased), each with its indent, newest first -- unless a
/// column sort or the tree is on, which take them in the log's causal order.
pub open spec fn shown_rows(
    all: Seq<TrackedProc>,
    filter: Seq<char>,
    lifecycle: Lifecycle,
    failed_only: bool,
    session: Option<u32>,
    tree: bool,
    sorted: bool,
) -> Seq<(usize, usize)> {
    let r = kept_rows(all, lowercase(filter), lifecycle, failed_only, session, tree, all.len() as int);
    if !sorted && !tree { r.reverse() } else { r }
}

/// The rows the process table shows, as (position in the log, indent).
/// Ancestry is computed over every row, so a child whose parent is filtered
/// out keeps its depth.
pub fn shown_process_rows(
    all: &Vec<TrackedProc>,
    filter: &str,
    lifecycle: Lifecycle,
    failed_only: bool,
    session: Option<u32>,
    tree: bool,
    sort: Option<(usize, bool)>,
) -> (r: Vec<(usize, usize)>)
    ensures
        r@ == shown_rows(all@, filter@, lifecycle, failed_only, session, tree, sort is Some),
{
    let needle = crate::text::to_lowercase(filter);
    let depth = if tree {
        depths(all.as_slice())
    } else {
        Vec::new()
    };
    let mut rows: Vec<(usize, usize)> = Vec::new();
    let mut i: usize = 0;
    while i < all.len()
        invariant
            i <= all@.len(),
            needle@ == lowercase(filter@),
            tree ==> depth@.len() == all@.len(),
            tree ==> forall|j: int| 0 <= j < all@.len() ==> depth@[j] == climb(all@, j, MAX_DEPTH as nat),
            rows@ == kept_rows(all@, needle@, lifecycle, failed_only, session, tree, i as int),
        decreases all.len() - i,
    {
        if keep(&all[i], needle.as_str(), lifecycle, failed_only, session) {
            let d = if tree {
                depth[i]
            } else {
                0
            };
            rows.push((i, d));
        }
        i += 1;
    }
    if sort.is_none() && !tree {
        let mut rev: Vec<(usize, usize)> = Vec::new();
        let mut k: usize = rows.len();
        while k > 0
            invariant
                k <= rows@.len(),
                rev@ == rows@.reverse().take((rows@.len() - k) as int),
            decreases k,
        {
            k -= 1;
            rev.push(rows[k]);
            assert(rev@ =~= rows@.reverse().take((rows@.len() - k) as int));
        }
        assert(rows@.reverse().take(rows@.len() as int) =~= rows@.reverse());
        rev
    } else {
        rows
    }
}

// ---------------------------------------------------------------------------
// CSV
// ---------------------------------------------------------------------------

/// A field needs quoting when it holds a comma, a quote or a line break.
pub open spec fn needs_quotes(s: Seq<char>) -> bool {
    s.contains(',') || s.contains('"') || s.contains('\n') || s.contains('\r')
}

/// `s` with every `"` written twice.
pub open spec fn doubled_quotes(s: Seq<char>) -> Seq<char>
    decreases s.len(),
{
    if s.len() == 0 {
        Seq::empty()
    } else {
        let c = s.last();
        doubled_quotes(s.drop_last()) + if c == '"' { seq!['"', '"'] } else { seq![c] }
    }
}

/// One CSV field, RFC 4180.
pub open spec fn csv_field_spec(s: Seq<char>) -> Seq<char> {
    if needs_quotes(s) {
        seq!['"'] + doubled_quotes(s) + seq!['"']
    } else {
        s
    }
}

pub fn csv_field(s: &str) -> (r: String)
    ensures
        r@ == csv_field_spec(s@),
{
    let cs = chars_of(s);
    let mut quote = false;
    let mut i: usize = 0;
    while i < cs.len()
        invariant
            i <= cs@.len(),
            cs@ == s@,
            quote == exists|j: int|
                0 <= j < i && (#[trigger] cs@[j] == ',' || cs@[j] == '"' || cs@[j] == '\n' || cs@[j]
                    == '\r'),
        decreases cs.len() - i,
    {
        let c = cs[i];
        if c == ',' || c == '"' || c == '\n' || c == '\r' {
            quote = true;
        }
        i += 1;
    }
    proof {
        if quote {
            let j = choose|j: int|
                0 <= j < cs@.len() && (#[trigger] cs@[j] == ',' || cs@[j] == '"' || cs@[j] == '\n'
                    || cs@[j] == '\r');
            assert(s@[j] == cs@[j]);
        } else {
            assert(!s@.contains(',')) by {
                if s@.contains(',') {
                    let k = choose|k: int| 0 <= k < s@.len() && s@[k] == ',';
                    assert(cs@[k] == ',');
                }
            }
            assert(!s@.contains('"')) by {
                if s@.contains('"') {
                    let k = choose|k: int| 0 <= k < s@.len() && s@[k] == '"';
                    assert(cs@[k] == '"');
                }
            }
            assert(!s@.contains('\n')) by {
                if s@.contains('\n') {
                    let k = choose|k: int| 0 <= k < s@.len() && s@[k] == '\n';
                    assert(cs@[k] == '\n');
                }
            }
            assert(!s@.contains('\r')) by {
                if s@.contains('\r') {
                    let k = choose|k: int| 0 <= k < s@.len() && s@[k] == '\r';
                    assert(cs@[k] == '\r');
                }
            }
        }
    }
    if !quote {
        return s.to_owned();
    }
    let mut out: Vec<char> = Vec::new();
    out.push('"');
    let mut k: usize = 0;
    while k < cs.len()
        invariant
            k <= cs@.len(),
            cs@ == s@,
            out@ == seq!['"'] + doubled_quotes(cs@.take(k as int)),
        decreases cs.len() - k,
    {
        let c = cs[k];
        let ghost before = out@;
        assert(cs@.take(k + 1).drop_last() =~= cs@.take(k as int));
        if c == '"' {
            out.push('"');
            out.push('"');
            assert(out@ =~= before + seq!['"', '"']);
        } else {
            out.push(c);
            assert(out@ =~= before + seq![c]);
        }
        assert(out@ =~= seq!['"'] + doubled_quotes(cs@.take(k + 1)));
        k += 1;
    }
    out.push('"');
    assert(cs@.take(cs@.len() as int) =~= cs@);
    string_of(out.as_slice())
}

} // verus!

verus! {

// ---------------------------------------------------------------------------
// The status line
// ---------------------------------------------------------------------------

/// How many rows of the log are still running.
pub open spec fn live_count(rows: Seq<TrackedProc>) -> nat
    decreases rows.len(),
{
    if rows.len() == 0 {
        0
    } else {
        live_count(rows.drop_last()) + if rows.last().alive() { 1nat } else { 0nat }
    }
}

pub proof fn lemma_live_count_bounded(rows: Seq<TrackedProc>)
    ensures
        live_count(rows) <= rows.len(),
    decreases rows.len(),
{
    if rows.len() > 0 {
        lemma_live_count_bounded(rows.drop_last());
    }
}

/// The monitor's state as the status line names it: a bar that says
/// "watching" while the monitor is sampling would undo the banner above it.
pub open spec fn proc_state_text(running: bool, mode: Option<MonitorMode>) -> Seq<char> {
    if !running {
        "stopped"@
    } else {
        match mode {
            None => "connecting"@,
            Some(m) => if m.degraded { "watching (degraded)"@ } else { "watching (trace)"@ },
        }
    }
}

pub open spec fn proc_status_spec(p: ProcessState) -> Seq<char> {
    let live = live_count(p.log@);
    dec(live) + " live \u{00b7} "@ + dec((p.log@.len() - live) as nat) + " kept \u{00b7} "@
        + proc_state_text(p.running, p.mode)
}

impl VmiScopeApp {
    /// Is the process subscription up?
    pub fn proc_running(&self) -> (b: bool)
        ensures
            b == self.proc.running,
    {
        self.proc.running
    }

    /// The status bar's line for the Process view.
    pub fn proc_status(&self) -> (r: String)
        ensures
            r@ == proc_status_spec(self.proc),
    {
        let rows = &self.proc.log;
        let mut live: usize = 0;
        let mut i: usize = 0;
        while i < rows.len()
            invariant
                i <= rows@.len(),
                live == live_count(rows@.take(i as int)),
                live <= i,
            decreases rows.len() - i,
        {
            assert(rows@.take(i + 1).drop_last() =~= rows@.take(i as int));
            if rows[i].is_alive() {
                live += 1;
            }
            i += 1;
        }
        assert(rows@.take(rows@.len() as int) =~= rows@);
        let state = if !self.proc.running {
            "stopped"
        } else {
            match self.proc.mode {
                None => "connecting",
                Some(m) => if m.degraded { "watching (degraded)" } else { "watching (trace)" },
            }
        };
        let mut out = decimal(live as u64);
        extend_chars(&mut out, lit(" live \u{00b7} ").as_slice());
        extend_chars(&mut out, decimal((rows.len() - live) as u64).as_slice());
        extend_chars(&mut out, lit(" kept \u{00b7} ").as_slice());
        extend_chars(&mut out, chars_of(state).as_slice());
        string_of(out.as_slice())
    }
}

} // verus!

verus! {

// ---------------------------------------------------------------------------
// What the view promises
// ---------------------------------------------------------------------------

proof fn lemma_dec_zero_only(n: nat)
    ensures
        dec(n) == seq!['0'] ==> n == 0,
{
    if n >= 10 {
        crate::text::lemma_dec_digits(n / 10);
        assert(dec(n).len() == dec(n / 10).len() + 1);
    } else if n > 0 {
        assert(dec(n)[0] == digit_char(n));
        assert((digit_char(n) as u32) == 48 + n);
    }
}

/// An exit cell reads "0" only for a process that ended and reported a clean
/// exit: a running process, and one whose stop event carried no status, are
/// never shown as a clean exit.
pub proof fn lemma_zero_means_a_reported_clean_exit(t: TrackedProc)
    ensures
        exit_text(t) == "0"@ ==> !t.alive() && t.exit_status == Some(0u32),
{
    reveal_strlit("0");
    reveal_strlit("unknown");
    reveal_strlit("\u{2014}");
    reveal_strlit("0x");
    if exit_text(t) == "0"@ {
        assert("0"@ =~= seq!['0']);
        if !t.alive() {
            if let Some(code) = t.exit_status {
                if code <= 0xff {
                    lemma_dec_zero_only(code as nat);
                } else {
                    assert(hex10(code as nat).len() >= 2);
                }
            } else {
                assert(unknown_text().len() == 7);
            }
        } else {
            assert(running_text().len() == 1);
            assert(running_text()[0] != '0');
        }
    }
}

/// With no filter set -- every lifecycle, failures or not, any session, no
/// text -- every row is kept.
pub proof fn lemma_no_filter_keeps_every_row(t: TrackedProc)
    ensures
        keep_spec(t, Seq::empty(), Lifecycle::All, false, None),
{
}

/// The lifecycle filter splits the rows: a row is kept under `Live` or under
/// `Ended`, never both, and the other filters only narrow further.
pub proof fn lemma_filters_compose(
    t: TrackedProc,
    needle: Seq<char>,
    failed_only: bool,
    session: Option<u32>,
)
    ensures
        !(keep_spec(t, needle, Lifecycle::Live, failed_only, session) && keep_spec(
            t,
            needle,
            Lifecycle::Ended,
            failed_only,
            session,
        )),
        keep_spec(t, needle, Lifecycle::Live, failed_only, session) ==> keep_spec(
            t,
            needle,
            Lifecycle::All,
            failed_only,
            session,
        ),
        keep_spec(t, needle, Lifecycle::All, true, session) ==> keep_spec(
            t,
            needle,
            Lifecycle::All,
            false,
            session,
        ),
        keep_spec(t, needle, Lifecycle::All, failed_only, Some(t.session_id)) == keep_spec(
            t,
            needle,
            Lifecycle::All,
            failed_only,
            None,
        ),
{
}

} // verus!
