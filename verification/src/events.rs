//! The Events view's logic: what kind of change an event reports, the one-line
//! summary of what arrived, the capped log that holds it, and the UTC stamps.

use vstd::prelude::*;
use std::collections::VecDeque;
use crate::app::{EventRow, EventsState, MonitorMsg, VmiScopeApp};
use crate::wql::{event_class_of, event_class_spec, subject_of, subject_spec, within_of, within_spec};
use crate::text::{
    dec, decimal, has_sub, lower_contains, lowercase, chars_eq, chars_of, str_eq, ends, ends_with, extend_chars, join, join_chars, lit, lower_seq, pad2,
    pad3, push_pad2, push_pad3, starts, starts_with, string_of, lower_chars,
};

verus! {

// ---------------------------------------------------------------------------
// Kinds
// ---------------------------------------------------------------------------

/// What kind of change an event reports.
#[derive(Clone, Copy, PartialEq, Eq, Debug, Structural)]
pub enum EventKind {
    Creation,
    Modification,
    Deletion,
    /// An instance operation whose kind the delivered properties do not pin
    /// down: a subscription to the superclass delivers all three.
    Operation,
    /// Provider-pushed rather than synthesised from a poll.
    Extrinsic,
}

impl EventKind {
    pub open spec fn label_spec(self) -> Seq<char> {
        match self {
            EventKind::Creation => "Creation"@,
            EventKind::Modification => "Modification"@,
            EventKind::Deletion => "Deletion"@,
            EventKind::Operation => "Operation"@,
            EventKind::Extrinsic => "Extrinsic"@,
        }
    }

    pub fn label(self) -> (r: &'static str)
        ensures
            r@ == self.label_spec(),
    {
        match self {
            EventKind::Creation => "Creation",
            EventKind::Modification => "Modification",
            EventKind::Deletion => "Deletion",
            EventKind::Operation => "Operation",
            EventKind::Extrinsic => "Extrinsic",
        }
    }

    pub open spec fn tip_spec(self, event_class: Seq<char>) -> Seq<char> {
        match self {
            EventKind::Operation => event_class
                + " delivers creations, modifications and deletions on one subscription, and the delivered properties only distinguish a modification (it carries PreviousInstance). This one does not."@,
            EventKind::Extrinsic => event_class + " \u{2014} pushed by a provider, not polled."@,
            _ => "Derived from the subscription's class, "@ + event_class + "."@,
        }
    }

    /// The kind column's tooltip: where the kind came from.
    pub fn tip(self, event_class: &str) -> (r: String)
        ensures
            r@ == self.tip_spec(event_class@),
    {
        let class = chars_of(event_class);
        let mut out: Vec<char>;
        match self {
            EventKind::Operation => {
                out = class;
                let rest = lit(
                    " delivers creations, modifications and deletions on one subscription, and the delivered properties only distinguish a modification (it carries PreviousInstance). This one does not.",
                );
                extend_chars(&mut out, rest.as_slice());
            },
            EventKind::Extrinsic => {
                out = class;
                let rest = lit(" \u{2014} pushed by a provider, not polled.");
                extend_chars(&mut out, rest.as_slice());
            },
            _ => {
                out = lit("Derived from the subscription's class, ");
                extend_chars(&mut out, class.as_slice());
                let dot = lit(".");
                extend_chars(&mut out, dot.as_slice());
            },
        }
        string_of(out.as_slice())
    }
}

/// Some key of `pairs` starts with `PreviousInstance`.
pub open spec fn has_previous(pairs: Seq<(String, String)>) -> bool {
    exists|i: int| 0 <= i < pairs.len() && starts(#[trigger] pairs[i].0@, "PreviousInstance"@)
}

/// Classify one delivered event.
///
/// The query's class decides it wherever the query is specific. Where it is
/// not -- a subscription to a superclass -- the single discriminator that
/// survives the flattening is used: only a modification carries
/// `PreviousInstance`.
pub open spec fn kind_spec(event_class: Seq<char>, pairs: Seq<(String, String)>) -> EventKind {
    let c = lower_seq(event_class);
    if c == "__instancecreationevent"@ {
        EventKind::Creation
    } else if c == "__instancemodificationevent"@ {
        EventKind::Modification
    } else if c == "__instancedeletionevent"@ {
        EventKind::Deletion
    } else if starts(c, "__"@) && ends(c, "event"@) && c != "__extrinsicevent"@ {
        if has_previous(pairs) {
            EventKind::Modification
        } else {
            EventKind::Operation
        }
    } else {
        EventKind::Extrinsic
    }
}

proof fn lemma_lower_idempotent(s: Seq<char>)
    ensures
        lower_seq(lower_seq(s)) == lower_seq(s),
{
    assert forall|i: int| 0 <= i < s.len() implies crate::text::lower(crate::text::lower(s[i])) == crate::text::lower(s[i]) by {
        let c = s[i];
        if 65 <= (c as u32) && (c as u32) <= 90 {
            assert(((c as u32) + 32) as char as u32 == (c as u32) + 32);
        }
    }
    assert(lower_seq(lower_seq(s)) =~= lower_seq(s));
}

/// An event's kind does not depend on the ASCII case the class is written
/// in, and the three instance-event classes are creations, modifications and
/// deletions, however they are spelt.
pub proof fn lemma_kind_ignores_case(event_class: Seq<char>, pairs: Seq<(String, String)>)
    ensures
        kind_spec(event_class, pairs) == kind_spec(lower_seq(event_class), pairs),
        lower_seq(event_class) == "__instancecreationevent"@ ==> kind_spec(event_class, pairs) == EventKind::Creation,
        lower_seq(event_class) == "__instancemodificationevent"@ ==> kind_spec(event_class, pairs)
            == EventKind::Modification,
        lower_seq(event_class) == "__instancedeletionevent"@ ==> kind_spec(event_class, pairs) == EventKind::Deletion,
        crate::text::eq_ic(event_class, "__InstanceCreationEvent"@) ==> kind_spec(event_class, pairs) == EventKind::Creation,
        crate::text::eq_ic(event_class, "__InstanceModificationEvent"@) ==> kind_spec(event_class, pairs) == EventKind::Modification,
        crate::text::eq_ic(event_class, "__InstanceDeletionEvent"@) ==> kind_spec(event_class, pairs) == EventKind::Deletion,
{
    lemma_lower_idempotent(event_class);
    reveal_strlit("__InstanceCreationEvent");
    reveal_strlit("__InstanceModificationEvent");
    reveal_strlit("__InstanceDeletionEvent");
    reveal_strlit("__instancecreationevent");
    reveal_strlit("__instancemodificationevent");
    reveal_strlit("__instancedeletionevent");
    assert(lower_seq("__InstanceCreationEvent"@) =~= "__instancecreationevent"@);
    assert(lower_seq("__InstanceModificationEvent"@) =~= "__instancemodificationevent"@);
    assert(lower_seq("__InstanceDeletionEvent"@) =~= "__instancedeletionevent"@);
    assert("__instancedeletionevent"@[10] != "__instancecreationevent"@[10]);
    assert("__instancedeletionevent"@.len() != "__instancemodificationevent"@.len());
    assert("__instancemodificationevent"@.len() != "__instancecreationevent"@.len());
}

pub fn kind_of(event_class: &str, pairs: &[(String, String)]) -> (k: EventKind)
    ensures
        k == kind_spec(event_class@, pairs@),
{
    let prefix = lit("PreviousInstance");
    let mut previous = false;
    let mut i: usize = 0;
    while i < pairs.len()
        invariant
            i <= pairs@.len(),
            prefix@ == "PreviousInstance"@,
            previous == exists|j: int| 0 <= j < i && starts(#[trigger] pairs@[j].0@, "PreviousInstance"@),
        decreases pairs.len() - i,
    {
        let key = chars_of(pairs[i].0.as_str());
        if starts_with(key.as_slice(), prefix.as_slice()) {
            previous = true;
        }
        i += 1;
    }
    let c = lower_chars(event_class);
    let creation = lit("__instancecreationevent");
    let modification = lit("__instancemodificationevent");
    let deletion = lit("__instancedeletionevent");
    let extrinsic = lit("__extrinsicevent");
    let under = lit("__");
    let event = lit("event");
    if chars_eq(c.as_slice(), creation.as_slice()) {
        EventKind::Creation
    } else if chars_eq(c.as_slice(), modification.as_slice()) {
        EventKind::Modification
    } else if chars_eq(c.as_slice(), deletion.as_slice()) {
        EventKind::Deletion
    } else if starts_with(c.as_slice(), under.as_slice()) && ends_with(c.as_slice(), event.as_slice())
        && !chars_eq(c.as_slice(), extrinsic.as_slice()) {
        if previous {
            EventKind::Modification
        } else {
            EventKind::Operation
        }
    } else {
        EventKind::Extrinsic
    }
}

// ---------------------------------------------------------------------------
// The summary
// ---------------------------------------------------------------------------

/// Index just past the last `.` in `k`, or 0 when there is none.
pub open spec fn after_last_dot(k: Seq<char>) -> int
    decreases k.len(),
{
    if k.len() == 0 {
        0
    } else if k.last() == '.' {
        k.len() as int
    } else {
        after_last_dot(k.drop_last())
    }
}

proof fn lemma_after_last_dot(k: Seq<char>)
    ensures
        0 <= after_last_dot(k) <= k.len(),
        forall|i: int| after_last_dot(k) <= i < k.len() ==> k[i] != '.',
        after_last_dot(k) > 0 ==> k[after_last_dot(k) - 1] == '.',
    decreases k.len(),
{
    if k.len() > 0 && k.last() != '.' {
        lemma_after_last_dot(k.drop_last());
        assert forall|i: int| after_last_dot(k) <= i < k.len() implies k[i] != '.' by {
            if i < k.len() - 1 {
                assert(k[i] == k.drop_last()[i]);
            }
        }
        if after_last_dot(k) > 0 {
            assert(k[after_last_dot(k) - 1] == k.drop_last()[after_last_dot(k) - 1]);
        }
    }
}

/// The last dotted component of a property path.
pub open spec fn leaf_spec(key: Seq<char>) -> Seq<char> {
    key.subrange(after_last_dot(key), key.len() as int)
}

/// `TargetInstance.Name` -> `Name`.
pub fn leaf(key: &str) -> (r: &str)
    ensures
        r@ == leaf_spec(key@),
{
    let cs = chars_of(key);
    let mut i = cs.len();
    assert(key@.take(i as int) =~= key@);
    while i > 0 && cs[i - 1] != '.'
        invariant
            i <= cs@.len(),
            cs@ == key@,
            after_last_dot(key@) == after_last_dot(key@.take(i as int)),
        decreases i,
    {
        assert(key@.take(i as int).drop_last() =~= key@.take(i - 1));
        i -= 1;
    }
    proof {
        if i > 0 {
            assert(key@.take(i as int).last() == '.');
        } else {
            assert(key@.take(0) =~= Seq::<char>::empty());
        }
    }
    key.substring_char(i, cs.len())
}

/// A property path and its value, as characters.
pub open spec fn pv(p: (String, String)) -> (Seq<char>, Seq<char>) {
    (p.0@, p.1@)
}

pub open spec fn pairs_view(pairs: Seq<(String, String)>) -> Seq<(Seq<char>, Seq<char>)> {
    pairs.map_values(|p: (String, String)| pv(p))
}

/// Envelope properties crowd out the payload in a one-line summary.
pub open spec fn is_envelope(key: Seq<char>) -> bool {
    key == "TIME_CREATED"@ || key == "SECURITY_DESCRIPTOR"@
}

/// The value of the first `PreviousInstance.<name>` at or after `j`.
pub open spec fn previous_from(ps: Seq<(Seq<char>, Seq<char>)>, name: Seq<char>, j: int) -> Option<Seq<char>>
    decreases ps.len() - j,
{
    if j < 0 || j >= ps.len() {
        None
    } else if ps[j].0 == "PreviousInstance."@ + name {
        Some(ps[j].1)
    } else {
        previous_from(ps, name, j + 1)
    }
}

/// What pair `i` contributes to the summary.
///
/// An intrinsic modification carries each property twice, under
/// `PreviousInstance` and under `TargetInstance`; the two halves fold into one
/// field reading "old -> new" (or just the value, when it did not change). A
/// previous half with no target twin is a property that went away: "was X".
pub open spec fn field_of(ps: Seq<(Seq<char>, Seq<char>)>, i: int) -> Option<(Seq<char>, Seq<char>)> {
    let key = ps[i].0;
    let value = ps[i].1;
    let prev = "PreviousInstance."@;
    if is_envelope(key) {
        None
    } else if starts(key, prev) {
        let field = key.subrange(prev.len() as int, key.len() as int);
        if exists|j: int| 0 <= j < ps.len() && #[trigger] ps[j].0 == "TargetInstance."@ + field {
            None
        } else {
            Some(("was "@ + field, value))
        }
    } else {
        let name = leaf_spec(key);
        let rendered = match previous_from(ps, name, 0) {
            Some(before) => if before != value {
                before + " \u{2192} "@ + value
            } else {
                value
            },
            None => value,
        };
        Some((name, rendered))
    }
}

/// The fields of the first `k` pairs.
pub open spec fn fields_upto(ps: Seq<(Seq<char>, Seq<char>)>, k: int) -> Seq<(Seq<char>, Seq<char>)>
    decreases k,
{
    if k <= 0 {
        Seq::empty()
    } else {
        match field_of(ps, k - 1) {
            Some(f) => fields_upto(ps, k - 1).push(f),
            None => fields_upto(ps, k - 1),
        }
    }
}

pub open spec fn summary_fields_spec(ps: Seq<(Seq<char>, Seq<char>)>) -> Seq<(Seq<char>, Seq<char>)> {
    fields_upto(ps, ps.len() as int)
}

pub open spec fn fields_view(fs: Seq<(String, String)>) -> Seq<(Seq<char>, Seq<char>)> {
    pairs_view(fs)
}

/// Does some key equal `target`?
fn any_key_is(pairs: &[(String, String)], target: &[char]) -> (r: bool)
    ensures
        r == exists|j: int| 0 <= j < pairs@.len() && #[trigger] pairs_view(pairs@)[j].0 == target@,
{
    let mut j: usize = 0;
    while j < pairs.len()
        invariant
            j <= pairs@.len(),
            forall|m: int| 0 <= m < j ==> #[trigger] pairs_view(pairs@)[m].0 != target@,
        decreases pairs.len() - j,
    {
        let key = chars_of(pairs[j].0.as_str());
        if chars_eq(key.as_slice(), target) {
            assert(pairs_view(pairs@)[j as int].0 == target@);
            return true;
        }
        j += 1;
    }
    false
}

/// The value of the first pair keyed `target`.
fn first_value_of<'a>(pairs: &'a [(String, String)], name: Ghost<Seq<char>>, target: &[char]) -> (r: Option<&'a String>)
    requires
        target@ == "PreviousInstance."@ + name@,
    ensures
        match previous_from(pairs_view(pairs@), name@, 0) {
            Some(v) => r matches Some(s) && s@ == v,
            None => r is None,
        },
{
    let ghost ps = pairs_view(pairs@);
    let mut j: usize = 0;
    while j < pairs.len()
        invariant
            j <= pairs@.len(),
            ps == pairs_view(pairs@),
            target@ == "PreviousInstance."@ + name@,
            previous_from(ps, name@, 0) == previous_from(ps, name@, j as int),
        decreases pairs.len() - j,
    {
        let key = chars_of(pairs[j].0.as_str());
        if chars_eq(key.as_slice(), target) {
            return Some(&pairs[j].1);
        }
        j += 1;
    }
    None
}

/// The fields a one-line summary chooses from, with a modification's two
/// halves folded together.
pub fn summary_fields(pairs: &[(String, String)]) -> (out: Vec<(String, String)>)
    ensures
        fields_view(out@) == summary_fields_spec(pairs_view(pairs@)),
{
    let ghost ps = pairs_view(pairs@);
    let prev = lit("PreviousInstance.");
    let target = lit("TargetInstance.");
    let time_created = lit("TIME_CREATED");
    let security = lit("SECURITY_DESCRIPTOR");
    let was = lit("was ");
    let arrow = lit(" \u{2192} ");
    let mut out: Vec<(String, String)> = Vec::new();
    let mut i: usize = 0;
    while i < pairs.len()
        invariant
            i <= pairs@.len(),
            ps == pairs_view(pairs@),
            prev@ == "PreviousInstance."@,
            target@ == "TargetInstance."@,
            time_created@ == "TIME_CREATED"@,
            security@ == "SECURITY_DESCRIPTOR"@,
            was@ == "was "@,
            arrow@ == " \u{2192} "@,
            fields_view(out@) == fields_upto(ps, i as int),
        decreases pairs.len() - i,
    {
        let key_str = pairs[i].0.as_str();
        let key = chars_of(key_str);
        let value = &pairs[i].1;
        assert(ps[i as int] == (key@, value@));
        let ghost before = out@;
        if chars_eq(key.as_slice(), time_created.as_slice()) || chars_eq(key.as_slice(), security.as_slice()) {
            i += 1;
            continue;
        }
        if starts_with(key.as_slice(), prev.as_slice()) {
            let field = slice_of(key.as_slice(), prev.len());
            let mut twin = target.clone();
            extend_chars(&mut twin, field.as_slice());
            if !any_key_is(pairs, twin.as_slice()) {
                let mut name = was.clone();
                extend_chars(&mut name, field.as_slice());
                out.push((string_of(name.as_slice()), value.clone()));
                assert(fields_view(out@) =~= fields_view(before).push(field_of(ps, i as int).unwrap()));
            }
            i += 1;
            continue;
        }
        let name_str = leaf(key_str);
        let name = chars_of(name_str);
        let mut wanted = prev.clone();
        extend_chars(&mut wanted, name.as_slice());
        let rendered = match first_value_of(pairs, Ghost(name@), wanted.as_slice()) {
            Some(before_value) => {
                if !str_eq(before_value.as_str(), value.as_str()) {
                    let mut r = chars_of(before_value.as_str());
                    extend_chars(&mut r, arrow.as_slice());
                    let v = chars_of(value.as_str());
                    extend_chars(&mut r, v.as_slice());
                    string_of(r.as_slice())
                } else {
                    value.clone()
                }
            },
            None => value.clone(),
        };
        out.push((name_str.to_owned(), rendered));
        assert(fields_view(out@) =~= fields_view(before).push(field_of(ps, i as int).unwrap()));
        i += 1;
    }
    out
}

/// `s[from..]` as a new vector.
fn slice_of(s: &[char], from: usize) -> (r: Vec<char>)
    requires
        from <= s@.len(),
    ensures
        r@ == s@.subrange(from as int, s@.len() as int),
{
    crate::text::slice_chars(s, from, s.len())
}

} // verus!

verus! {

/// The fields a summary leads with, in this order: identity first, so the name
/// is not pushed off the line by whatever sorts first alphabetically.
pub open spec fn preferred(w: int) -> Seq<char> {
    if w == 0 {
        "Name"@
    } else if w == 1 {
        "ProcessId"@
    } else if w == 2 {
        "Handle"@
    } else {
        "Caption"@
    }
}

/// How many fields a one-line summary shows before it stops.
pub open spec fn summary_cap() -> int {
    3
}

/// First field at or after `k` named `name`.
pub open spec fn named_from(fs: Seq<(Seq<char>, Seq<char>)>, name: Seq<char>, k: int) -> Option<int>
    decreases fs.len() - k,
{
    if k < 0 || k >= fs.len() {
        None
    } else if fs[k].0 == name {
        Some(k)
    } else {
        named_from(fs, name, k + 1)
    }
}

/// The fields taken after considering the first `w` preferred names.
pub open spec fn taken_preferred(fs: Seq<(Seq<char>, Seq<char>)>, w: int) -> Seq<int>
    decreases w,
{
    if w <= 0 {
        Seq::empty()
    } else {
        let t = taken_preferred(fs, w - 1);
        if t.len() >= summary_cap() {
            t
        } else {
            match named_from(fs, preferred(w - 1), 0) {
                Some(at) => t.push(at),
                None => t,
            }
        }
    }
}

/// Then the rest, in order, until the line is full.
pub open spec fn taken_rest(fs: Seq<(Seq<char>, Seq<char>)>, k: int) -> Seq<int>
    decreases k,
{
    if k <= 0 {
        taken_preferred(fs, 4)
    } else {
        let t = taken_rest(fs, k - 1);
        if t.len() >= summary_cap() || t.contains(k - 1) {
            t
        } else {
            t.push(k - 1)
        }
    }
}

/// The fields a summary shows, in the order it shows them.
pub open spec fn summary_picks(fs: Seq<(Seq<char>, Seq<char>)>) -> Seq<int> {
    taken_rest(fs, fs.len() as int)
}

pub open spec fn part_of(f: (Seq<char>, Seq<char>)) -> Seq<char> {
    f.0 + " = "@ + f.1
}

/// A one-line description of what arrived: at most three `name = value`
/// fields, identity first, joined by a middle dot.
pub open spec fn summarize_spec(ps: Seq<(Seq<char>, Seq<char>)>) -> Seq<char> {
    let fs = summary_fields_spec(ps);
    let picks = summary_picks(fs);
    join(Seq::new(picks.len(), |i: int| part_of(fs[picks[i]])), " \u{00b7} "@)
}

proof fn lemma_named_from(fs: Seq<(Seq<char>, Seq<char>)>, name: Seq<char>, k: int)
    ensures
        named_from(fs, name, k) matches Some(at) ==> k <= at < fs.len() && fs[at].0 == name,
    decreases fs.len() - k,
{
    if 0 <= k < fs.len() && fs[k].0 != name {
        lemma_named_from(fs, name, k + 1);
    }
}

proof fn lemma_taken_preferred(fs: Seq<(Seq<char>, Seq<char>)>, w: int)
    ensures
        taken_preferred(fs, w).len() <= summary_cap(),
        forall|j: int| 0 <= j < taken_preferred(fs, w).len() ==> 0 <= #[trigger] taken_preferred(fs, w)[j] < fs.len(),
    decreases w,
{
    if w > 0 {
        lemma_taken_preferred(fs, w - 1);
        lemma_named_from(fs, preferred(w - 1), 0);
    }
}

proof fn lemma_taken_rest(fs: Seq<(Seq<char>, Seq<char>)>, k: int)
    requires
        k <= fs.len(),
    ensures
        taken_rest(fs, k).len() <= summary_cap(),
        forall|j: int| 0 <= j < taken_rest(fs, k).len() ==> 0 <= #[trigger] taken_rest(fs, k)[j] < fs.len(),
    decreases k,
{
    if k <= 0 {
        lemma_taken_preferred(fs, 4);
    } else {
        lemma_taken_rest(fs, k - 1);
    }
}

fn position_named(fields: &Vec<(String, String)>, name: &[char]) -> (r: Option<usize>)
    ensures
        match named_from(fields_view(fields@), name@, 0) {
            Some(at) => r == Some(at as usize),
            None => r is None,
        },
{
    let ghost fs = fields_view(fields@);
    let mut k: usize = 0;
    while k < fields.len()
        invariant
            k <= fields@.len(),
            fs == fields_view(fields@),
            named_from(fs, name@, 0) == named_from(fs, name@, k as int),
        decreases fields.len() - k,
    {
        let n = chars_of(fields[k].0.as_str());
        if chars_eq(n.as_slice(), name) {
            return Some(k);
        }
        k += 1;
    }
    None
}

fn contains_index(v: &Vec<usize>, x: usize) -> (r: bool)
    ensures
        r == v@.map_values(|i: usize| i as int).contains(x as int),
{
    let mut k: usize = 0;
    while k < v.len()
        invariant
            k <= v@.len(),
            forall|m: int| 0 <= m < k ==> v@[m] != x,
        decreases v.len() - k,
    {
        if v[k] == x {
            assert(v@.map_values(|i: usize| i as int)[k as int] == x as int);
            return true;
        }
        k += 1;
    }
    let ghost t = v@.map_values(|i: usize| i as int);
    assert forall|m: int| 0 <= m < t.len() implies #[trigger] t[m] != x as int by {
        assert(t[m] == v@[m] as int);
    }
    false
}

/// A one-line description of what arrived.
#[verifier::spinoff_prover]
pub fn summarize(pairs: &[(String, String)]) -> (r: String)
    ensures
        r@ == summarize_spec(pairs_view(pairs@)),
{
    let fields = summary_fields(pairs);
    let ghost fs = fields_view(fields@);
    let wanted: [&'static str; 4] = ["Name", "ProcessId", "Handle", "Caption"];
    let eq = lit(" = ");
    let mut taken: Vec<usize> = Vec::new();
    let mut parts: Vec<Vec<char>> = Vec::new();
    let mut w: usize = 0;
    proof {
        lemma_taken_preferred(fs, 0);
    }
    while w < 4
        invariant
            w <= 4,
            fs == fields_view(fields@),
            eq@ == " = "@,
            wanted@[0]@ == "Name"@,
            wanted@[1]@ == "ProcessId"@,
            wanted@[2]@ == "Handle"@,
            wanted@[3]@ == "Caption"@,
            taken@.map_values(|i: usize| i as int) == taken_preferred(fs, w as int),
            parts@.len() == taken@.len(),
            forall|j: int| 0 <= j < parts@.len() ==> #[trigger] parts@[j]@ == part_of(fs[taken@[j] as int]),
        decreases 4 - w,
    {
        proof {
            lemma_taken_preferred(fs, w as int);
        }
        if parts.len() >= 3 {
            proof {
                assert(taken_preferred(fs, w + 1) == taken_preferred(fs, w as int));
            }
            w += 1;
            continue;
        }
        let name = chars_of(wanted[w]);
        assert(name@ == preferred(w as int));
        proof {
            lemma_named_from(fs, preferred(w as int), 0);
        }
        match position_named(&fields, name.as_slice()) {
            Some(at) => {
                let mut part = chars_of(wanted[w]);
                extend_chars(&mut part, eq.as_slice());
                let v = chars_of(fields[at].1.as_str());
                extend_chars(&mut part, v.as_slice());
                assert(fs[at as int] == (fields@[at as int].0@, fields@[at as int].1@));
                assert(named_from(fs, name@, 0) == Some(at as int));
                assert(fs[at as int].0 == preferred(w as int));
                assert(part@ =~= part_of(fs[at as int]));
                let ghost parts_before = parts@;
                let ghost taken_before = taken@;
                taken.push(at);
                parts.push(part);
                assert(taken_preferred(fs, w + 1) == taken_preferred(fs, w as int).push(at as int));
                assert(taken@.map_values(|i: usize| i as int) =~= taken_preferred(fs, w as int).push(at as int));
                assert forall|j: int| 0 <= j < parts@.len() implies #[trigger] parts@[j]@ == part_of(
                    fs[taken@[j] as int],
                ) by {
                    if j < parts_before.len() {
                        assert(parts@[j] == parts_before[j]);
                        assert(taken@[j] == taken_before[j]);
                    }
                }
            },
            None => {
                assert(taken_preferred(fs, w + 1) == taken_preferred(fs, w as int));
            },
        }
        w += 1;
    }
    let mut k: usize = 0;
    assert(taken_rest(fs, 0) == taken_preferred(fs, 4));
    while k < fields.len()
        invariant
            k <= fields@.len(),
            fs == fields_view(fields@),
            eq@ == " = "@,
            taken@.map_values(|i: usize| i as int) == taken_rest(fs, k as int),
            parts@.len() == taken@.len(),
            forall|j: int| 0 <= j < parts@.len() ==> #[trigger] parts@[j]@ == part_of(fs[taken@[j] as int]),
        decreases fields.len() - k,
    {
        if parts.len() >= 3 || contains_index(&taken, k) {
            k += 1;
            continue;
        }
        let mut part = chars_of(fields[k].0.as_str());
        extend_chars(&mut part, eq.as_slice());
        let v = chars_of(fields[k].1.as_str());
        extend_chars(&mut part, v.as_slice());
        taken.push(k);
        parts.push(part);
        assert(taken@.map_values(|i: usize| i as int) =~= taken_rest(fs, k as int).push(k as int));
        k += 1;
    }
    let sep = lit(" \u{00b7} ");
    let line = join_chars(&parts, sep.as_slice());
    proof {
        let picks = summary_picks(fs);
        assert(picks == taken_rest(fs, fs.len() as int));
        assert(parts@.map_values(|p: Vec<char>| p@) =~= Seq::new(picks.len(), |i: int| part_of(fs[picks[i]])));
    }
    string_of(line.as_slice())
}

} // verus!

verus! {

// ---------------------------------------------------------------------------
// The log
// ---------------------------------------------------------------------------

/// How many events the log retains by default: roughly 25 seconds at the
/// 200 events per second the view is built to survive.
pub const LOG_CAP: usize = 5000;

/// The retained event log: a capped ring, newest first.
///
/// Every row gets a sequence number that stays unique for the life of the log,
/// so a selection keyed on it cannot silently open a different event after the
/// ring has moved. Eviction is counted, never silent.
pub struct EventLog<R> {
    rows: VecDeque<(u64, R)>,
    cap: usize,
    /// Every event pushed since the last clear, including the evicted ones.
    received: u64,
    /// Rows the cap has dropped since the last clear.
    dropped: u64,
    next_seq: u64,
}

impl<R> EventLog<R> {
    /// Rows held, newest first, each with its sequence number.
    pub closed spec fn rows_spec(&self) -> Seq<(u64, R)> {
        self.rows@
    }

    pub closed spec fn cap_spec(&self) -> usize {
        self.cap
    }

    pub closed spec fn received_spec(&self) -> u64 {
        self.received
    }

    pub closed spec fn dropped_spec(&self) -> u64 {
        self.dropped
    }

    pub closed spec fn next_seq_spec(&self) -> u64 {
        self.next_seq
    }

    /// What the log keeps true: newer rows carry larger sequence numbers than
    /// older ones, every number is below the next one to be handed out, and
    /// with a non-zero cap the ring never exceeds it and accounts for every
    /// event it was given.
    pub closed spec fn wf(&self) -> bool {
        &&& self.received <= self.next_seq
        &&& self.dropped <= self.received
        &&& forall|i: int, j: int| 0 <= i < j < self.rows@.len() ==> self.rows@[i].0 > self.rows@[j].0
        &&& forall|i: int| 0 <= i < self.rows@.len() ==> self.rows@[i].0 < self.next_seq
        &&& self.rows@.len() <= self.received
        &&& self.cap > 0 ==> self.rows@.len() <= self.cap && self.received == self.dropped + self.rows@.len()
    }

    /// An empty log holding at most `cap` rows.
    pub fn with_cap(cap: usize) -> (log: Self)
        ensures
            log.wf(),
            log.rows_spec() == Seq::<(u64, R)>::empty(),
            log.cap_spec() == cap,
            log.received_spec() == 0,
            log.dropped_spec() == 0,
            log.next_seq_spec() == 0,
    {
        EventLog { rows: VecDeque::new(), cap, received: 0, dropped: 0, next_seq: 0 }
    }

    /// An empty log at the default cap. (A zero cap would discard every event
    /// as it arrived, which looks exactly like a subscription that is not
    /// delivering.)
    pub fn new() -> (log: Self)
        ensures
            log.wf(),
            log.rows_spec() == Seq::<(u64, R)>::empty(),
            log.cap_spec() == LOG_CAP,
            log.received_spec() == 0,
            log.dropped_spec() == 0,
            log.next_seq_spec() == 0,
    {
        Self::with_cap(LOG_CAP)
    }

    /// Add the newest row, evicting the oldest when the ring is full. Returns
    /// the row's sequence number.
    pub fn push(&mut self, row: R) -> (seq: u64)
        requires
            old(self).wf(),
            old(self).next_seq_spec() < u64::MAX,
        ensures
            final(self).wf(),
            seq == old(self).next_seq_spec(),
            final(self).rows_spec() == seq![(seq, row)] + (if old(self).rows_spec().len() == old(self).cap_spec()
                && old(self).cap_spec() > 0 {
                old(self).rows_spec().drop_last()
            } else {
                old(self).rows_spec()
            }),
            final(self).cap_spec() == old(self).cap_spec(),
            final(self).received_spec() == old(self).received_spec() + 1,
            final(self).dropped_spec() == old(self).dropped_spec() + (if old(self).rows_spec().len()
                == old(self).cap_spec() {
                1int
            } else {
                0int
            }),
            final(self).next_seq_spec() == old(self).next_seq_spec() + 1,
    {
        let seq = self.next_seq;
        self.next_seq = self.next_seq + 1;
        if self.rows.len() == self.cap {
            self.rows.pop_back();
            self.dropped = self.dropped + 1;
        }
        self.rows.push_front((seq, row));
        self.received = self.received + 1;
        proof {
            let r = self.rows@;
            assert forall|i: int, j: int| 0 <= i < j < r.len() implies r[i].0 > r[j].0 by {
                if i > 0 {
                    assert(r[i] == old(self).rows@[i - 1]);
                    assert(r[j] == old(self).rows@[j - 1]);
                } else {
                    assert(r[j] == old(self).rows@[j - 1]);
                }
            }
            assert forall|i: int| 0 <= i < r.len() implies r[i].0 < self.next_seq by {
                if i > 0 {
                    assert(r[i] == old(self).rows@[i - 1]);
                }
            }
        }
        seq
    }

    /// Rows held.
    pub fn len(&self) -> (n: usize)
        ensures
            n == self.rows_spec().len(),
    {
        self.rows.len()
    }

    pub fn is_empty(&self) -> (b: bool)
        ensures
            b == (self.rows_spec().len() == 0),
    {
        self.rows.len() == 0
    }

    /// Events pushed since the last clear, including the evicted ones.
    pub fn received(&self) -> (n: u64)
        ensures
            n == self.received_spec(),
    {
        self.received
    }

    /// The sequence number the next row will get.
    pub fn next_seq(&self) -> (n: u64)
        ensures
            n == self.next_seq_spec(),
    {
        self.next_seq
    }

    /// Rows the cap has dropped since the last clear.
    pub fn dropped(&self) -> (n: u64)
        ensures
            n == self.dropped_spec(),
    {
        self.dropped
    }

    pub fn cap(&self) -> (n: usize)
        ensures
            n == self.cap_spec(),
    {
        self.cap
    }

    /// The `i`-th row held, newest first, with its sequence number.
    pub fn get(&self, i: usize) -> (r: (u64, &R))
        requires
            i < self.rows_spec().len(),
        ensures
            r.0 == self.rows_spec()[i as int].0,
            *r.1 == self.rows_spec()[i as int].1,
    {
        let entry = &self.rows[i];
        (entry.0, &entry.1)
    }

    /// The row with sequence number `seq`, if the log still holds it.
    pub fn find(&self, seq: u64) -> (r: Option<&R>)
        requires
            self.wf(),
        ensures
            match r {
                Some(row) => exists|i: int| 0 <= i < self.rows_spec().len()
                    && self.rows_spec()[i].0 == seq && self.rows_spec()[i].1 == *row,
                None => forall|i: int| 0 <= i < self.rows_spec().len() ==> self.rows_spec()[i].0 != seq,
            },
    {
        let mut i: usize = 0;
        while i < self.rows.len()
            invariant
                i <= self.rows@.len(),
                forall|k: int| 0 <= k < i ==> self.rows@[k].0 != seq,
            decreases self.rows.len() - i,
        {
            if self.rows[i].0 == seq {
                let entry = &self.rows[i];
                assert(self.rows_spec()[i as int] == *entry);
                return Some(&entry.1);
            }
            i += 1;
        }
        None
    }

    /// Forget every row and reset the counters. Sequence numbers keep
    /// counting, so nothing cleared can be mistaken for something new.
    pub fn clear(&mut self)
        requires
            old(self).wf(),
        ensures
            final(self).wf(),
            final(self).rows_spec() == Seq::<(u64, R)>::empty(),
            final(self).received_spec() == 0,
            final(self).dropped_spec() == 0,
            final(self).cap_spec() == old(self).cap_spec(),
            final(self).next_seq_spec() == old(self).next_seq_spec(),
    {
        self.rows.clear();
        self.received = 0;
        self.dropped = 0;
    }
}

/// A row's sequence number resolves to at most one held row, so a selection
/// made before eviction can never open a different event afterwards.
pub proof fn lemma_seq_identifies_one_row<R>(log: EventLog<R>, i: int, j: int)
    requires
        log.wf(),
        0 <= i < log.rows_spec().len(),
        0 <= j < log.rows_spec().len(),
        log.rows_spec()[i].0 == log.rows_spec()[j].0,
    ensures
        i == j,
{
}

/// A pushed row's number is one no row held before the push carried.
pub proof fn lemma_fresh_seq<R>(log: EventLog<R>, i: int)
    requires
        log.wf(),
        0 <= i < log.rows_spec().len(),
    ensures
        log.rows_spec()[i].0 != log.next_seq_spec(),
{
}

// ---------------------------------------------------------------------------
// Time
// ---------------------------------------------------------------------------

/// Milliseconds since the Unix epoch on the wall clock, or 0 on a clock that
/// predates it.
#[verifier::external_body]
pub fn unix_millis() -> u64 {
    std::time::SystemTime::now().duration_since(std::time::UNIX_EPOCH).map_or(0, |d| d.as_millis() as u64)
}

/// `HH:MM:SS` UTC of a millisecond stamp.
pub open spec fn utc_clock_spec(ms: nat) -> Seq<char> {
    let secs = ms / 1000;
    pad2((secs / 3600) % 24) + ":"@ + pad2((secs / 60) % 60) + ":"@ + pad2(secs % 60)
}

/// `HH:MM:SS` UTC -- wraps by day rather than counting hours since 1970.
pub fn utc_clock(unix_ms: u64) -> (r: String)
    ensures
        r@ == utc_clock_spec(unix_ms as nat),
{
    let secs = unix_ms / 1000;
    let colon = lit(":");
    let mut out: Vec<char> = Vec::new();
    push_pad2(&mut out, (secs / 3600) % 24);
    extend_chars(&mut out, colon.as_slice());
    push_pad2(&mut out, (secs / 60) % 60);
    extend_chars(&mut out, colon.as_slice());
    push_pad2(&mut out, secs % 60);
    string_of(out.as_slice())
}

/// `HH:MM:SS.mmm` UTC -- the stream's stamp.
pub fn utc_stamp(unix_ms: u64) -> (r: String)
    ensures
        r@ == utc_clock_spec(unix_ms as nat) + "."@ + pad3(unix_ms as nat % 1000),
{
    let clock = utc_clock(unix_ms);
    let mut out = chars_of(clock.as_str());
    let dot = lit(".");
    extend_chars(&mut out, dot.as_slice());
    push_pad3(&mut out, unix_ms % 1000);
    string_of(out.as_slice())
}

/// What the stream says when it has nothing to show, which is a different
/// sentence depending on why.
pub fn empty_note(running: bool, started: bool, held: usize) -> (r: &'static str)
    ensures
        r@ == (if held > 0 {
            "No event held matches this filter."@
        } else if running {
            "Subscribed. Nothing has matched yet."@
        } else if started {
            "Stopped. The log was cleared."@
        } else {
            "Not started \u{2014} check the query and press Start."@
        }),
{
    if held > 0 {
        "No event held matches this filter."
    } else if running {
        "Subscribed. Nothing has matched yet."
    } else if started {
        "Stopped. The log was cleared."
    } else {
        "Not started \u{2014} check the query and press Start."
    }
}

} // verus!

verus! {

// ---------------------------------------------------------------------------
// The subscription's bookkeeping
// ---------------------------------------------------------------------------

impl EventRow {
    /// Does this row mention `needle` (already lower-cased) in its class,
    /// its summary, its kind, or any property name or value?
    pub open spec fn matches_spec(&self, needle: Seq<char>) -> bool {
        ||| has_sub(lowercase(self.class@), needle)
        ||| has_sub(lowercase(self.summary@), needle)
        ||| has_sub(lowercase(self.kind.label_spec()), needle)
        ||| exists|i: int|
            0 <= i < self.pairs@.len() && (has_sub(lowercase(#[trigger] self.pairs@[i].0@), needle) || has_sub(
                lowercase(self.pairs@[i].1@),
                needle,
            ))
    }

    pub fn matches(&self, needle: &str) -> (b: bool)
        ensures
            b == self.matches_spec(needle@),
    {
        let n = chars_of(needle);
        let ns = n.as_slice();
        let label = self.kind.label();
        if lower_contains(self.class.as_str(), ns) || lower_contains(self.summary.as_str(), ns)
            || lower_contains(label, ns) {
            return true;
        }
        assert(!has_sub(lowercase(self.kind.label_spec()), needle@));
        let mut i: usize = 0;
        while i < self.pairs.len()
            invariant
                i <= self.pairs@.len(),
                n@ == needle@,
                ns@ == needle@,
                forall|j: int|
                    0 <= j < i ==> !(has_sub(lowercase(#[trigger] self.pairs@[j].0@), needle@) || has_sub(
                        lowercase(self.pairs@[j].1@),
                        needle@,
                    )),
            decreases self.pairs.len() - i,
        {
            let k = &self.pairs[i].0;
            let v = &self.pairs[i].1;
            if lower_contains(k.as_str(), ns) || lower_contains(v.as_str(), ns) {
                assert(self.pairs@[i as int].0@ == k@);
                return true;
            }
            assert forall|j: int| 0 <= j < i + 1 implies !(has_sub(
                lowercase(#[trigger] self.pairs@[j].0@),
                needle@,
            ) || has_sub(lowercase(self.pairs@[j].1@), needle@)) by {
                if j == i {
                    assert(self.pairs@[j].0@ == k@);
                    assert(self.pairs@[j].1@ == v@);
                }
            }
            i += 1;
        }
        false
    }
}

/// The event class a query subscribes to, or nothing.
pub open spec fn class_or_empty(wql: Seq<char>) -> Seq<char> {
    match event_class_spec(wql) {
        Some(c) => c,
        None => Seq::empty(),
    }
}

/// The text in the box no longer describes the running subscription: its
/// event class, subject or interval differ from the ones resolved at Start.
pub open spec fn drifted_spec(app: VmiScopeApp) -> bool {
    app.monitor_running && (class_or_empty(app.monitor_wql@) != app.events.event_class@
        || subject_spec(app.monitor_wql@) != app.events.subject@ || within_spec(app.monitor_wql@)
        != app.events.started_within)
}

/// "N events since HH:MM:SS UTC", or whatever is true instead.
pub open spec fn stream_note_spec(app: VmiScopeApp) -> Seq<char> {
    if app.events.started {
        dec(app.events_log.received_spec() as nat) + " events since "@ + utc_clock_spec(
            app.events.started_unix_ms as nat,
        ) + " UTC"@
    } else {
        "not started"@
    }
}

impl VmiScopeApp {
    /// Tear the subscription down, with the error that belonged to it and the
    /// deliveries still queued for it.
    pub fn stop_monitor(&mut self)
        ensures
            *final(self) == (VmiScopeApp {
                monitor_running: false,
                monitor_error: None,
                events: EventsState { queued: 0, ..old(self).events },
                ..*old(self)
            }),
    {
        self.monitor_running = false;
        self.monitor_error = None;
        self.events.queued = 0;
    }

    /// Does the text in the box still describe the subscription that is
    /// running? It compares what was resolved at Start with the same three
    /// read out of the box now, so a reformatted line break is no drift.
    pub fn subscription_drifted(&self) -> (b: bool)
        ensures
            b == drifted_spec(*self),
    {
        if !self.monitor_running {
            return false;
        }
        let w = self.monitor_wql.as_str();
        let class = match event_class_of(w) {
            Some(c) => c,
            None => "",
        };
        proof {
            reveal_strlit("");
            assert(class@ == class_or_empty(w@));
        }
        !str_eq(class, self.events.event_class.as_str()) || !str_eq(
            subject_of(w).as_str(),
            self.events.subject.as_str(),
        ) || within_of(w) != self.events.started_within
    }

    pub fn stream_note(&self) -> (r: String)
        ensures
            r@ == stream_note_spec(*self),
    {
        if !self.events.started {
            return "not started".to_owned();
        }
        let mut out = decimal(self.events_log.received());
        extend_chars(&mut out, lit(" events since ").as_slice());
        let clock = utc_clock(self.events.started_unix_ms);
        extend_chars(&mut out, chars_of(clock.as_str()).as_slice());
        extend_chars(&mut out, lit(" UTC").as_slice());
        string_of(out.as_slice())
    }
}

} // verus!

verus! {

// ---------------------------------------------------------------------------
// Starting and feeding the subscription
// ---------------------------------------------------------------------------

/// What Start leaves behind: the subscription up, its error and queue
/// cleared, and the event class, subject and interval resolved from the
/// query as it stands; nothing else touched.
pub open spec fn monitor_started(before: VmiScopeApp, after: VmiScopeApp) -> bool {
    &&& after.monitor_running
    &&& after.monitor_error is None
    &&& after.events.started
    &&& after.events.queued == 0
    &&& after.events.queued_peak == 0
    &&& after.events.event_class@ == class_or_empty(before.monitor_wql@)
    &&& after.events.subject@ == subject_spec(before.monitor_wql@)
    &&& after.events.started_within == within_spec(before.monitor_wql@)
    &&& after.events.filter == before.events.filter
    &&& after == (VmiScopeApp {
        monitor_running: true,
        monitor_error: None,
        events: after.events,
        ..before
    })
}

/// Right after Start, the text in the box describes the running
/// subscription: there is nothing to apply.
pub proof fn lemma_a_fresh_subscription_has_not_drifted(before: VmiScopeApp, after: VmiScopeApp)
    requires
        monitor_started(before, after),
    ensures
        !drifted_spec(after),
{
}

/// Re-spacing the query in the box after Start -- moving spaces or line
/// breaks between its tokens, which leaves every token as it was -- is no
/// drift.
pub proof fn lemma_respacing_is_no_drift(before: VmiScopeApp, after: VmiScopeApp, now: VmiScopeApp)
    requires
        monitor_started(before, after),
        now == (VmiScopeApp { monitor_wql: now.monitor_wql, ..after }),
        crate::wql::same_tokens(before.monitor_wql@, now.monitor_wql@),
    ensures
        !drifted_spec(now),
{
    crate::wql::lemma_same_tokens_read_the_same(before.monitor_wql@, now.monitor_wql@);
}

/// Re-spacing the query in the box after Start -- whitespace put in between
/// its tokens or taken out, line breaks included, any number of times,
/// outside its literals and never inside a word -- is no drift.
pub proof fn lemma_respaced_query_is_no_drift(
    before: VmiScopeApp,
    after: VmiScopeApp,
    now: VmiScopeApp,
    texts: Seq<Seq<char>>,
)
    requires
        monitor_started(before, after),
        now == (VmiScopeApp { monitor_wql: now.monitor_wql, ..after }),
        crate::wql::respacing(texts),
        texts[0] == before.monitor_wql@,
        texts[texts.len() - 1] == now.monitor_wql@,
    ensures
        !drifted_spec(now),
{
    crate::wql::lemma_respacing_keeps_tokens(texts);
    lemma_respacing_is_no_drift(before, after, now);
}

/// A row for one delivered event: its kind read off the subscription class,
/// its class the subject resolved at Start, and its one-line summary.
pub open spec fn row_for(app: VmiScopeApp, pairs: Seq<(String, String)>, row: EventRow, unix_ms: u64) -> bool {
    &&& row.kind == kind_spec(app.events.event_class@, pairs)
    &&& row.class@ == app.events.subject@
    &&& row.event_class@ == app.events.event_class@
    &&& row.summary@ == summarize_spec(pairs_view(pairs))
    &&& row.pairs@ == pairs
    &&& row.unix_ms == unix_ms
}

/// The properties of each event among the messages, in delivery order.
pub open spec fn event_pairs(msgs: Seq<MonitorMsg>) -> Seq<Seq<(String, String)>>
    decreases msgs.len(),
{
    if msgs.len() == 0 {
        Seq::empty()
    } else {
        match msgs.last() {
            MonitorMsg::Event(p) => event_pairs(msgs.drop_last()).push(p@),
            MonitorMsg::Error(_) => event_pairs(msgs.drop_last()),
        }
    }
}

/// The last error among the messages, if any.
pub open spec fn last_error(msgs: Seq<MonitorMsg>) -> Option<Seq<char>>
    decreases msgs.len(),
{
    if msgs.len() == 0 {
        None
    } else {
        match msgs.last() {
            MonitorMsg::Error(e) => Some(e@),
            MonitorMsg::Event(_) => last_error(msgs.drop_last()),
        }
    }
}

proof fn lemma_event_pairs_grow(msgs: Seq<MonitorMsg>)
    ensures
        event_pairs(msgs).len() <= msgs.len(),
    decreases msgs.len(),
{
    if msgs.len() > 0 {
        lemma_event_pairs_grow(msgs.drop_last());
    }
}

impl VmiScopeApp {
    /// Start the subscription for the query in the box: the caller opens it
    /// once this has resolved what it is for.
    pub fn start_monitor(&mut self)
        ensures
            monitor_started(*old(self), *final(self)),
    {
        let w = self.monitor_wql.as_str();
        let class = match event_class_of(w) {
            Some(c) => c.to_owned(),
            None => String::new(),
        };
        let subject = subject_of(w);
        let within = within_of(w);
        let at = unix_millis();
        self.monitor_error = None;
        self.events.queued = 0;
        self.events.queued_peak = 0;
        self.events.started = true;
        self.events.started_unix_ms = at;
        self.events.event_class = class;
        self.events.subject = subject;
        self.events.started_within = within;
        self.monitor_running = true;
    }

    /// Fold what the subscription delivered since the last frame into the
    /// log: each event becomes a row, in delivery order, each error replaces
    /// the one on show, and the channel's depth is recorded. With no
    /// subscription up there is nothing queued.
    pub fn drain_events(&mut self, messages: Vec<MonitorMsg>)
        requires
            old(self).events_log.wf(),
            old(self).events_log.next_seq_spec() + messages@.len() < u64::MAX,
        ensures
            final(self).events_log.wf(),
            !old(self).monitor_running ==> *final(self) == (VmiScopeApp {
                events: EventsState { queued: 0, ..old(self).events },
                ..*old(self)
            }),
            old(self).monitor_running ==> drained(*old(self), *final(self), messages@),
    {
        if !self.monitor_running {
            self.events.queued = 0;
            return;
        }
        let n = messages.len();
        self.events.queued = n;
        if n > self.events.queued_peak {
            self.events.queued_peak = n;
        }
        let unix_ms = if n > 0 { unix_millis() } else { 0 };
        let ghost start = *self;
        let ghost msgs = messages@;
        // Take the messages off the back, then off the back again: the second
        // pass sees them in delivery order and owns each one.
        let mut pending = messages;
        let mut stack: Vec<MonitorMsg> = Vec::new();
        while pending.len() > 0
            invariant
                pending@.len() + stack@.len() == msgs.len(),
                forall|j: int| 0 <= j < pending@.len() ==> pending@[j] == msgs[j],
                forall|j: int| 0 <= j < stack@.len() ==> stack@[j] == msgs[msgs.len() - 1 - j],
            decreases pending.len(),
        {
            let ghost before = pending@;
            let m = pending.pop().unwrap();
            assert(m == before.last());
            stack.push(m);
        }
        let mut k: usize = 0;
        assert(msgs.take(0) =~= Seq::<MonitorMsg>::empty());
        while stack.len() > 0
            invariant
                k + stack@.len() == msgs.len(),
                msgs.len() == n,
                forall|j: int| 0 <= j < stack@.len() ==> stack@[j] == msgs[msgs.len() - 1 - j],
                start.monitor_running,
                start.events_log.wf(),
                start.events_log.next_seq_spec() + msgs.len() < u64::MAX,
                drained_upto(start, *self, msgs.take(k as int), unix_ms),
            decreases stack.len(),
        {
            let ghost before = *self;
            let ghost stack_before = stack@;
            let m = stack.pop().unwrap();
            assert(stack@.len() + 1 == stack_before.len());
            assert(k < msgs.len());
            assert(m == msgs[k as int]);
            let ghost next = msgs.take(k + 1);
            assert(next.drop_last() =~= msgs.take(k as int));
            assert(next.last() == m);
            proof {
                lemma_event_pairs_grow(msgs.take(k as int));
            }
            match m {
                MonitorMsg::Event(pairs) => {
                    let row = EventRow {
                        kind: kind_of(self.events.event_class.as_str(), pairs.as_slice()),
                        class: self.events.subject.clone(),
                        event_class: self.events.event_class.clone(),
                        summary: summarize(pairs.as_slice()),
                        pairs,
                        unix_ms,
                    };
                    let ghost p = row.pairs@;
                    let seq = self.events_log.push(row);
                    proof {
                        let ep = event_pairs(next);
                        assert(ep == event_pairs(msgs.take(k as int)).push(p));
                        let rows = self.events_log.rows_spec();
                        let prev = before.events_log.rows_spec();
                        let pp = event_pairs(msgs.take(k as int));
                        let m = ep.len();
                        assert(prev.len() <= before.events_log.cap_spec() || before.events_log.cap_spec() == 0);
                        assert forall|j: int|
                            0 <= j < m && j < rows.len() implies (#[trigger] rows[j]).0 == start.events_log.next_seq_spec() + m - 1 - j
                                && row_for(start, ep[m - 1 - j], rows[j].1, unix_ms) by {
                            if j > 0 {
                                assert(rows[j] == prev[j - 1]);
                                assert(ep[m - 1 - j] == pp[pp.len() - 1 - (j - 1)]);
                            }
                        }
                        assert forall|j: int| m <= j < rows.len() implies #[trigger] rows[j]
                            == start.events_log.rows_spec()[j - m] by {
                            assert(rows[j] == prev[j - 1]);
                        }
                    }
                },
                MonitorMsg::Error(e) => {
                    self.monitor_error = Some(e);
                },
            }
            k += 1;
        }
        assert(msgs.take(msgs.len() as int) =~= msgs);
        proof {
            assert(start == drain_start(*old(self), msgs));
            assert(drained_upto(drain_start(*old(self), msgs), *self, msgs, unix_ms));
        }
    }
}

/// The log's rows after the rows for `pairs` were pushed in order onto the
/// rows of `start`: the newest first, one per event, the last event's row on
/// top and numbered `next_seq + n - 1` down; below them the rows the log held
/// before, in their order, as many as the cap leaves room for.
pub open spec fn drained_rows(
    start: VmiScopeApp,
    rows: Seq<(u64, EventRow)>,
    pairs: Seq<Seq<(String, String)>>,
    unix_ms: u64,
) -> bool {
    let old_rows = start.events_log.rows_spec();
    let cap = start.events_log.cap_spec();
    let n = pairs.len();
    let first = start.events_log.next_seq_spec();
    &&& rows.len() == if cap > 0 && old_rows.len() + n > cap { cap as int } else { old_rows.len() + n as int }
    &&& forall|j: int|
        0 <= j < n && j < rows.len() ==> (#[trigger] rows[j]).0 == first + n - 1 - j && row_for(
            start,
            pairs[n - 1 - j],
            rows[j].1,
            unix_ms,
        )
    &&& forall|j: int| n <= j < rows.len() ==> #[trigger] rows[j] == old_rows[j - n]
}

/// The application after draining `msgs` in order, stamped `unix_ms`.
pub open spec fn drained_upto(start: VmiScopeApp, now: VmiScopeApp, msgs: Seq<MonitorMsg>, unix_ms: u64) -> bool {
    let ep = event_pairs(msgs);
    &&& now.events_log.wf()
    &&& now.events_log.next_seq_spec() == start.events_log.next_seq_spec() + ep.len()
    &&& now.events_log.received_spec() == start.events_log.received_spec() + ep.len()
    &&& now.events_log.cap_spec() == start.events_log.cap_spec()
    &&& drained_rows(start, now.events_log.rows_spec(), ep, unix_ms)
    &&& match last_error(msgs) {
        Some(e) => now.monitor_error matches Some(m) && m@ == e,
        None => now.monitor_error == start.monitor_error,
    }
    &&& now == (VmiScopeApp { events_log: now.events_log, monitor_error: now.monitor_error, ..start })
}

/// What a drain with the subscription up leaves behind: the depth of the
/// channel recorded, one row per event in delivery order -- its kind, class,
/// summary and properties read off the event -- every older row untouched,
/// the last error on show, and nothing else changed.
pub open spec fn drained(before: VmiScopeApp, after: VmiScopeApp, msgs: Seq<MonitorMsg>) -> bool {
    exists|unix_ms: u64| #[trigger] drained_upto(drain_start(before, msgs), after, msgs, unix_ms)
}

/// The application as a drain finds it, once the channel's depth is noted.
pub open spec fn drain_start(before: VmiScopeApp, msgs: Seq<MonitorMsg>) -> VmiScopeApp {
    let peak = if before.events.queued_peak >= msgs.len() { before.events.queued_peak } else { msgs.len() as usize };
    VmiScopeApp {
        events: EventsState { queued: msgs.len() as usize, queued_peak: peak, ..before.events },
        ..before
    }
}

} // verus!
