//! The Compare view's logic: one query, two targets, one keyed row diff.
//!
//! Three decisions carry the alignment, and each is a way the view could
//! silently lie if got wrong: the key the rows are matched on, the columns the
//! diff disregards, and whether a side that stopped early may take part.

use vstd::prelude::*;
use crate::app::VmiScopeApp;
use crate::machines::CredRef;
use crate::text::{
    chars_eq, chars_of, dec, decimal, contains, ends, ends_with, extend_chars, has_sub, join, join_chars, lines,
    lines_of, lit, lower_chars, lower_seq, starts, starts_with, string_of, str_eq,
};

verus! {

// ---------------------------------------------------------------------------
// The four states a row can be in
// ---------------------------------------------------------------------------

/// What happened to one row between A and B.
#[derive(Clone, Copy, PartialEq, Eq, Debug, Structural)]
pub enum Sign {
    /// On both sides, and equal once the ignored columns are set aside.
    Same,
    /// On both sides, and something outside the ignore list moved.
    Changed,
    /// On A only -- gone on B.
    OnlyA,
    /// On B only -- new on B.
    OnlyB,
}

impl Sign {
    /// The mark in the sign column.
    pub fn mark(self) -> (r: &'static str)
        ensures
            r@ == (match self {
                Sign::Same => "="@,
                Sign::Changed => "!="@,
                Sign::OnlyA => "-"@,
                Sign::OnlyB => "+"@,
            }),
    {
        match self {
            Sign::Same => "=",
            Sign::Changed => "!=",
            Sign::OnlyA => "-",
            Sign::OnlyB => "+",
        }
    }

    pub fn label(self) -> (r: &'static str)
        ensures
            r@ == (match self {
                Sign::Same => "Identical"@,
                Sign::Changed => "Changed"@,
                Sign::OnlyA => "Only on A"@,
                Sign::OnlyB => "Only on B"@,
            }),
    {
        match self {
            Sign::Same => "Identical",
            Sign::Changed => "Changed",
            Sign::OnlyA => "Only on A",
            Sign::OnlyB => "Only on B",
        }
    }

    pub open spec fn rank_spec(self) -> usize {
        match self {
            Sign::Same => 0,
            Sign::Changed => 1,
            Sign::OnlyA => 2,
            Sign::OnlyB => 3,
        }
    }

    /// Position in the legend, and the sort rank of the sign column.
    pub fn rank(self) -> (r: usize)
        ensures
            r == self.rank_spec(),
    {
        match self {
            Sign::Same => 0,
            Sign::Changed => 1,
            Sign::OnlyA => 2,
            Sign::OnlyB => 3,
        }
    }
}

/// Each sign has its own legend slot, so the four counts never mix.
pub proof fn lemma_rank_distinct(a: Sign, b: Sign)
    ensures
        a.rank_spec() < 4,
        a != b ==> a.rank_spec() != b.rank_spec(),
{
}

/// Which side a helper is acting on.
#[derive(Clone, Copy, PartialEq, Eq, Debug, Structural)]
pub enum Which {
    A,
    B,
}

impl Which {
    pub open spec fn label_spec(self) -> Seq<char> {
        match self {
            Which::A => "A"@,
            Which::B => "B"@,
        }
    }

    pub fn label(self) -> (r: &'static str)
        ensures
            r@ == self.label_spec(),
    {
        match self {
            Which::A => "A",
            Which::B => "B",
        }
    }
}

/// Where the key columns came from. Shown on screen: an alignment nobody can
/// see is an alignment nobody can check.
#[derive(Clone, Copy, PartialEq, Eq, Debug, Structural)]
pub enum KeySource {
    /// The user picked the columns.
    Manual,
    /// The class's own `key` properties, as the schema declares them.
    ClassKey,
    /// `__RELPATH`, the object's relative path, stable across hosts.
    RelPath,
    /// Nothing usable was declared, so identity is the whole row.
    WholeRow,
}

impl KeySource {
    pub fn note(self) -> (r: &'static str)
        ensures
            r@ == (match self {
                KeySource::Manual => "manual"@,
                KeySource::ClassKey => "class key"@,
                KeySource::RelPath => "__RELPATH"@,
                KeySource::WholeRow => "whole row"@,
            }),
    {
        match self {
            KeySource::Manual => "manual",
            KeySource::ClassKey => "class key",
            KeySource::RelPath => "__RELPATH",
            KeySource::WholeRow => "whole row",
        }
    }
}

// ---------------------------------------------------------------------------
// Results
// ---------------------------------------------------------------------------

/// What one side's query returned: the columns, the rows in those columns'
/// order, the class's declared key columns, and -- when the read stopped
/// early -- why.
#[derive(Clone, Debug, Default)]
pub struct QueryResult {
    pub columns: Vec<String>,
    pub rows: Vec<Vec<String>>,
    pub key_columns: Vec<String>,
    /// `None` for a whole read; otherwise what cut it short.
    pub partial: Option<String>,
}

/// A list of strings as character sequences.
pub open spec fn strs(v: Seq<String>) -> Seq<Seq<char>> {
    v.map_values(|s: String| s@)
}

/// `c` is one of `cols`.
pub open spec fn listed(cols: Seq<Seq<char>>, c: Seq<char>) -> bool {
    cols.contains(c)
}

pub fn is_listed(cols: &Vec<String>, c: &str) -> (r: bool)
    ensures
        r == listed(strs(cols@), c@),
{
    let mut i: usize = 0;
    while i < cols.len()
        invariant
            i <= cols@.len(),
            forall|j: int| 0 <= j < i ==> #[trigger] cols@[j]@ != c@,
        decreases cols.len() - i,
    {
        if str_eq(cols[i].as_str(), c) {
            assert(strs(cols@)[i as int] == c@);
            return true;
        }
        i += 1;
    }
    assert forall|j: int| 0 <= j < strs(cols@).len() implies #[trigger] strs(cols@)[j] != c@ by {
        assert(strs(cols@)[j] == cols@[j]@);
    }
    false
}

/// The members of `items` for which `keep` holds, in order.
pub open spec fn keep_where(items: Seq<Seq<char>>, keep: spec_fn(Seq<char>) -> bool) -> Seq<Seq<char>>
    decreases items.len(),
{
    if items.len() == 0 {
        Seq::empty()
    } else {
        let rest = keep_where(items.drop_last(), keep);
        if keep(items.last()) {
            rest.push(items.last())
        } else {
            rest
        }
    }
}

pub proof fn lemma_keep_where_step(items: Seq<Seq<char>>, keep: spec_fn(Seq<char>) -> bool, k: int)
    requires
        0 <= k < items.len(),
    ensures
        keep_where(items.take(k + 1), keep) == (if keep(items[k]) {
            keep_where(items.take(k), keep).push(items[k])
        } else {
            keep_where(items.take(k), keep)
        }),
{
    assert(items.take(k + 1).drop_last() =~= items.take(k));
}

// ---------------------------------------------------------------------------
// Keys
// ---------------------------------------------------------------------------

/// The key the class declares: A's, or B's when A declares none.
pub open spec fn declared_keys(a: QueryResult, b: QueryResult) -> Seq<Seq<char>> {
    if a.key_columns@.len() > 0 {
        strs(a.key_columns@)
    } else {
        strs(b.key_columns@)
    }
}

/// Returned by both sides.
pub open spec fn on_both(a: QueryResult, b: QueryResult) -> spec_fn(Seq<char>) -> bool {
    |c: Seq<char>| listed(strs(a.columns@), c) && listed(strs(b.columns@), c)
}

pub open spec fn not_on_both(a: QueryResult, b: QueryResult) -> spec_fn(Seq<char>) -> bool {
    |c: Seq<char>| !(listed(strs(a.columns@), c) && listed(strs(b.columns@), c))
}

/// The notes `resolve_keys` attaches when it could not use the class key.
pub open spec fn relpath_note(dropped: Seq<char>) -> Seq<char> {
    "the class key ("@ + dropped + ") was not returned by this query, so rows are keyed on __RELPATH"@
}

pub open spec fn whole_row_note(dropped: Seq<char>) -> Seq<char> {
    if dropped.len() == 0 {
        "this query has no declared key and no __RELPATH, so identity is the whole row \u{2014} any moving column reports as a removal plus an addition"@
    } else {
        "the class key ("@ + dropped + ") was not returned and there is no __RELPATH, so identity is the whole row"@
    }
}

/// The columns a diff of `a` and `b` keys on, where they came from, and what
/// the user has to be told about it.
///
/// The declared key is only usable if the query actually returned it on both
/// sides, and a partly-returned compound key is not a key at all: matching on
/// some of it merges rows the schema says are distinct. Then `__RELPATH`, and
/// only then the whole row.
pub open spec fn resolve_keys_spec(a: QueryResult, b: QueryResult, over: Option<Seq<Seq<char>>>)
    -> (Seq<Seq<char>>, KeySource, Option<Seq<char>>) {
    match over {
        Some(keys) => (keys, KeySource::Manual, None),
        None => {
            let declared = declared_keys(a, b);
            let usable = keep_where(declared, on_both(a, b));
            let dropped = join(keep_where(declared, not_on_both(a, b)), ", "@);
            if usable.len() > 0 && usable.len() == declared.len() {
                (usable, KeySource::ClassKey, None)
            } else if on_both(a, b)("__RELPATH"@) {
                (seq!["__RELPATH"@], KeySource::RelPath, if dropped.len() > 0 { Some(relpath_note(dropped)) } else { None })
            } else {
                (Seq::empty(), KeySource::WholeRow, Some(whole_row_note(dropped)))
            }
        },
    }
}

proof fn lemma_keep_where_len(items: Seq<Seq<char>>, keep: spec_fn(Seq<char>) -> bool)
    ensures
        keep_where(items, keep).len() <= items.len(),
        keep_where(items, keep).len() == items.len() ==> keep_where(items, keep) == items,
        (forall|i: int| 0 <= i < items.len() ==> keep(#[trigger] items[i])) ==> keep_where(items, keep) == items,
    decreases items.len(),
{
    if items.len() > 0 {
        lemma_keep_where_len(items.drop_last(), keep);
        assert(items.drop_last().push(items.last()) =~= items);
        if forall|i: int| 0 <= i < items.len() ==> keep(#[trigger] items[i]) {
            assert forall|i: int| 0 <= i < items.drop_last().len() implies keep(#[trigger] items.drop_last()[i]) by {
                assert(items.drop_last()[i] == items[i]);
            }
            assert(keep(items[items.len() - 1]));
        }
    }
}

/// The class key is used whole or not at all: when the rows are keyed on
/// it, the keys are every declared key column, in declared order, each
/// returned by both sides; and when the class declares a key that both sides
/// returned in full, that whole key is what the rows are keyed on.
pub proof fn lemma_class_key_is_whole(a: QueryResult, b: QueryResult)
    ensures
        resolve_keys_spec(a, b, None).1 == KeySource::ClassKey ==> {
            &&& resolve_keys_spec(a, b, None).0 == declared_keys(a, b)
            &&& resolve_keys_spec(a, b, None).2 is None
            &&& forall|i: int| 0 <= i < declared_keys(a, b).len() ==> listed(strs(a.columns@), #[trigger] declared_keys(a, b)[i])
                && listed(strs(b.columns@), declared_keys(a, b)[i])
        },
        declared_keys(a, b).len() > 0 && (forall|i: int|
            0 <= i < declared_keys(a, b).len() ==> listed(strs(a.columns@), #[trigger] declared_keys(a, b)[i])
                && listed(strs(b.columns@), declared_keys(a, b)[i])) ==> resolve_keys_spec(a, b, None) == (
            declared_keys(a, b),
            KeySource::ClassKey,
            Option::<Seq<char>>::None,
        ),
{
    let declared = declared_keys(a, b);
    let both = on_both(a, b);
    lemma_keep_where_len(declared, both);
    if forall|i: int| 0 <= i < declared.len() ==> listed(strs(a.columns@), #[trigger] declared[i]) && listed(
        strs(b.columns@),
        declared[i],
    ) {
        assert forall|i: int| 0 <= i < declared.len() implies both(#[trigger] declared[i]) by {
            assert(listed(strs(a.columns@), declared[i]) && listed(strs(b.columns@), declared[i]));
        }
    }
    if resolve_keys_spec(a, b, None).1 == KeySource::ClassKey {
        let usable = keep_where(declared, both);
        assert(usable == declared);
        assert forall|i: int| 0 <= i < declared.len() implies listed(strs(a.columns@), #[trigger] declared[i])
            && listed(strs(b.columns@), declared[i]) by {
            assert(usable.contains(declared[i]));
            lemma_keep_where_members(declared, both, declared[i]);
        }
    }
}

fn filter_both(a: &QueryResult, b: &QueryResult, declared: &Vec<String>, want: bool) -> (r: Vec<Vec<char>>)
    ensures
        r@.map_values(|v: Vec<char>| v@) == keep_where(
            strs(declared@),
            if want { on_both(*a, *b) } else { not_on_both(*a, *b) },
        ),
{
    let ghost items = strs(declared@);
    let ghost keep = if want { on_both(*a, *b) } else { not_on_both(*a, *b) };
    let mut out: Vec<Vec<char>> = Vec::new();
    let mut i: usize = 0;
    assert(keep_where(items.take(0), keep) =~= Seq::<Seq<char>>::empty());
    while i < declared.len()
        invariant
            i <= declared@.len(),
            items == strs(declared@),
            keep == (if want { on_both(*a, *b) } else { not_on_both(*a, *b) }),
            out@.map_values(|v: Vec<char>| v@) == keep_where(items.take(i as int), keep),
        decreases declared.len() - i,
    {
        proof {
            lemma_keep_where_step(items, keep, i as int);
        }
        let c = declared[i].as_str();
        let both = is_listed(&a.columns, c) && is_listed(&b.columns, c);
        assert(items[i as int] == c@);
        if both == want {
            let ghost before = out@.map_values(|v: Vec<char>| v@);
            out.push(chars_of(c));
            assert(out@.map_values(|v: Vec<char>| v@) =~= before.push(c@));
        }
        i += 1;
    }
    assert(items.take(declared@.len() as int) =~= items);
    out
}

fn strings_of(v: &Vec<Vec<char>>) -> (r: Vec<String>)
    ensures
        strs(r@) == v@.map_values(|x: Vec<char>| x@),
{
    let mut out: Vec<String> = Vec::new();
    let mut i: usize = 0;
    while i < v.len()
        invariant
            i <= v@.len(),
            strs(out@) == v@.map_values(|x: Vec<char>| x@).take(i as int),
        decreases v.len() - i,
    {
        let ghost prev = out@;
        let x = string_of(v[i].as_slice());
        out.push(x);
        assert(out@ == prev.push(x));
        assert(strs(out@) =~= strs(prev).push(x@));
        assert(v@.map_values(|x: Vec<char>| x@).take(i + 1) =~= v@.map_values(|x: Vec<char>| x@).take(i as int).push(v@[i as int]@));
        i += 1;
    }
    assert(v@.map_values(|x: Vec<char>| x@).take(v@.len() as int) =~= v@.map_values(|x: Vec<char>| x@));
    out
}

fn clone_strings(v: &Vec<String>) -> (r: Vec<String>)
    ensures
        strs(r@) == strs(v@),
{
    let mut out: Vec<String> = Vec::new();
    let mut i: usize = 0;
    while i < v.len()
        invariant
            i <= v@.len(),
            strs(out@) == strs(v@).take(i as int),
        decreases v.len() - i,
    {
        let ghost prev = out@;
        let x = v[i].clone();
        out.push(x);
        assert(out@ == prev.push(x));
        assert(strs(out@) =~= strs(prev).push(x@));
        assert(strs(v@).take(i + 1) =~= strs(v@).take(i as int).push(v@[i as int]@));
        i += 1;
    }
    assert(strs(v@).take(v@.len() as int) =~= strs(v@));
    out
}

/// The columns a diff of `a` and `b` should key on, and where they came from.
pub fn resolve_keys(a: &QueryResult, b: &QueryResult, over: Option<&Vec<String>>) -> (r: (
    Vec<String>,
    KeySource,
    Option<String>,
))
    ensures
        ({
            let (keys, source, note) = resolve_keys_spec(
                *a,
                *b,
                match over {
                    Some(k) => Some(strs(k@)),
                    None => None,
                },
            );
            &&& strs(r.0@) == keys
            &&& r.1 == source
            &&& match note {
                Some(n) => r.2 matches Some(s) && s@ == n,
                None => r.2 is None,
            }
        }),
{
    if let Some(keys) = over {
        return (clone_strings(keys), KeySource::Manual, None);
    }
    let declared = if a.key_columns.len() > 0 { &a.key_columns } else { &b.key_columns };
    let usable = filter_both(a, b, declared, true);
    let dropped_list = filter_both(a, b, declared, false);
    let sep = lit(", ");
    let dropped = join_chars(&dropped_list, sep.as_slice());
    proof {
        assert(strs(declared@) == declared_keys(*a, *b));
    }
    if usable.len() > 0 && usable.len() == declared.len() {
        return (strings_of(&usable), KeySource::ClassKey, None);
    }
    let relpath = "__RELPATH";
    if is_listed(&a.columns, relpath) && is_listed(&b.columns, relpath) {
        let note = if dropped.len() > 0 {
            let mut n = lit("the class key (");
            extend_chars(&mut n, dropped.as_slice());
            let tail = lit(") was not returned by this query, so rows are keyed on __RELPATH");
            extend_chars(&mut n, tail.as_slice());
            Some(string_of(n.as_slice()))
        } else {
            None
        };
        let mut keys: Vec<String> = Vec::new();
        keys.push(relpath.to_owned());
        assert(strs(keys@) =~= seq!["__RELPATH"@]);
        return (keys, KeySource::RelPath, note);
    }
    let note = if dropped.len() == 0 {
        "this query has no declared key and no __RELPATH, so identity is the whole row \u{2014} any moving column reports as a removal plus an addition".to_owned()
    } else {
        let mut n = lit("the class key (");
        extend_chars(&mut n, dropped.as_slice());
        let tail = lit(") was not returned and there is no __RELPATH, so identity is the whole row");
        extend_chars(&mut n, tail.as_slice());
        string_of(n.as_slice())
    };
    let keys: Vec<String> = Vec::new();
    assert(strs(keys@) =~= Seq::<Seq<char>>::empty());
    (keys, KeySource::WholeRow, Some(note))
}

} // verus!

verus! {

// ---------------------------------------------------------------------------
// Ignores
// ---------------------------------------------------------------------------

/// Does this column's value move on its own between two reads of the same
/// healthy machine? Name-based, because a result carries no types, and
/// deliberately narrow: `Bytes` and `Count` only at the end of the name
/// (`BytesPerSector` is a fact about a disk), and `Size` not at all except the
/// two process-memory columns.
pub open spec fn volatile_spec(name: Seq<char>) -> bool {
    let n = lower_seq(name);
    ||| n == "__path"@
    ||| ends(n, "time"@)
    ||| ends(n, "date"@)
    ||| has_sub(n, "timestamp"@)
    ||| has_sub(n, "processid"@)
    ||| n == "idprocess"@
    ||| n == "handle"@
    ||| ends(n, "count"@)
    ||| ends(n, "bytes"@)
    ||| has_sub(n, "usage"@)
    ||| has_sub(n, "workingset"@)
    ||| has_sub(n, "virtualsize"@)
    ||| has_sub(n, "elapsed"@)
    ||| has_sub(n, "uptime"@)
    ||| starts(n, "percent"@)
    ||| has_sub(n, "freespace"@)
    ||| starts(n, "available"@)
}

pub fn is_volatile_column(name: &str) -> (b: bool)
    ensures
        b == volatile_spec(name@),
{
    let n = lower_chars(name);
    let s = n.as_slice();
    chars_eq(s, lit("__path").as_slice()) || ends_with(s, lit("time").as_slice()) || ends_with(
        s,
        lit("date").as_slice(),
    ) || contains(s, lit("timestamp").as_slice()) || contains(s, lit("processid").as_slice())
        || chars_eq(s, lit("idprocess").as_slice()) || chars_eq(s, lit("handle").as_slice())
        || ends_with(s, lit("count").as_slice()) || ends_with(s, lit("bytes").as_slice()) || contains(
        s,
        lit("usage").as_slice(),
    ) || contains(s, lit("workingset").as_slice()) || contains(s, lit("virtualsize").as_slice())
        || contains(s, lit("elapsed").as_slice()) || contains(s, lit("uptime").as_slice())
        || starts_with(s, lit("percent").as_slice()) || contains(s, lit("freespace").as_slice())
        || starts_with(s, lit("available").as_slice())
}

/// Ignored by default: volatile, and not a key column. A key column is never
/// in the derived list whatever its name looks like -- `Win32_Process.Handle`
/// is the PID and the class key at once.
pub open spec fn default_ignored(keys: Seq<Seq<char>>) -> spec_fn(Seq<char>) -> bool {
    |c: Seq<char>| volatile_spec(c) && !keys.contains(c)
}

/// The columns this diff disregards: the user's list as a sorted set, or the
/// volatile default.
pub fn resolve_ignores(columns: &Vec<String>, keys: &Vec<String>, over: Option<&Vec<String>>) -> (r: Vec<String>)
    ensures
        over matches Some(set) ==> crate::diffview::as_sorted_set(strs(set@), strs(r@)),
        over is None ==> strs(r@) == keep_where(strs(columns@), default_ignored(strs(keys@))),
{
    if let Some(set) = over {
        return crate::diffview::sorted_set_of(set);
    }
    let ghost items = strs(columns@);
    let ghost keep = default_ignored(strs(keys@));
    let mut out: Vec<String> = Vec::new();
    let mut i: usize = 0;
    assert(keep_where(items.take(0), keep) =~= Seq::<Seq<char>>::empty());
    while i < columns.len()
        invariant
            i <= columns@.len(),
            items == strs(columns@),
            keep == default_ignored(strs(keys@)),
            strs(out@) == keep_where(items.take(i as int), keep),
        decreases columns.len() - i,
    {
        proof {
            lemma_keep_where_step(items, keep, i as int);
        }
        let c = columns[i].as_str();
        assert(items[i as int] == c@);
        if is_volatile_column(c) && !is_listed(keys, c) {
            let ghost prev = out@;
            let x = c.to_owned();
            out.push(x);
            assert(strs(out@) =~= strs(prev).push(x@));
        }
        i += 1;
    }
    assert(items.take(columns@.len() as int) =~= items);
    out
}

// ---------------------------------------------------------------------------
// Display
// ---------------------------------------------------------------------------

/// `items` in order, each kept only the first time it appears after `seen`.
pub open spec fn dedup_onto(seen: Seq<Seq<char>>, items: Seq<Seq<char>>) -> Seq<Seq<char>>
    decreases items.len(),
{
    if items.len() == 0 {
        seen
    } else {
        let before = dedup_onto(seen, items.drop_last());
        if before.contains(items.last()) {
            before
        } else {
            before.push(items.last())
        }
    }
}

/// The display column order: keys first, then A's own order, then the
/// columns only B returned, each once.
pub open spec fn display_columns_spec(a: QueryResult, b: QueryResult, keys: Seq<Seq<char>>) -> Seq<Seq<char>> {
    dedup_onto(dedup_onto(dedup_onto(Seq::empty(), keys), strs(a.columns@)), strs(b.columns@))
}

/// Appends each of `list` to `cols` unless `cols` already holds it.
fn dedup_extend(cols: &mut Vec<String>, list: &Vec<String>)
    ensures
        strs(final(cols)@) == dedup_onto(strs(old(cols)@), strs(list@)),
{
    let ghost seen = strs(cols@);
    let ghost items = strs(list@);
    let mut j: usize = 0;
    assert(items.take(0) =~= Seq::<Seq<char>>::empty());
    while j < list.len()
        invariant
            j <= list@.len(),
            seen == strs(old(cols)@),
            items == strs(list@),
            strs(cols@) == dedup_onto(seen, items.take(j as int)),
        decreases list.len() - j,
    {
        let c = list[j].as_str();
        let ghost t = items.take(j + 1);
        assert(t.drop_last() =~= items.take(j as int));
        assert(t.last() == c@);
        if !is_listed(cols, c) {
            let ghost prev = cols@;
            let x = c.to_owned();
            cols.push(x);
            assert(strs(cols@) =~= strs(prev).push(x@));
        }
        j += 1;
    }
    assert(items.take(list@.len() as int) =~= items);
}

pub fn display_columns(a: &QueryResult, b: &QueryResult, keys: &Vec<String>) -> (cols: Vec<String>)
    ensures
        strs(cols@) == display_columns_spec(*a, *b, strs(keys@)),
{
    let mut cols: Vec<String> = Vec::new();
    assert(strs(cols@) =~= Seq::<Seq<char>>::empty());
    dedup_extend(&mut cols, keys);
    dedup_extend(&mut cols, &a.columns);
    dedup_extend(&mut cols, &b.columns);
    cols
}

/// A comma list, or an em dash when there is nothing in it.
pub fn list_or_none(items: &Vec<String>) -> (r: String)
    ensures
        r@ == (if items@.len() == 0 {
            "\u{2014}"@
        } else {
            join(strs(items@), ", "@)
        }),
{
    if items.len() == 0 {
        return "\u{2014}".to_owned();
    }
    let mut parts: Vec<Vec<char>> = Vec::new();
    let mut i: usize = 0;
    while i < items.len()
        invariant
            i <= items@.len(),
            parts@.map_values(|v: Vec<char>| v@) == strs(items@).take(i as int),
        decreases items.len() - i,
    {
        let ghost prev = parts@;
        let x = chars_of(items[i].as_str());
        parts.push(x);
        assert(parts@.map_values(|v: Vec<char>| v@) =~= prev.map_values(|v: Vec<char>| v@).push(x@));
        assert(strs(items@).take(i + 1) =~= strs(items@).take(i as int).push(items@[i as int]@));
        i += 1;
    }
    assert(strs(items@).take(items@.len() as int) =~= strs(items@));
    let sep = lit(", ");
    let out = join_chars(&parts, sep.as_slice());
    string_of(out.as_slice())
}

/// The first line of a multi-line error, for a one-line status; the message
/// itself when it has no line at all.
pub fn first_line(message: &str) -> (r: &str)
    ensures
        r@ == (if lines(message@).len() > 0 {
            lines(message@)[0]
        } else {
            message@
        }),
{
    let cs = chars_of(message);
    let ls = lines_of(cs.as_slice());
    if ls.len() > 0 {
        let first_len = ls[0].len();
        proof {
            let s = message@;
            crate::text::lemma_next_newline(s, 0);
            assert(ls@.map_values(|l: Vec<char>| l@)[0] == ls@[0]@);
        }
        let r = message.substring_char(0, first_len);
        proof {
            let s = message@;
            let l0 = lines(s)[0];
            assert(l0 == ls@[0]@);
            assert(r@ =~= l0);
        }
        r
    } else {
        message
    }
}

} // verus!

verus! {

// ---------------------------------------------------------------------------
// The view's state
// ---------------------------------------------------------------------------

/// The class a fresh Compare view asks about.
pub open spec fn default_class() -> Seq<char> {
    "Win32_Service"@
}

/// A machine a side can be pointed at.
#[derive(PartialEq, Eq, Debug)]
pub enum HostRef {
    /// This machine.
    Local,
    /// A remote host, as the signed-in user.
    Sso { host: String },
    /// A remote host under an alternate account, whose password is never
    /// persisted.
    Alt { host: String, user: String },
}

impl HostRef {
    pub fn is_alt_cred(&self) -> (b: bool)
        ensures
            b == (*self is Alt),
    {
        match self {
            HostRef::Alt { .. } => true,
            _ => false,
        }
    }
}

/// One row of a host picker.
pub struct Candidate {
    pub host: HostRef,
    pub label: String,
    /// Can Compare open a worker for this target?
    pub reachable: bool,
}

/// The saved targets the pickers list: those with a name, trimmed, with
/// their credentials, in order.
pub open spec fn named_targets(targets: Seq<(String, CredRef)>) -> Seq<(Seq<char>, CredRef)>
    decreases targets.len(),
{
    if targets.len() == 0 {
        Seq::empty()
    } else {
        let rest = named_targets(targets.drop_last());
        let name = crate::text::trimmed(targets.last().0@);
        if name.len() == 0 { rest } else { rest.push((name, targets.last().1)) }
    }
}

/// The account an alternate credential names: `DOMAIN\user`, or the user
/// alone without a domain.
pub open spec fn principal_of(user: Seq<char>, domain: Option<String>) -> Seq<char> {
    match domain {
        Some(d) => if d@.len() > 0 { d@ + "\\"@ + user } else { user },
        None => user,
    }
}

/// The picker row for a saved target: reachable as the signed-in user,
/// listed but not selectable under an alternate account.
pub open spec fn candidate_for(c: Candidate, name: Seq<char>, cred: CredRef) -> bool {
    &&& c.label@ == "\\\\"@ + name
    &&& match cred {
        CredRef::CurrentUser => c.reachable && (c.host matches HostRef::Sso { host } && host@ == name),
        CredRef::Alt { user, domain } => !c.reachable && (c.host matches HostRef::Alt { host, user: u } && host@
            == name && u@ == principal_of(user@, domain)),
    }
}

/// Every target the pickers offer: this machine first, then each saved
/// target with a name. An alternate-credential target is listed but not
/// reachable: its password is never persisted and Compare has no prompt.
pub fn candidates(targets: &Vec<(String, CredRef)>) -> (r: Vec<Candidate>)
    ensures
        r@.len() == named_targets(targets@).len() + 1,
        r@[0].host is Local && r@[0].label@ == "This machine"@ && r@[0].reachable,
        forall|k: int|
            0 <= k < named_targets(targets@).len() ==> candidate_for(
                #[trigger] r@[k + 1],
                named_targets(targets@)[k].0,
                named_targets(targets@)[k].1,
            ),
{
    let mut out: Vec<Candidate> = Vec::new();
    out.push(Candidate { host: HostRef::Local, label: "This machine".to_owned(), reachable: true });
    let mut i: usize = 0;
    while i < targets.len()
        invariant
            i <= targets@.len(),
            out@.len() == named_targets(targets@.take(i as int)).len() + 1,
            out@[0].host is Local && out@[0].label@ == "This machine"@ && out@[0].reachable,
            forall|k: int|
                0 <= k < named_targets(targets@.take(i as int)).len() ==> candidate_for(
                    #[trigger] out@[k + 1],
                    named_targets(targets@.take(i as int))[k].0,
                    named_targets(targets@.take(i as int))[k].1,
                ),
        decreases targets.len() - i,
    {
        let ghost before = named_targets(targets@.take(i as int));
        assert(targets@.take(i + 1).drop_last() =~= targets@.take(i as int));
        let nc = chars_of(targets[i].0.as_str());
        let name = crate::text::trim_chars(nc.as_slice());
        if name.len() > 0 {
            let host = string_of(name.as_slice());
            let mut label = lit("\\\\");
            extend_chars(&mut label, name.as_slice());
            let c = match &targets[i].1 {
                CredRef::CurrentUser => Candidate {
                    host: HostRef::Sso { host },
                    label: string_of(label.as_slice()),
                    reachable: true,
                },
                CredRef::Alt { user, domain } => {
                    let u = match domain {
                        Some(d) => if !d.as_str().is_empty() {
                            let mut v = chars_of(d.as_str());
                            let sep = lit("\\");
                            extend_chars(&mut v, sep.as_slice());
                            let uc = chars_of(user.as_str());
                            extend_chars(&mut v, uc.as_slice());
                            string_of(v.as_slice())
                        } else {
                            user.clone()
                        },
                        None => user.clone(),
                    };
                    Candidate { host: HostRef::Alt { host, user: u }, label: string_of(label.as_slice()), reachable: false }
                },
            };
            out.push(c);
        }
        assert forall|k: int|
            0 <= k < named_targets(targets@.take(i + 1)).len() implies candidate_for(
            #[trigger] out@[k + 1],
            named_targets(targets@.take(i + 1))[k].0,
            named_targets(targets@.take(i + 1))[k].1,
        ) by {
            if k < before.len() {
                assert(named_targets(targets@.take(i + 1))[k] == before[k]);
            }
        }
        i += 1;
    }
    assert(targets@.take(targets@.len() as int) =~= targets@);
    out
}

/// Whether the query is built from a class name or typed as WQL.
#[derive(Clone, Copy, PartialEq, Eq, Debug, Structural)]
pub enum Shape {
    Class,
    Wql,
}

/// What the last run against one side produced.
pub enum SideState {
    /// Nothing has been asked of this side yet.
    Idle,
    /// A query is in flight.
    Running,
    /// The query answered; it may still be partial.
    Done(QueryResult),
    /// The connection or the query failed: this side has no table.
    Failed { context: String, message: String },
    /// The run never left this process, and why.
    Refused(String),
}

/// One side of the comparison.
pub struct Side {
    pub target: HostRef,
    /// The id of the connect this run had to issue, if the worker was cold.
    pub connect_id: Option<u64>,
    /// The id of the query this run issued.
    pub query_id: Option<u64>,
    pub state: SideState,
    /// How long the connect took, once it answered.
    pub connect_ms: Option<u64>,
}

impl Side {
    pub fn new(target: HostRef) -> (s: Side)
        ensures
            s.target == target,
            s.state is Idle,
            s.connect_id is None && s.query_id is None && s.connect_ms is None,
    {
        Side { target, connect_id: None, query_id: None, state: SideState::Idle, connect_ms: None }
    }

    pub open spec fn result_spec(&self) -> Option<QueryResult> {
        match self.state {
            SideState::Done(r) => Some(r),
            _ => None,
        }
    }

    pub fn result(&self) -> (r: Option<&QueryResult>)
        ensures
            match r {
                Some(q) => self.result_spec() == Some(*q),
                None => self.result_spec() is None,
            },
    {
        match &self.state {
            SideState::Done(r) => Some(r),
            _ => None,
        }
    }

    pub fn is_running(&self) -> (b: bool)
        ensures
            b == (self.state is Running),
    {
        match self.state {
            SideState::Running => true,
            _ => false,
        }
    }

    /// Why this side cannot take part in a diff: the partial note of its
    /// answer, if it answered partially.
    pub open spec fn partial_spec(&self) -> Option<Seq<char>> {
        match self.result_spec() {
            Some(r) => match r.partial {
                Some(n) => Some(n@),
                None => None,
            },
            None => None,
        }
    }

    pub fn partial_note(&self) -> (r: Option<String>)
        ensures
            match r {
                Some(n) => self.partial_spec() == Some(n@),
                None => self.partial_spec() is None,
            },
    {
        match self.result() {
            Some(r) => match &r.partial {
                Some(n) => Some(n.clone()),
                None => None,
            },
            None => None,
        }
    }
}

/// The Compare view's state.
pub struct CompareState {
    pub a: Side,
    pub b: Side,
    pub shape: Shape,
    pub class: String,
    pub wql: String,
    pub namespace: String,
    /// The query and namespace the last run used.
    pub ran_wql: String,
    pub ran_namespace: String,
    /// Key columns the user picked, or `None` for the derived key.
    pub key_override: Option<Vec<String>>,
    /// Ignored columns the user picked, or `None` for the volatile defaults.
    pub ignore_override: Option<Vec<String>>,
    /// The user has explicitly accepted a diff built from a partial side.
    pub allow_partial: bool,
    /// The prepared diff.
    pub view: Option<crate::diffview::DiffView>,
    /// `view` needs rebuilding before the next paint.
    pub stale: bool,
}

/// The query both sides run: one query, not two.
pub open spec fn effective_wql_spec(c: CompareState) -> Seq<char> {
    match c.shape {
        Shape::Class => "SELECT * FROM "@ + crate::text::trimmed(c.class@),
        Shape::Wql => crate::text::trimmed(c.wql@),
    }
}

pub open spec fn effective_namespace_spec(c: CompareState) -> Seq<char> {
    let ns = crate::text::trimmed(c.namespace@);
    if ns.len() == 0 { crate::app::default_namespace() } else { ns }
}

pub open spec fn can_run_spec(c: CompareState) -> bool {
    &&& !(c.a.state is Running) && !(c.b.state is Running)
    &&& match c.shape {
        Shape::Class => crate::text::trimmed(c.class@).len() > 0,
        Shape::Wql => crate::text::trimmed(c.wql@).len() > 0,
    }
}

fn trimmed_string(s: &str) -> (r: String)
    ensures
        r@ == crate::text::trimmed(s@),
{
    let cs = chars_of(s);
    let t = crate::text::trim_chars(cs.as_slice());
    string_of(t.as_slice())
}

impl CompareState {
    /// A fresh view: both sides on this machine, the default class.
    pub fn new() -> (c: CompareState)
        ensures
            c.a.state is Idle && c.b.state is Idle,
            c.shape == Shape::Class,
            c.class@ == default_class(),
            c.wql@ == "SELECT * FROM "@ + default_class(),
            c.namespace@ == crate::app::default_namespace(),
            c.view is None,
            !c.stale && !c.allow_partial,
    {
        proof {
            reveal_strlit("SELECT * FROM Win32_Service");
            reveal_strlit("SELECT * FROM ");
            reveal_strlit("Win32_Service");
            assert("SELECT * FROM Win32_Service"@ =~= "SELECT * FROM "@ + "Win32_Service"@);
        }
        CompareState {
            a: Side::new(HostRef::Local),
            b: Side::new(HostRef::Local),
            shape: Shape::Class,
            class: "Win32_Service".to_owned(),
            wql: "SELECT * FROM Win32_Service".to_owned(),
            namespace: "root\\CIMV2".to_owned(),
            ran_wql: String::new(),
            ran_namespace: String::new(),
            key_override: None,
            ignore_override: None,
            allow_partial: false,
            view: None,
            stale: false,
        }
    }

    pub fn side(&self, which: Which) -> (s: &Side)
        ensures
            *s == match which {
                Which::A => self.a,
                Which::B => self.b,
            },
    {
        match which {
            Which::A => &self.a,
            Which::B => &self.b,
        }
    }

    pub fn is_running(&self) -> (b: bool)
        ensures
            b == (self.a.state is Running || self.b.state is Running),
    {
        self.a.is_running() || self.b.is_running()
    }

    pub fn effective_wql(&self) -> (r: String)
        ensures
            r@ == effective_wql_spec(*self),
    {
        match self.shape {
            Shape::Class => {
                let mut v = lit("SELECT * FROM ");
                let t = trimmed_string(self.class.as_str());
                let tc = chars_of(t.as_str());
                extend_chars(&mut v, tc.as_slice());
                string_of(v.as_slice())
            },
            Shape::Wql => trimmed_string(self.wql.as_str()),
        }
    }

    pub fn effective_namespace(&self) -> (r: String)
        ensures
            r@ == effective_namespace_spec(*self),
    {
        let ns = trimmed_string(self.namespace.as_str());
        if ns.as_str().is_empty() {
            "root\\CIMV2".to_owned()
        } else {
            ns
        }
    }

    pub fn can_run(&self) -> (b: bool)
        ensures
            b == can_run_spec(*self),
    {
        !self.is_running() && match self.shape {
            Shape::Class => !trimmed_string(self.class.as_str()).as_str().is_empty(),
            Shape::Wql => !trimmed_string(self.wql.as_str()).as_str().is_empty(),
        }
    }
}

} // verus!

verus! {

// ---------------------------------------------------------------------------
// The view's decisions
// ---------------------------------------------------------------------------

/// Everything in the application but the Compare view is as it was.
pub open spec fn same_outside_compare(x: VmiScopeApp, y: VmiScopeApp) -> bool {
    x == VmiScopeApp { compare: x.compare, ..y }
}

pub open spec fn counts_line(counts: Seq<usize>) -> Seq<char> {
    dec(counts[0] as nat) + " identical \u{00b7} "@ + dec(counts[1] as nat) + " changed \u{00b7} "@
        + dec(counts[2] as nat) + " only on A \u{00b7} "@ + dec(counts[3] as nat) + " only on B"@
}

/// The status bar's line for the Compare view: the four counts, or the
/// reason there are none.
pub open spec fn compare_status_spec(c: CompareState) -> Seq<char> {
    if c.a.state is Running || c.b.state is Running {
        "Comparing\u{2026}"@
    } else if c.a.state is Failed {
        "Side A did not answer"@
    } else if c.a.state is Refused {
        "Side A was not run"@
    } else if c.b.state is Failed {
        "Side B did not answer"@
    } else if c.b.state is Refused {
        "Side B was not run"@
    } else {
        match c.view {
            Some(v) => counts_line(v.counts@) + if v.sound {
                Seq::empty()
            } else {
                " \u{00b7} partial"@
            },
            None => if c.a.partial_spec() is Some || c.b.partial_spec() is Some {
                "Partial read \u{2014} the diff is withheld"@
            } else {
                "No comparison run"@
            },
        }
    }
}

/// What a run asks the caller to send: one query, to the sides listed.
pub struct CompareDispatch {
    pub wql: String,
    pub namespace: String,
    pub sides: Vec<Which>,
}

/// What starting a run leaves behind: the overrides and the accepted
/// partial dropped, no view, the query and namespace both sides run (also
/// kept as the run's), an alternate-credential side refused on the spot, and
/// the dispatch naming the sides the caller sends the query to. Everything
/// else, in the Compare view and outside it, as it was.
pub open spec fn run_outcome(before: VmiScopeApp, after: VmiScopeApp, d: CompareDispatch) -> bool {
    &&& same_outside_compare(after, before)
    &&& !after.compare.allow_partial
    &&& after.compare.view is None
    &&& !after.compare.stale
    &&& after.compare.key_override is None
    &&& after.compare.ignore_override is None
    &&& d.wql@ == effective_wql_spec(before.compare)
    &&& d.namespace@ == effective_namespace_spec(before.compare)
    &&& after.compare.ran_wql@ == d.wql@
    &&& after.compare.ran_namespace@ == d.namespace@
    &&& after.compare.shape == before.compare.shape
    &&& after.compare.class == before.compare.class
    &&& after.compare.wql == before.compare.wql
    &&& after.compare.namespace == before.compare.namespace
    &&& after.compare.a.target == before.compare.a.target
    &&& after.compare.b.target == before.compare.b.target
    &&& before.compare.a.target is Alt ==> (after.compare.a.state matches SideState::Refused(m)
            && m@ == alt_cred_refusal())
    &&& before.compare.b.target is Alt ==> (after.compare.b.state matches SideState::Refused(m)
            && m@ == alt_cred_refusal())
    &&& !(before.compare.a.target is Alt) ==> after.compare.a.state == before.compare.a.state
    &&& !(before.compare.b.target is Alt) ==> after.compare.b.state == before.compare.b.state
    &&& d.sides@ == if before.compare.a.target is Alt {
            Seq::<Which>::empty()
        } else {
            seq![Which::A]
        } + if before.compare.b.target is Alt {
            Seq::<Which>::empty()
        } else {
            seq![Which::B]
        }
    &&& after.compare.a == (Side { state: after.compare.a.state, ..before.compare.a })
    &&& after.compare.b == (Side { state: after.compare.b.state, ..before.compare.b })
}

/// The ignore override is a set, as the ignore list the user edits is: its
/// columns in ascending order, each once.
pub open spec fn ignore_set_ok(c: CompareState) -> bool {
    match c.ignore_override {
        Some(v) => crate::diffview::ascending(strs(v@)),
        None => true,
    }
}

/// Append copies of `items` to `v`.
fn append_strings(v: &mut Vec<String>, items: &Vec<String>)
    ensures
        strs(final(v)@) == strs(old(v)@) + strs(items@),
{
    let mut i: usize = 0;
    while i < items.len()
        invariant
            i <= items@.len(),
            strs(v@) == strs(old(v)@) + strs(items@).take(i as int),
        decreases items.len() - i,
    {
        let ghost before = v@;
        let c = items[i].clone();
        v.push(c);
        assert(strs(v@) =~= strs(before).push(items@[i as int]@));
        assert(strs(items@).take(i + 1) =~= strs(items@).take(i as int).push(items@[i as int]@));
        assert(strs(v@) =~= strs(old(v)@) + strs(items@).take(i + 1));
        i += 1;
    }
    assert(strs(items@).take(items@.len() as int) =~= strs(items@));
}

/// The refusal an alternate-credential side gets: its password was never
/// persisted, and Compare has no prompt.
pub open spec fn alt_cred_refusal() -> Seq<char> {
    "alternate credentials are not persisted, and Compare has no password prompt \u{2014} connect from Machines instead"@
}

/// A side after a run was started: refused when it needs a password, else
/// waiting for its query to be sent.
pub open spec fn side_after_run(s: Side) -> bool {
    s.target is Alt
}

/// What the caller builds the diff from, once both sides answered and the
/// partial gate let them through.
pub struct DiffPlan {
    pub keys: Vec<String>,
    pub source: KeySource,
    pub note: Option<String>,
    pub columns: Vec<String>,
    pub ignored: Vec<String>,
    /// Both sides were whole reads.
    pub sound: bool,
}

/// Whether the partial gate lets a diff through: both sides whole, or the
/// user accepted a partial one.
pub open spec fn gate_open(c: CompareState) -> bool {
    &&& c.a.result_spec() is Some
    &&& c.b.result_spec() is Some
    &&& ((c.a.partial_spec() is None && c.b.partial_spec() is None) || c.allow_partial)
}

/// A side that stops the table from being drawn states why on its own card.
pub open spec fn blocks(s: Side) -> bool {
    s.state is Failed || s.state is Refused || s.partial_spec() is Some
}

/// A worker's reply, under the id of the request it answers.
pub enum Response {
    /// The worker connected; how long that took.
    HostConnected { id: u64, connect_ms: u64 },
    /// The query answered.
    QueryResult { id: u64, result: QueryResult },
    /// The connect or the query failed.
    Error { id: u64, context: String, message: String },
}

impl Response {
    pub fn id(&self) -> (r: u64)
        ensures
            r == self.id_spec(),
    {
        match self {
            Response::HostConnected { id, .. } => *id,
            Response::QueryResult { id, .. } => *id,
            Response::Error { id, .. } => *id,
        }
    }

    pub open spec fn id_spec(&self) -> u64 {
        match self {
            Response::HostConnected { id, .. } => *id,
            Response::QueryResult { id, .. } => *id,
            Response::Error { id, .. } => *id,
        }
    }
}

/// The side whose pending connect or query carries `id`, A first.
pub open spec fn owner(c: CompareState, id: u64) -> Option<Which> {
    if c.a.connect_id == Some(id) || c.a.query_id == Some(id) {
        Some(Which::A)
    } else if c.b.connect_id == Some(id) || c.b.query_id == Some(id) {
        Some(Which::B)
    } else {
        None
    }
}

pub open spec fn side_of(c: CompareState, w: Which) -> Side {
    match w {
        Which::A => c.a,
        Which::B => c.b,
    }
}

pub open spec fn other(w: Which) -> Which {
    match w {
        Which::A => Which::B,
        Which::B => Which::A,
    }
}

/// What a reply does to the side that asked for it.
pub open spec fn applied(before: Side, after: Side, resp: Response) -> bool {
    &&& after.target == before.target
    &&& match resp {
        Response::HostConnected { connect_ms, .. } => after == (Side {
            connect_id: None,
            connect_ms: Some(connect_ms),
            ..before
        }),
        Response::QueryResult { result, .. } => after == (Side {
            query_id: None,
            state: SideState::Done(result),
            ..before
        }),
        Response::Error { context, message, .. } => after.connect_id is None && after.query_id is None
            && after.connect_ms == before.connect_ms && (after.state matches SideState::Failed {
            context: c,
            message: m,
        } && c@ == context@ && m@ == message@),
    }
}

impl VmiScopeApp {
    pub fn compare_status(&self) -> (r: String)
        ensures
            r@ == compare_status_spec(self.compare),
    {
        let c = &self.compare;
        if c.is_running() {
            return "Comparing\u{2026}".to_owned();
        }
        match &c.a.state {
            SideState::Failed { .. } => return "Side A did not answer".to_owned(),
            SideState::Refused(_) => return "Side A was not run".to_owned(),
            _ => {},
        }
        match &c.b.state {
            SideState::Failed { .. } => return "Side B did not answer".to_owned(),
            SideState::Refused(_) => return "Side B was not run".to_owned(),
            _ => {},
        }
        match &c.view {
            Some(v) => {
                let mut out = decimal(v.counts[0] as u64);
                extend_chars(&mut out, lit(" identical \u{00b7} ").as_slice());
                extend_chars(&mut out, decimal(v.counts[1] as u64).as_slice());
                extend_chars(&mut out, lit(" changed \u{00b7} ").as_slice());
                extend_chars(&mut out, decimal(v.counts[2] as u64).as_slice());
                extend_chars(&mut out, lit(" only on A \u{00b7} ").as_slice());
                extend_chars(&mut out, decimal(v.counts[3] as u64).as_slice());
                extend_chars(&mut out, lit(" only on B").as_slice());
                if !v.sound {
                    extend_chars(&mut out, lit(" \u{00b7} partial").as_slice());
                }
                proof {
                    reveal_strlit("");
                }
                assert(out@ =~= compare_status_spec(self.compare));
                string_of(out.as_slice())
            },
            None => {
                if c.a.partial_note().is_some() || c.b.partial_note().is_some() {
                    "Partial read \u{2014} the diff is withheld".to_owned()
                } else {
                    "No comparison run".to_owned()
                }
            },
        }
    }

    /// Is there a stated reason the table is absent? A failure, a refusal or
    /// a partial side each print their own card.
    pub fn has_compare_blocker(&self) -> (b: bool)
        ensures
            b == (blocks(self.compare.a) || blocks(self.compare.b)),
    {
        let a = &self.compare.a;
        let b = &self.compare.b;
        let a_stated = match a.state {
            SideState::Failed { .. } | SideState::Refused(_) => true,
            _ => false,
        };
        let b_stated = match b.state {
            SideState::Failed { .. } | SideState::Refused(_) => true,
            _ => false,
        };
        a_stated || a.partial_note().is_some() || b_stated || b.partial_note().is_some()
    }

    /// Start a comparison: the previous result and the overrides are dropped
    /// (they name columns of the previous result), a side that needs a
    /// password is refused on the spot, and the caller is told what to send
    /// where. The run is stamped from the query it sends.
    pub fn compare_run(&mut self) -> (d: CompareDispatch)
        ensures
            run_outcome(*old(self), *final(self), d),
    {
        self.compare.allow_partial = false;
        self.compare.view = None;
        self.compare.stale = false;
        self.compare.key_override = None;
        self.compare.ignore_override = None;
        let wql = self.compare.effective_wql();
        let namespace = self.compare.effective_namespace();
        let mut sides: Vec<Which> = Vec::new();
        if self.compare.a.target.is_alt_cred() {
            self.compare.a.state = SideState::Refused(
                "alternate credentials are not persisted, and Compare has no password prompt \u{2014} connect from Machines instead".to_owned(),
            );
        } else {
            sides.push(Which::A);
        }
        if self.compare.b.target.is_alt_cred() {
            self.compare.b.state = SideState::Refused(
                "alternate credentials are not persisted, and Compare has no password prompt \u{2014} connect from Machines instead".to_owned(),
            );
        } else {
            sides.push(Which::B);
        }
        self.compare.ran_wql = wql.clone();
        self.compare.ran_namespace = namespace.clone();
        proof {
            assert(sides@ =~= if old(self).compare.a.target is Alt {
                Seq::<Which>::empty()
            } else {
                seq![Which::A]
            } + if old(self).compare.b.target is Alt {
                Seq::<Which>::empty()
            } else {
                seq![Which::B]
            });
        }
        CompareDispatch { wql, namespace, sides }
    }

    /// Record what the caller did with the query for `which`: the connect it
    /// had to issue for a cold worker, the id of the query, and whether a
    /// worker took it -- the side is then running, or refused because no
    /// worker is open for it.
    pub fn compare_sent(&mut self, which: Which, connect_id: Option<u64>, query_id: u64, sent: bool)
        ensures
            same_outside_compare(*final(self), *old(self)),
            ({
                let s = match which {
                    Which::A => final(self).compare.a,
                    Which::B => final(self).compare.b,
                };
                &&& s.connect_id == connect_id
                &&& if sent {
                    s.state is Running && s.query_id == Some(query_id)
                } else {
                    (s.state matches SideState::Refused(m) && m@ == "no worker is open for this target"@)
                        && s.query_id is None
                }
            }),
            which == Which::A ==> final(self).compare.b == old(self).compare.b
                && final(self).compare.a.target == old(self).compare.a.target
                && final(self).compare.a.connect_ms == old(self).compare.a.connect_ms,
            which == Which::B ==> final(self).compare.a == old(self).compare.a
                && final(self).compare.b.target == old(self).compare.b.target
                && final(self).compare.b.connect_ms == old(self).compare.b.connect_ms,
    {
        let (state, qid) = if sent {
            (SideState::Running, Some(query_id))
        } else {
            (SideState::Refused("no worker is open for this target".to_owned()), None)
        };
        match which {
            Which::A => {
                self.compare.a.connect_id = connect_id;
                self.compare.a.query_id = qid;
                self.compare.a.state = state;
            },
            Which::B => {
                self.compare.b.connect_id = connect_id;
                self.compare.b.query_id = qid;
                self.compare.b.state = state;
            },
        }
    }

    /// Route one worker reply to the side that asked for it. A reply under an
    /// id neither side owns belongs to a superseded run and is dropped;
    /// applying it would overwrite the current run with an older one. A
    /// failure is returned as the line for the application's error log.
    pub fn compare_apply(&mut self, resp: Response) -> (logged: Option<String>)
        ensures
            same_outside_compare(*final(self), *old(self)),
            match owner(old(self).compare, resp.id_spec()) {
                None => *final(self) == *old(self) && logged is None,
                Some(w) => applied(
                    side_of(old(self).compare, w),
                    side_of(final(self).compare, w),
                    resp,
                ) && side_of(final(self).compare, other(w)) == side_of(old(self).compare, other(w))
                    && final(self).compare.stale == (old(self).compare.stale || !(resp is HostConnected))
                    && match resp {
                    Response::Error { context, message, .. } => logged matches Some(l) && l@ == "Compare "@
                        + w.label_spec() + ": "@ + context@ + "\n"@ + message@,
                    _ => logged is None,
                },
            },
    {
        let id = resp.id();
        let owns_a = self.compare.a.connect_id == Some(id) || self.compare.a.query_id == Some(id);
        let owns_b = self.compare.b.connect_id == Some(id) || self.compare.b.query_id == Some(id);
        let which = if owns_a {
            Which::A
        } else if owns_b {
            Which::B
        } else {
            return None;
        };
        let ghost before = *self;
        let side = match which {
            Which::A => &mut self.compare.a,
            Which::B => &mut self.compare.b,
        };
        match resp {
            Response::HostConnected { connect_ms, .. } => {
                side.connect_id = None;
                side.connect_ms = Some(connect_ms);
                None
            },
            Response::QueryResult { result, .. } => {
                side.query_id = None;
                side.state = SideState::Done(result);
                self.compare.stale = true;
                None
            },
            Response::Error { context, message, .. } => {
                side.connect_id = None;
                side.query_id = None;
                let mut line = lit("Compare ");
                extend_chars(&mut line, lit(which.label()).as_slice());
                extend_chars(&mut line, lit(": ").as_slice());
                extend_chars(&mut line, chars_of(context.as_str()).as_slice());
                extend_chars(&mut line, lit("\n").as_slice());
                extend_chars(&mut line, chars_of(message.as_str()).as_slice());
                side.state = SideState::Failed { context, message };
                self.compare.stale = true;
                Some(string_of(line.as_slice()))
            },
        }
    }

    /// Re-run the last comparison when one can be run. Bound to the title
    /// bar's refresh.
    pub fn compare_refresh(&mut self) -> (d: Option<CompareDispatch>)
        ensures
            can_run_spec(old(self).compare) == (d is Some),
            !can_run_spec(old(self).compare) ==> *final(self) == *old(self),
            d matches Some(x) ==> run_outcome(*old(self), *final(self), x),
    {
        if self.compare.can_run() {
            Some(self.compare_run())
        } else {
            None
        }
    }

    /// Rebuild what the prepared diff is built from: nothing unless both
    /// sides answered and the partial gate lets them through; else the key,
    /// the display columns and the ignored columns, resolved from the two
    /// answers and the user's overrides.
    pub fn compare_rebuild(&mut self) -> (p: Option<DiffPlan>)
        ensures
            same_outside_compare(*final(self), *old(self)),
            !final(self).compare.stale,
            final(self).compare.view is None,
            final(self).compare.a == old(self).compare.a,
            final(self).compare.b == old(self).compare.b,
            final(self).compare.allow_partial == old(self).compare.allow_partial,
            final(self).compare.key_override == old(self).compare.key_override,
            final(self).compare.ignore_override == old(self).compare.ignore_override,
            gate_open(old(self).compare) == (p is Some),
            p matches Some(plan) ==> ({
                let a = old(self).compare.a.result_spec().unwrap();
                let b = old(self).compare.b.result_spec().unwrap();
                let (keys, source, note) = resolve_keys_spec(
                    a,
                    b,
                    match old(self).compare.key_override {
                        Some(k) => Some(strs(k@)),
                        None => None,
                    },
                );
                &&& strs(plan.keys@) == keys
                &&& plan.source == source
                &&& match plan.note {
                    Some(n) => note == Some(n@),
                    None => note is None,
                }
                &&& strs(plan.columns@) == display_columns_spec(a, b, keys)
                &&& match old(self).compare.ignore_override {
                    Some(set) => crate::diffview::as_sorted_set(strs(set@), strs(plan.ignored@)),
                    None => strs(plan.ignored@) == keep_where(strs(plan.columns@), default_ignored(keys)),
                }
                &&& plan.sound == (a.partial is None && b.partial is None)
            }),
    {
        self.compare.stale = false;
        self.compare.view = None;
        let a = match self.compare.a.result() {
            Some(a) => a,
            None => return None,
        };
        let b = match self.compare.b.result() {
            Some(b) => b,
            None => return None,
        };
        let whole = a.partial.is_none() && b.partial.is_none();
        if !(whole || self.compare.allow_partial) {
            return None;
        }
        let (keys, source, note) = resolve_keys(a, b, self.compare.key_override.as_ref());
        let columns = display_columns(a, b, &keys);
        let ignored = resolve_ignores(&columns, &keys, self.compare.ignore_override.as_ref());
        Some(DiffPlan { keys, source, note, columns, ignored, sound: whole })
    }

    /// Show the diff the engine computed under `plan`: the prepared table,
    /// built from the two sides' answers, replaces whatever was shown.
    pub fn compare_show(&mut self, plan: DiffPlan, diff: crate::diffview::TableDiff)
        requires
            old(self).compare.a.result_spec() is Some,
            old(self).compare.b.result_spec() is Some,
        ensures
            same_outside_compare(*final(self), *old(self)),
            final(self).compare == (CompareState { view: final(self).compare.view, ..old(self).compare }),
            final(self).compare.view matches Some(v) && crate::diffview::built_from(
                v,
                old(self).compare.a.result_spec().unwrap(),
                old(self).compare.b.result_spec().unwrap(),
                plan,
                diff,
            ),
    {
        let a = self.compare.a.result().unwrap();
        let b = self.compare.b.result().unwrap();
        let v = crate::diffview::build_view(a, b, plan, diff);
        self.compare.view = Some(v);
    }

    /// Diff the partial answers anyway: the user accepted a comparison of
    /// what was read, and the view is rebuilt before the next paint.
    pub fn compare_accept_partial(&mut self)
        ensures
            *final(self) == (VmiScopeApp {
                compare: CompareState { allow_partial: true, stale: true, ..old(self).compare },
                ..*old(self)
            }),
    {
        self.compare.allow_partial = true;
        self.compare.stale = true;
    }

    /// Compare the shared columns only: the ignore list becomes the set of
    /// what the shown diff ignores and every column only one side returned,
    /// and the view is rebuilt. Nothing happens while no diff is shown.
    pub fn compare_shared_columns_only(&mut self)
        ensures
            old(self).compare.view is None ==> *final(self) == *old(self),
            old(self).compare.view matches Some(v) ==> {
                &&& final(self).compare.ignore_override matches Some(set) && crate::diffview::as_sorted_set(
                    strs(v.ignored@) + strs(v.only_a_cols@) + strs(v.only_b_cols@),
                    strs(set@),
                )
                &&& *final(self) == (VmiScopeApp {
                    compare: CompareState {
                        ignore_override: final(self).compare.ignore_override,
                        stale: true,
                        ..old(self).compare
                    },
                    ..*old(self)
                })
            },
            ignore_set_ok(old(self).compare) ==> ignore_set_ok(final(self).compare),
    {
        let set = match &self.compare.view {
            None => return,
            Some(v) => {
                let mut all: Vec<String> = Vec::new();
                append_strings(&mut all, &v.ignored);
                append_strings(&mut all, &v.only_a_cols);
                append_strings(&mut all, &v.only_b_cols);
                assert(strs(all@) =~= strs(v.ignored@) + strs(v.only_a_cols@) + strs(v.only_b_cols@));
                crate::diffview::sorted_set_of(&all)
            },
        };
        self.compare.ignore_override = Some(set);
        self.compare.stale = true;
    }

    /// Toggle one column in the ignore list of the shown diff: the list
    /// becomes that list as a set, with the column taken out if it was in
    /// and put in if it was not, and the view is rebuilt. Nothing happens
    /// while no diff is shown.
    pub fn compare_toggle_ignored(&mut self, column: &str)
        ensures
            old(self).compare.view is None ==> *final(self) == *old(self),
            old(self).compare.view matches Some(v) ==> {
                &&& final(self).compare.ignore_override matches Some(set) && crate::diffview::ascending(strs(set@))
                    && forall|c: Seq<char>| #[trigger] strs(set@).contains(c) <==> if strs(v.ignored@).contains(column@) {
                        strs(v.ignored@).contains(c) && c != column@
                    } else {
                        strs(v.ignored@).contains(c) || c == column@
                    }
                &&& *final(self) == (VmiScopeApp {
                    compare: CompareState {
                        ignore_override: final(self).compare.ignore_override,
                        stale: true,
                        ..old(self).compare
                    },
                    ..*old(self)
                })
            },
            ignore_set_ok(old(self).compare) ==> ignore_set_ok(final(self).compare),
    {
        let set = match &self.compare.view {
            None => return,
            Some(v) => {
                let on = is_listed(&v.ignored, column);
                let mut next: Vec<String> = Vec::new();
                let mut i: usize = 0;
                while i < v.ignored.len()
                    invariant
                        i <= v.ignored@.len(),
                        forall|c: Seq<char>|
                            #[trigger] strs(next@).contains(c) <==> (strs(v.ignored@).take(i as int).contains(c) && (
                            !on || c != column@)),
                    decreases v.ignored.len() - i,
                {
                    let c = v.ignored[i].as_str();
                    assert(strs(v.ignored@)[i as int] == c@);
                    let ghost before = strs(next@);
                    let keep = !on || !str_eq(c, column);
                    if keep {
                        next.push(v.ignored[i].clone());
                    }
                    proof {
                        let t = strs(v.ignored@).take(i as int);
                        assert(strs(v.ignored@).take(i + 1) =~= t.push(c@));
                        assert forall|d: Seq<char>| #[trigger] strs(next@).contains(d) <==> (t.push(c@).contains(d) && (
                            !on || d != column@)) by {
                            if keep {
                                assert(strs(next@) =~= before.push(c@));
                                if before.push(c@).contains(d) && d != c@ {
                                    let k = choose|k: int| 0 <= k < before.push(c@).len() && before.push(c@)[k] == d;
                                    assert(before[k] == d);
                                }
                                if before.contains(d) {
                                    let k = choose|k: int| 0 <= k < before.len() && before[k] == d;
                                    assert(before.push(c@)[k] == d);
                                }
                                if d == c@ {
                                    assert(before.push(c@)[before.len() as int] == d);
                                }
                            }
                            if t.push(c@).contains(d) && d != c@ {
                                let k = choose|k: int| 0 <= k < t.push(c@).len() && t.push(c@)[k] == d;
                                assert(t[k] == d);
                            }
                            if t.contains(d) {
                                let k = choose|k: int| 0 <= k < t.len() && t[k] == d;
                                assert(t.push(c@)[k] == d);
                            }
                            if d == c@ {
                                assert(t.push(c@)[i as int] == d);
                            }
                        }
                    }
                    i += 1;
                }
                assert(strs(v.ignored@).take(v.ignored@.len() as int) =~= strs(v.ignored@));
                if !on {
                    let ghost before = strs(next@);
                    next.push(column.to_owned());
                    proof {
                        assert(strs(next@) =~= before.push(column@));
                        assert forall|d: Seq<char>| #[trigger] strs(next@).contains(d) <==> (strs(v.ignored@).contains(d)
                            || d == column@) by {
                            if before.push(column@).contains(d) && d != column@ {
                                let k = choose|k: int| 0 <= k < before.push(column@).len() && before.push(column@)[k] == d;
                                assert(before[k] == d);
                            }
                            if before.contains(d) {
                                let k = choose|k: int| 0 <= k < before.len() && before[k] == d;
                                assert(before.push(column@)[k] == d);
                            }
                            if d == column@ {
                                assert(before.push(column@)[before.len() as int] == d);
                            }
                        }
                    }
                }
                crate::diffview::sorted_set_of(&next)
            },
        };
        self.compare.ignore_override = Some(set);
        self.compare.stale = true;
    }

    /// Go back to the volatile defaults for the ignore list.
    pub fn compare_reset_ignores(&mut self)
        ensures
            *final(self) == (VmiScopeApp {
                compare: CompareState { ignore_override: None, stale: true, ..old(self).compare },
                ..*old(self)
            }),
    {
        self.compare.ignore_override = None;
        self.compare.stale = true;
    }

    /// The prepared diff as CSV, when there is one.
    pub fn compare_export_csv(&self) -> (r: Option<String>)
        ensures
            match self.compare.view {
                Some(v) => r matches Some(t) && t@ == crate::diffview::csv_text(crate::diffview::csv_table(v)),
                None => r is None,
            },
    {
        match &self.compare.view {
            Some(v) => Some(crate::diffview::diff_to_csv(v)),
            None => None,
        }
    }
}

} // verus!

verus! {

// ---------------------------------------------------------------------------
// What the alignment promises
// ---------------------------------------------------------------------------

/// Everything `keep_where` keeps was in the input and passes the test.
pub proof fn lemma_keep_where_members(items: Seq<Seq<char>>, keep: spec_fn(Seq<char>) -> bool, x: Seq<char>)
    ensures
        keep_where(items, keep).contains(x) ==> items.contains(x) && keep(x),
    decreases items.len(),
{
    if items.len() > 0 {
        lemma_keep_where_members(items.drop_last(), keep, x);
        if keep_where(items, keep).contains(x) {
            let rest = keep_where(items.drop_last(), keep);
            if rest.contains(x) {
                let i = choose|i: int| 0 <= i < items.drop_last().len() && items.drop_last()[i] == x;
                assert(items[i] == x);
            } else {
                assert(x == items.last());
                assert(items[items.len() - 1] == x);
            }
        }
    }
}

/// A key column is never in the default ignore list, whatever its name looks
/// like: `Win32_Process.Handle` is the PID and the class key at once, and an
/// ignored key would stop being part of the row's identity.
pub proof fn lemma_a_key_is_never_ignored_by_default(columns: Seq<Seq<char>>, keys: Seq<Seq<char>>, c: Seq<char>)
    requires
        keys.contains(c),
    ensures
        !keep_where(columns, default_ignored(keys)).contains(c),
{
    lemma_keep_where_members(columns, default_ignored(keys), c);
}

/// Every column the default ignores is one the diff displays and one the
/// volatile rule names.
pub proof fn lemma_default_ignores_are_volatile_columns(columns: Seq<Seq<char>>, keys: Seq<Seq<char>>, c: Seq<char>)
    ensures
        keep_where(columns, default_ignored(keys)).contains(c) ==> columns.contains(c) && volatile_spec(c),
{
    lemma_keep_where_members(columns, default_ignored(keys), c);
}

/// `dedup_onto` keeps what it was seeded with in front, adds each item the
/// first time it appears, and never repeats one.
pub proof fn lemma_dedup_onto(seen: Seq<Seq<char>>, items: Seq<Seq<char>>)
    requires
        seen.no_duplicates(),
    ensures
        dedup_onto(seen, items).no_duplicates(),
        dedup_onto(seen, items).take(seen.len() as int) == seen,
        seen.len() <= dedup_onto(seen, items).len(),
        forall|x: Seq<char>| #[trigger] dedup_onto(seen, items).contains(x) <==> (seen.contains(x) || items.contains(x)),
    decreases items.len(),
{
    if items.len() > 0 {
        let before = dedup_onto(seen, items.drop_last());
        lemma_dedup_onto(seen, items.drop_last());
        let last = items.last();
        if !before.contains(last) {
            let after = before.push(last);
            assert(after.take(seen.len() as int) =~= before.take(seen.len() as int));
            assert forall|i: int, j: int| 0 <= i < after.len() && 0 <= j < after.len() && i != j implies after[i] != after[j] by {
                if i == after.len() - 1 {
                    assert(after[j] == before[j]);
                } else if j == after.len() - 1 {
                    assert(after[i] == before[i]);
                }
            }
        }
        let d = dedup_onto(seen, items);
        assert forall|x: Seq<char>| #[trigger] d.contains(x) <==> (seen.contains(x) || items.contains(x)) by {
            let init = items.drop_last();
            assert(before.contains(x) <==> (seen.contains(x) || init.contains(x)));
            assert(items.contains(x) <==> (init.contains(x) || x == last)) by {
                if items.contains(x) && x != last {
                    let i = choose|i: int| 0 <= i < items.len() && items[i] == x;
                    assert(i != items.len() - 1);
                    assert(init[i] == x);
                }
                if init.contains(x) {
                    let i = choose|i: int| 0 <= i < init.len() && init[i] == x;
                    assert(items[i] == x);
                }
                if x == last {
                    assert(items[items.len() - 1] == x);
                }
            }
            if before.contains(x) {
                let i = choose|i: int| 0 <= i < before.len() && before[i] == x;
                if !before.contains(last) {
                    assert(d[i] == x);
                }
            }
            if !before.contains(last) {
                assert(d[before.len() as int] == last);
                if d.contains(x) {
                    let i = choose|i: int| 0 <= i < d.len() && d[i] == x;
                    if i < before.len() {
                        assert(before[i] == x);
                    }
                }
            }
        }
    } else {
        assert(seen.take(seen.len() as int) =~= seen);
    }
}

/// The display columns: every key, every column of A and every column of B,
/// each exactly once -- and when the key names no column twice, the keys
/// lead, in their own order.
pub proof fn lemma_display_columns(a: QueryResult, b: QueryResult, keys: Seq<Seq<char>>)
    ensures
        display_columns_spec(a, b, keys).no_duplicates(),
        forall|x: Seq<char>| #[trigger] display_columns_spec(a, b, keys).contains(x) <==> (keys.contains(x)
            || strs(a.columns@).contains(x) || strs(b.columns@).contains(x)),
        keys.no_duplicates() ==> display_columns_spec(a, b, keys).take(keys.len() as int) == keys,
{
    let e = Seq::<Seq<char>>::empty();
    let k = dedup_onto(e, keys);
    let ka = dedup_onto(k, strs(a.columns@));
    lemma_dedup_onto(e, keys);
    lemma_dedup_onto(k, strs(a.columns@));
    lemma_dedup_onto(ka, strs(b.columns@));
    if keys.no_duplicates() {
        lemma_dedup_distinct(keys);
        assert(ka.take(k.len() as int) == k);
        assert(dedup_onto(ka, strs(b.columns@)).take(ka.len() as int) == ka);
        assert(dedup_onto(ka, strs(b.columns@)).take(k.len() as int) =~= ka.take(k.len() as int));
    }
}

/// Distinct items come through `dedup_onto` unchanged.
pub proof fn lemma_dedup_distinct(items: Seq<Seq<char>>)
    requires
        items.no_duplicates(),
    ensures
        dedup_onto(Seq::empty(), items) == items,
    decreases items.len(),
{
    if items.len() > 0 {
        let init = items.drop_last();
        assert(init.no_duplicates()) by {
            assert forall|i: int, j: int| 0 <= i < init.len() && 0 <= j < init.len() && i != j implies init[i] != init[j] by {
                assert(init[i] == items[i] && init[j] == items[j]);
            }
        }
        lemma_dedup_distinct(init);
        assert(!init.contains(items.last())) by {
            if init.contains(items.last()) {
                let i = choose|i: int| 0 <= i < init.len() && init[i] == items.last();
                assert(items[i] == items[items.len() - 1]);
            }
        }
        assert(init.push(items.last()) =~= items);
    }
}

} // verus!
