//! The Saved view's rules: the library filters and the cards' metadata.
//!
//! The cards' metadata is real or absent: a query that has never run shows
//! an em dash rather than a plausible number.

use vstd::prelude::*;
use crate::app::VmiScopeApp;
use crate::compare::{keep_where, lemma_keep_where_step};
use crate::query::{rows_label, rows_label_spec};
use crate::text::{
    chars_of, has_sub, is_whitespace, is_ws, join, join_chars, lines, lines_of, lit, lower_contains,
    lowercase, string_of, to_lowercase, trim_chars, trimmed,
};

verus! {

/// How many lines of the query a card previews before eliding.
pub const PREVIEW_LINES: usize = 3;

/// One query in the local library.
pub struct SavedQuery {
    pub name: String,
    /// Empty for the ungrouped bucket.
    pub folder: String,
    pub wql: String,
    /// The namespace it was saved under; empty when none was recorded.
    pub namespace: String,
    pub fav: bool,
}

/// The Saved view's own filters.
pub struct SavedView {
    /// Free-text filter over name, folder and query text.
    pub filter: String,
    /// `None` = every folder. `Some("")` = the ungrouped bucket.
    pub folder: Option<String>,
    pub favs_only: bool,
}

impl SavedView {
    /// Every query passes: no text, no folder, no favourites-only.
    pub fn new() -> (v: SavedView)
        ensures
            v.filter@.len() == 0,
            v.folder is None,
            !v.favs_only,
    {
        SavedView { filter: String::new(), folder: None, favs_only: false }
    }

    /// The filters compose: favourites-only, then the folder, then the text,
    /// which is trimmed, lower-cased, and looked for in the name, the folder
    /// and the query body.
    pub open spec fn matches_spec(&self, q: SavedQuery) -> bool {
        let needle = lowercase(trimmed(self.filter@));
        &&& (self.favs_only ==> q.fav)
        &&& (self.folder matches Some(f) ==> q.folder@ == f@)
        &&& (trimmed(self.filter@).len() == 0 || has_sub(lowercase(q.name@), needle) || has_sub(
            lowercase(q.folder@),
            needle,
        ) || has_sub(lowercase(q.wql@), needle))
    }

    /// Does `query` pass the active filters?
    pub fn matches(&self, query: &SavedQuery) -> (b: bool)
        ensures
            b == self.matches_spec(*query),
    {
        if self.favs_only && !query.fav {
            return false;
        }
        if let Some(folder) = &self.folder {
            if !crate::text::str_eq(query.folder.as_str(), folder.as_str()) {
                return false;
            }
        }
        let f = chars_of(self.filter.as_str());
        let t = trim_chars(f.as_slice());
        if t.len() == 0 {
            return true;
        }
        let ts = string_of(t.as_slice());
        let low = to_lowercase(ts.as_str());
        let needle = chars_of(low.as_str());
        lower_contains(query.name.as_str(), needle.as_slice()) || lower_contains(
            query.folder.as_str(),
            needle.as_slice(),
        ) || lower_contains(query.wql.as_str(), needle.as_slice())
    }
}

// ---------------------------------------------------------------------------
// The preview
// ---------------------------------------------------------------------------

/// `str::split_whitespace`: the maximal runs of non-whitespace characters.
pub open spec fn words(s: Seq<char>) -> Seq<Seq<char>>
    decreases s.len(),
{
    if s.len() == 0 {
        Seq::empty()
    } else {
        let w = words(s.drop_last());
        let c = s.last();
        if is_ws(c) {
            w
        } else if s.len() >= 2 && !is_ws(s[s.len() - 2]) {
            w.update(w.len() - 1, w.last().push(c))
        } else {
            w.push(seq![c])
        }
    }
}

/// A line with its runs of whitespace collapsed to one space and its ends
/// trimmed.
pub open spec fn collapse(line: Seq<char>) -> Seq<char> {
    join(words(line), " "@)
}

pub proof fn lemma_words_nonempty(s: Seq<char>)
    ensures
        s.len() > 0 && !is_ws(s.last()) ==> words(s).len() > 0,
    decreases s.len(),
{
    if s.len() > 0 {
        lemma_words_nonempty(s.drop_last());
    }
}

/// The words of `line`, as vectors.
fn words_of(line: &[char]) -> (r: Vec<Vec<char>>)
    ensures
        r@.map_values(|v: Vec<char>| v@) == words(line@),
{
    let mut out: Vec<Vec<char>> = Vec::new();
    let mut i: usize = 0;
    while i < line.len()
        invariant
            i <= line@.len(),
            out@.map_values(|v: Vec<char>| v@) == words(line@.take(i as int)),
        decreases line.len() - i,
    {
        let c = line[i];
        let ghost pre = line@.take(i as int);
        let ghost now = line@.take(i + 1);
        assert(now.drop_last() =~= pre);
        assert(now.last() == c);
        if is_whitespace(c) {
        } else if i >= 1 && !is_whitespace(line[i - 1]) {
            proof {
                assert(now[now.len() - 2] == line@[i - 1]);
                lemma_words_nonempty(pre);
                assert(pre.last() == line@[i - 1]);
            }
            let last = out.len() - 1;
            let ghost before = out@;
            let mut w = out[last].clone();
            proof {
                assert(w@ == before[last as int]@);
            }
            w.push(c);
            out.set(last, w);
            proof {
                assert(out@.map_values(|v: Vec<char>| v@) =~= before.map_values(|v: Vec<char>| v@).update(
                    last as int,
                    before.map_values(|v: Vec<char>| v@).last().push(c),
                ));
            }
        } else {
            let ghost before = out@;
            let mut w: Vec<char> = Vec::new();
            w.push(c);
            out.push(w);
            proof {
                assert(w@ =~= seq![c]);
                assert(out@.map_values(|v: Vec<char>| v@) =~= before.map_values(|v: Vec<char>| v@).push(seq![c]));
            }
        }
        i += 1;
    }
    assert(line@.take(line@.len() as int) =~= line@);
    out
}

/// The lines a card previews from: each collapsed, the empty ones dropped.
pub open spec fn preview_lines(wql: Seq<char>) -> Seq<Seq<char>> {
    keep_where(lines(wql).map_values(|l: Seq<char>| collapse(l)), |l: Seq<char>| l.len() > 0)
}

/// The card's query preview: the first few non-empty lines, each
/// whitespace-normalised, and an ellipsis line when there were more.
pub open spec fn preview_spec(wql: Seq<char>) -> Seq<char> {
    let ls = preview_lines(wql);
    let shown = if ls.len() > PREVIEW_LINES { ls.take(PREVIEW_LINES as int) } else { ls };
    join(shown, "\n"@) + if ls.len() > PREVIEW_LINES { "\n\u{2026}"@ } else { Seq::empty() }
}

pub fn preview(wql: &str) -> (r: String)
    ensures
        r@ == preview_spec(wql@),
{
    let cs = chars_of(wql);
    let ls = lines_of(cs.as_slice());
    let ghost all = lines(wql@).map_values(|l: Seq<char>| collapse(l));
    let ghost keep = |l: Seq<char>| l.len() > 0;
    let mut kept: Vec<Vec<char>> = Vec::new();
    let mut i: usize = 0;
    assert(keep_where(all.take(0), keep) =~= Seq::<Seq<char>>::empty());
    while i < ls.len()
        invariant
            i <= ls@.len(),
            ls@.map_values(|l: Vec<char>| l@) == lines(cs@),
            cs@ == wql@,
            all == lines(wql@).map_values(|l: Seq<char>| collapse(l)),
            all.len() == ls@.len(),
            keep == (|l: Seq<char>| l.len() > 0),
            kept@.map_values(|v: Vec<char>| v@) == keep_where(all.take(i as int), keep),
        decreases ls.len() - i,
    {
        proof {
            lemma_keep_where_step(all, keep, i as int);
            assert(ls@.map_values(|l: Vec<char>| l@)[i as int] == ls@[i as int]@);
        }
        let ws = words_of(ls[i].as_slice());
        let sep = lit(" ");
        let line = join_chars(&ws, sep.as_slice());
        assert(line@ == all[i as int]);
        if line.len() > 0 {
            let ghost before = kept@;
            kept.push(line);
            assert(kept@.map_values(|v: Vec<char>| v@) =~= before.map_values(|v: Vec<char>| v@).push(line@));
        }
        i += 1;
    }
    assert(all.take(ls@.len() as int) =~= all);
    let elided = kept.len() > PREVIEW_LINES;
    if elided {
        kept.truncate(PREVIEW_LINES);
    }
    let ghost ks = keep_where(all, keep);
    assert(kept@.map_values(|v: Vec<char>| v@) =~= if ks.len() > PREVIEW_LINES {
        ks.take(PREVIEW_LINES as int)
    } else {
        ks
    });
    let nl = lit("\n");
    let mut out = join_chars(&kept, nl.as_slice());
    if elided {
        let tail = lit("\n\u{2026}");
        crate::text::extend_chars(&mut out, tail.as_slice());
    }
    proof {
        reveal_strlit("");
    }
    assert(out@ =~= preview_spec(wql@));
    string_of(out.as_slice())
}

// ---------------------------------------------------------------------------
// Metric labels
// ---------------------------------------------------------------------------

/// The meta line's `rows` half: the real figure, or an em dash for a query
/// that has never run.
pub fn last_rows_label(rows: Option<usize>) -> (r: String)
    ensures
        r@ == match rows {
            Some(n) => rows_label_spec(n as nat),
            None => "\u{2014}"@,
        },
{
    match rows {
        Some(n) => rows_label(n),
        None => "\u{2014}".to_owned(),
    }
}

} // verus!

verus! {

impl VmiScopeApp {
    /// Open a saved query in the Query view. The query's namespace, when it
    /// recorded one, is returned to be selected *before* the query runs: the
    /// run reads the active namespace, so the order is the whole fix for a
    /// query saved under `root\subscription` reopening against `root\CIMV2`.
    pub fn apply_saved_query(&mut self, query: &SavedQuery) -> (ns: Option<String>)
        ensures
            match ns {
                Some(n) => query.namespace@.len() > 0 && n@ == query.namespace@,
                None => query.namespace@.len() == 0,
            },
            final(self).query_text@ == query.wql@,
            final(self).view == crate::nav::View::Query,
            *final(self) == (VmiScopeApp {
                query_text: final(self).query_text,
                view: crate::nav::View::Query,
                ..*old(self)
            }),
    {
        self.query_text = query.wql.clone();
        self.view = crate::nav::View::Query;
        if query.namespace.as_str().is_empty() {
            None
        } else {
            Some(query.namespace.clone())
        }
    }
}

} // verus!

verus! {

/// A view with no text, no folder and favourites off matches every query.
pub proof fn lemma_empty_filter_matches_everything(v: SavedView, q: SavedQuery)
    requires
        trimmed(v.filter@).len() == 0,
        v.folder is None,
        !v.favs_only,
    ensures
        v.matches_spec(q),
{
    assert(trimmed(v.filter@) =~= Seq::<char>::empty());
}

/// The filters compose: a query that passes a view passes it with any one of
/// the three filters taken away.
pub proof fn lemma_saved_filters_compose(v: SavedView, q: SavedQuery)
    requires
        v.matches_spec(q),
    ensures
        (SavedView { favs_only: false, ..v }).matches_spec(q),
        (SavedView { folder: None, ..v }).matches_spec(q),
        v.favs_only ==> q.fav,
{
}

} // verus!
