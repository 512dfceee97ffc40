//! The shape of a WQL notification query, read off its text.
//!
//! Everything derived from a query -- the event class, the watched class, the
//! polling interval, and where to write a new one -- has to know what is inside
//! a string literal and what is not: `WHERE Name = 'within 5'` is not a polling
//! interval. So the query is first scanned into word and literal tokens.
//!
//! Positions are character indices into the query.

use vstd::prelude::*;
use vstd::string::*;
use crate::text::{
    lower, ascii_lower, chars_of, dec, decimal, ends, ends_with, eq_ic, extend_chars, is_alnum,
    is_ascii_alnum, lower_seq, matches_at, slice_chars, string_of,
    parse_u32, parse_u32_spec, starts, starts_with, str_eq_ignore_case,
};

verus! {

/// One lexical token of a WQL query, as a character range into it.
#[derive(Clone, Copy, PartialEq, Eq, Debug, Structural)]
pub struct Tok {
    pub start: usize,
    pub end: usize,
    /// True for the *contents* of a quoted literal; the quotes are excluded.
    pub quoted: bool,
}

// ---------------------------------------------------------------------------
// The scanner, as a left fold over the characters
// ---------------------------------------------------------------------------

/// The scanner's state between two characters.
pub struct Scan {
    /// Start of the word being read.
    pub word: Option<usize>,
    /// Delimiter and content start of the literal being read.
    pub quote: Option<(char, usize)>,
    /// The previous character was the first half of a doubled delimiter.
    pub skip: bool,
    /// Tokens emitted so far.
    pub out: Seq<Tok>,
}

pub open spec fn is_quote_char(c: char) -> bool {
    c == '\'' || c == '"'
}

pub open spec fn is_word(c: char) -> bool {
    is_alnum(c) || c == '_'
}

pub open spec fn scan_init() -> Scan {
    Scan { word: None, quote: None, skip: false, out: Seq::empty() }
}

/// Closes the word being read, if any, at `i`.
pub open spec fn close_word(st: Scan, i: int) -> Seq<Tok> {
    match st.word {
        Some(ws) => st.out.push(Tok { start: ws, end: i as usize, quoted: false }),
        None => st.out,
    }
}

/// The scanner's move on character `i` of `s`.
///
/// Inside a literal only its delimiter matters, and a doubled delimiter is an
/// escaped one (WQL's rule). Outside, a quote opens a literal, a word character
/// extends the current word, and anything else ends it.
pub open spec fn step(s: Seq<char>, i: int, st: Scan) -> Scan {
    let c = s[i];
    match st.quote {
        Some((delim, qs)) => {
            if st.skip {
                Scan { word: st.word, quote: st.quote, skip: false, out: st.out }
            } else if c == delim {
                if i + 1 < s.len() && s[i + 1] == delim {
                    Scan { word: st.word, quote: st.quote, skip: true, out: st.out }
                } else {
                    Scan {
                        word: st.word,
                        quote: None,
                        skip: false,
                        out: st.out.push(Tok { start: qs, end: i as usize, quoted: true }),
                    }
                }
            } else {
                st
            }
        },
        None => {
            if is_quote_char(c) {
                Scan { word: None, quote: Some((c, (i + 1) as usize)), skip: false, out: close_word(st, i) }
            } else if is_word(c) {
                match st.word {
                    Some(_) => st,
                    None => Scan { word: Some(i as usize), quote: None, skip: false, out: st.out },
                }
            } else {
                Scan { word: None, quote: None, skip: false, out: close_word(st, i) }
            }
        },
    }
}

/// The state after the first `k` characters.
pub open spec fn scan_upto(s: Seq<char>, k: int) -> Scan
    decreases k,
{
    if k <= 0 {
        scan_init()
    } else {
        step(s, k - 1, scan_upto(s, k - 1))
    }
}

/// The tokens once the text runs out: an open word or an unterminated literal
/// runs to the end -- a query being typed, whose terminator is not guessed.
pub open spec fn finish(s: Seq<char>, st: Scan) -> Seq<Tok> {
    let out = close_word(st, s.len() as int);
    match st.quote {
        Some((_, qs)) => out.push(Tok { start: qs, end: s.len() as usize, quoted: true }),
        None => out,
    }
}

/// The tokens of `s`.
pub open spec fn spec_tokens(s: Seq<char>) -> Seq<Tok> {
    finish(s, scan_upto(s, s.len() as int))
}

/// A token lies inside the text.
pub open spec fn tok_ok(t: Tok, n: int) -> bool {
    t.start <= t.end && t.end <= n
}

pub open spec fn toks_ok(toks: Seq<Tok>, n: int) -> bool {
    forall|k: int| 0 <= k < toks.len() ==> tok_ok(#[trigger] toks[k], n)
}

/// What the scanner keeps true after `k` characters.
pub open spec fn scan_ok(st: Scan, k: int) -> bool {
    &&& toks_ok(st.out, k)
    &&& (st.word matches Some(ws) ==> ws < k && st.quote is None)
    &&& (st.quote matches Some((d, qs)) ==> qs <= k && is_quote_char(d))
    &&& (st.skip ==> st.quote is Some)
}

proof fn lemma_toks_ok_weaken(toks: Seq<Tok>, a: int, b: int)
    requires
        toks_ok(toks, a),
        a <= b,
    ensures
        toks_ok(toks, b),
{
}

pub proof fn lemma_scan_ok(s: Seq<char>, k: int)
    requires
        0 <= k <= s.len(),
        s.len() <= usize::MAX,
    ensures
        scan_ok(scan_upto(s, k), k),
    decreases k,
{
    if k > 0 {
        lemma_scan_ok(s, k - 1);
        let st = scan_upto(s, k - 1);
        lemma_toks_ok_weaken(st.out, k - 1, k);
    }
}

/// Every token lies inside the text.
pub proof fn lemma_tokens_ok(s: Seq<char>)
    requires
        s.len() <= usize::MAX,
    ensures
        toks_ok(spec_tokens(s), s.len() as int),
{
    lemma_scan_ok(s, s.len() as int);
    lemma_toks_ok_weaken(scan_upto(s, s.len() as int).out, s.len() as int, s.len() as int);
}

/// Scan `wql` into word and literal tokens.
///
/// A token's `start` and `end` count characters (Unicode scalar values) of
/// the text, not bytes: on text with non-ASCII characters they differ from
/// the byte offsets that `str::char_indices` gives.
///
/// A doubled delimiter inside a literal is an escaped quote, which is WQL's
/// rule. An unterminated literal runs to the end of the text: that is a query
/// being typed, and guessing a terminator for it would move the tokens around
/// under the caret.
pub fn tokens(wql: &str) -> (toks: Vec<Tok>)
    ensures
        toks@ == spec_tokens(wql@),
        toks_ok(toks@, wql@.len() as int),
        tok_laws(wql@, toks@),
        forall|p: int| 0 <= p < wql@.len() && in_code(wql@, p) && #[trigger] is_word(wql@[p]) ==> covered(toks@, p),
{
    let cs = chars_of(wql);
    let n = cs.len();
    let mut out: Vec<Tok> = Vec::new();
    let mut word: Option<usize> = None;
    let mut quote: Option<(char, usize)> = None;
    let mut skip = false;
    let mut i: usize = 0;
    while i < n
        invariant
            n == cs@.len(),
            cs@ == wql@,
            i <= n,
            scan_upto(cs@, i as int) == (Scan { word, quote, skip, out: out@ }),
        decreases n - i,
    {
        let c = cs[i];
        let ghost before = Scan { word, quote, skip, out: out@ };
        proof {
            lemma_scan_ok(cs@, i as int);
        }
        match quote {
            Some((delim, qs)) => {
                if skip {
                    skip = false;
                } else if c == delim {
                    if i + 1 < n && cs[i + 1] == delim {
                        skip = true;
                    } else {
                        out.push(Tok { start: qs, end: i, quoted: true });
                        quote = None;
                    }
                }
            },
            None => {
                if c == '\'' || c == '"' {
                    if let Some(ws) = word {
                        out.push(Tok { start: ws, end: i, quoted: false });
                    }
                    word = None;
                    quote = Some((c, i + 1));
                    skip = false;
                } else if is_ascii_alnum(c) || c == '_' {
                    if word.is_none() {
                        word = Some(i);
                    }
                } else {
                    if let Some(ws) = word {
                        out.push(Tok { start: ws, end: i, quoted: false });
                    }
                    word = None;
                }
            },
        }
        assert(scan_upto(cs@, i + 1) == step(cs@, i as int, before));
        assert((Scan { word, quote, skip, out: out@ }) == step(cs@, i as int, before));
        i += 1;
    }
    if let Some(ws) = word {
        out.push(Tok { start: ws, end: n, quoted: false });
    }
    if let Some((_, qs)) = quote {
        out.push(Tok { start: qs, end: n, quoted: true });
    }
    proof {
        lemma_tokens_ok(wql@);
        lemma_token_laws(wql@);
    }
    out
}

// ---------------------------------------------------------------------------
// What the tokens are
// ---------------------------------------------------------------------------

/// Every character of `s` in `[a, b)` is a word character.
pub open spec fn word_run(s: Seq<char>, a: int, b: int) -> bool {
    forall|p: int| a <= p < b ==> #[trigger] is_word(s[p])
}

/// Position `p` is outside every string literal: the scanner reaches it
/// with no literal open.
pub open spec fn in_code(s: Seq<char>, p: int) -> bool {
    scan_upto(s, p).quote is None
}

/// Some word token holds position `p`.
pub open spec fn covered(toks: Seq<Tok>, p: int) -> bool {
    exists|t: int| 0 <= t < toks.len() && !(#[trigger] toks[t]).quoted && toks[t].start <= p < toks[t].end
}

/// The shape of a token list over `s`: tokens in order, each ending before
/// the next starts; a word token a non-empty run of word characters; a
/// literal's contents just after its opening quote.
pub open spec fn tok_laws(s: Seq<char>, toks: Seq<Tok>) -> bool {
    &&& forall|i: int, j: int| 0 <= i < j < toks.len() ==> (#[trigger] toks[i]).end < (#[trigger] toks[j]).start
    &&& forall|i: int|
        0 <= i < toks.len() && !(#[trigger] toks[i]).quoted ==> toks[i].start < toks[i].end && word_run(
            s,
            toks[i].start as int,
            toks[i].end as int,
        )
    &&& forall|i: int|
        0 <= i < toks.len() && (#[trigger] toks[i]).quoted ==> toks[i].start >= 1 && is_quote_char(
            s[toks[i].start - 1],
        )
}

/// Every token of `toks` ends before `bound`.
pub open spec fn ends_before(toks: Seq<Tok>, bound: int) -> bool {
    forall|i: int| 0 <= i < toks.len() ==> (#[trigger] toks[i]).end < bound
}

/// What the scan keeps true of the tokens after `k` characters.
pub open spec fn scan_laws(s: Seq<char>, st: Scan, k: int) -> bool {
    &&& tok_laws(s, st.out)
    &&& ends_before(st.out, k)
    &&& (st.word matches Some(ws) ==> ws < k && word_run(s, ws as int, k) && ends_before(st.out, ws as int))
    &&& (st.quote matches Some((d, qs)) ==> 1 <= qs <= k && s[qs - 1] == d && ends_before(st.out, qs as int))
    &&& forall|p: int|
        0 <= p < k && in_code(s, p) && #[trigger] is_word(s[p]) ==> covered(st.out, p) || (st.word matches Some(
            ws,
        ) && ws <= p)
}

proof fn lemma_covered_push(toks: Seq<Tok>, t: Tok, p: int)
    requires
        covered(toks, p),
    ensures
        covered(toks.push(t), p),
{
    let w = choose|w: int| 0 <= w < toks.len() && !(#[trigger] toks[w]).quoted && toks[w].start <= p < toks[w].end;
    assert(toks.push(t)[w] == toks[w]);
}

proof fn lemma_push_laws(s: Seq<char>, toks: Seq<Tok>, t: Tok)
    requires
        tok_laws(s, toks),
        ends_before(toks, t.start as int),
        !t.quoted ==> t.start < t.end && word_run(s, t.start as int, t.end as int),
        t.quoted ==> t.start >= 1 && is_quote_char(s[t.start - 1]),
    ensures
        tok_laws(s, toks.push(t)),
{
    let u = toks.push(t);
    assert forall|i: int, j: int| 0 <= i < j < u.len() implies (#[trigger] u[i]).end < (#[trigger] u[j]).start by {
        if j == toks.len() {
            assert(u[i] == toks[i]);
        } else {
            assert(u[i] == toks[i] && u[j] == toks[j]);
        }
    }
    assert forall|i: int| 0 <= i < u.len() && !(#[trigger] u[i]).quoted implies u[i].start < u[i].end && word_run(
        s,
        u[i].start as int,
        u[i].end as int,
    ) by {
        if i < toks.len() {
            assert(u[i] == toks[i]);
        }
    }
    assert forall|i: int| 0 <= i < u.len() && (#[trigger] u[i]).quoted implies u[i].start >= 1 && is_quote_char(
        s[u[i].start - 1],
    ) by {
        if i < toks.len() {
            assert(u[i] == toks[i]);
        }
    }
}

proof fn lemma_scan_laws(s: Seq<char>, k: int)
    requires
        0 <= k <= s.len(),
        s.len() <= usize::MAX,
    ensures
        scan_laws(s, scan_upto(s, k), k),
    decreases k,
{
    if k > 0 {
        let i = k - 1;
        lemma_scan_laws(s, i);
        lemma_scan_ok(s, i);
        let st = scan_upto(s, i);
        let nx = scan_upto(s, k);
        assert(nx == step(s, i, st));
        let c = s[i];
        match st.quote {
            Some((d, qs)) => {
                if !st.skip && c == d && !(i + 1 < s.len() && s[i + 1] == d) {
                    let t = Tok { start: qs, end: i as usize, quoted: true };
                    lemma_push_laws(s, st.out, t);
                    assert forall|p: int| 0 <= p < k && in_code(s, p) && #[trigger] is_word(s[p]) implies covered(
                        nx.out,
                        p,
                    ) || (nx.word matches Some(ws) && ws <= p) by {
                        if p < i {
                            lemma_covered_push(st.out, t, p);
                        }
                    }
                    assert(ends_before(nx.out, k)) by {
                        assert forall|j: int| 0 <= j < nx.out.len() implies (#[trigger] nx.out[j]).end < k by {
                            if j < st.out.len() {
                                assert(nx.out[j] == st.out[j]);
                            }
                        }
                    }
                } else {
                    assert(nx.out == st.out);
                }
            },
            None => {
                let closed = close_word(st, i);
                match st.word {
                    Some(ws) => {
                        if !is_word(c) {
                            let t = Tok { start: ws, end: i as usize, quoted: false };
                            lemma_push_laws(s, st.out, t);
                            assert(closed == st.out.push(t));
                            assert forall|p: int|
                                0 <= p < k && in_code(s, p) && #[trigger] is_word(s[p]) implies covered(nx.out, p) || (
                                nx.word matches Some(w) && w <= p) by {
                                if p < i {
                                    if covered(st.out, p) {
                                        lemma_covered_push(st.out, t, p);
                                    } else {
                                        assert(nx.out[st.out.len() as int] == t);
                                    }
                                }
                            }
                            assert forall|j: int| 0 <= j < nx.out.len() implies (#[trigger] nx.out[j]).end < k by {
                                if j < st.out.len() {
                                    assert(nx.out[j] == st.out[j]);
                                }
                            }
                            assert forall|j: int| 0 <= j < nx.out.len() implies (#[trigger] nx.out[j]).end < i + 1 by {
                                if j < st.out.len() {
                                    assert(nx.out[j] == st.out[j]);
                                }
                            }
                        }
                    },
                    None => {
                        assert(closed == st.out);
                    },
                }
            },
        }
    }
}

/// The tokens are in order, each ending before the next starts; a word
/// token is a non-empty run of word characters; a literal's contents start
/// just after a quote; and every word character outside a literal lies in a
/// word token.
pub proof fn lemma_token_laws(s: Seq<char>)
    requires
        s.len() <= usize::MAX,
    ensures
        tok_laws(s, spec_tokens(s)),
        forall|p: int| 0 <= p < s.len() && in_code(s, p) && #[trigger] is_word(s[p]) ==> covered(spec_tokens(s), p),
{
    let n = s.len() as int;
    lemma_scan_laws(s, n);
    lemma_scan_ok(s, n);
    let st = scan_upto(s, n);
    let out = close_word(st, n);
    match st.word {
        Some(ws) => {
            let t = Tok { start: ws, end: n as usize, quoted: false };
            lemma_push_laws(s, st.out, t);
            assert forall|p: int| 0 <= p < n && in_code(s, p) && #[trigger] is_word(s[p]) implies covered(out, p) by {
                if covered(st.out, p) {
                    lemma_covered_push(st.out, t, p);
                } else {
                    assert(out[st.out.len() as int] == t);
                }
            }
        },
        None => {},
    }
    match st.quote {
        Some((d, qs)) => {
            let t = Tok { start: qs, end: n as usize, quoted: true };
            assert(out == st.out);
            lemma_push_laws(s, out, t);
            assert forall|p: int| 0 <= p < n && in_code(s, p) && #[trigger] is_word(s[p]) implies covered(
                out.push(t),
                p,
            ) by {
                lemma_covered_push(out, t, p);
            }
        },
        None => {},
    }
}

// ---------------------------------------------------------------------------
// Keywords
// ---------------------------------------------------------------------------

/// The text of a token.
pub open spec fn tok_seq(s: Seq<char>, t: Tok) -> Seq<char> {
    s.subrange(t.start as int, t.end as int)
}

/// An unquoted token spelling `kw`, whatever its ASCII case.
pub open spec fn is_kw(s: Seq<char>, t: Tok, kw: Seq<char>) -> bool {
    !t.quoted && eq_ic(tok_seq(s, t), kw)
}

/// The first keyword token at or after `k`.
pub open spec fn kw_from(s: Seq<char>, toks: Seq<Tok>, kw: Seq<char>, k: int) -> Option<int>
    decreases toks.len() - k,
{
    if k < 0 || k >= toks.len() {
        None
    } else if is_kw(s, toks[k], kw) {
        Some(k)
    } else {
        kw_from(s, toks, kw, k + 1)
    }
}

/// Index of the first unquoted token matching `kw`, case-insensitively.
pub open spec fn keyword_index(s: Seq<char>, toks: Seq<Tok>, kw: Seq<char>) -> Option<int> {
    kw_from(s, toks, kw, 0)
}

/// The text of the token after `kw`, if there is one.
pub open spec fn after_kw(s: Seq<char>, toks: Seq<Tok>, kw: Seq<char>) -> Option<Seq<char>> {
    match keyword_index(s, toks, kw) {
        Some(at) => if at + 1 < toks.len() {
            Some(tok_seq(s, toks[at + 1]))
        } else {
            None
        },
        None => None,
    }
}

pub proof fn lemma_kw_from_range(s: Seq<char>, toks: Seq<Tok>, kw: Seq<char>, k: int)
    ensures
        kw_from(s, toks, kw, k) matches Some(at) ==> k <= at < toks.len() && is_kw(s, toks[at], kw),
    decreases toks.len() - k,
{
    if 0 <= k < toks.len() && !is_kw(s, toks[k], kw) {
        lemma_kw_from_range(s, toks, kw, k + 1);
    }
}

/// The text of `tok`.
pub fn tok_text<'a>(wql: &'a str, tok: &Tok) -> (r: &'a str)
    requires
        tok_ok(*tok, wql@.len() as int),
    ensures
        r@ == tok_seq(wql@, *tok),
{
    wql.substring_char(tok.start, tok.end)
}

/// Index of the unquoted token matching `keyword`, case-insensitively.
pub fn keyword_at(wql: &str, toks: &[Tok], keyword: &str) -> (r: Option<usize>)
    requires
        toks_ok(toks@, wql@.len() as int),
    ensures
        r == (match keyword_index(wql@, toks@, keyword@) {
            Some(at) => Some(at as usize),
            None => None,
        }),
{
    let mut i: usize = 0;
    while i < toks.len()
        invariant
            toks_ok(toks@, wql@.len() as int),
            i <= toks@.len(),
            keyword_index(wql@, toks@, keyword@) == kw_from(wql@, toks@, keyword@, i as int),
        decreases toks.len() - i,
    {
        let t = toks[i];
        assert(tok_ok(toks@[i as int], wql@.len() as int));
        let text = tok_text(wql, &t);
        if !t.quoted && str_eq_ignore_case(text, keyword) {
            return Some(i);
        }
        i += 1;
    }
    None
}

/// The token after `keyword`, if there is one.
pub fn after_keyword<'a>(wql: &'a str, toks: &[Tok], keyword: &str) -> (r: Option<&'a str>)
    requires
        toks_ok(toks@, wql@.len() as int),
    ensures
        r matches Some(t) ==> after_kw(wql@, toks@, keyword@) == Some(t@),
        r is None ==> after_kw(wql@, toks@, keyword@) is None,
{
    proof {
        lemma_kw_from_range(wql@, toks@, keyword@, 0);
    }
    let at = match keyword_at(wql, toks, keyword) {
        Some(at) => at,
        None => return None,
    };
    assert(at < toks.len());
    if at < toks.len() - 1 {
        let t = toks[at + 1];
        assert(tok_ok(toks@[at + 1], wql@.len() as int));
        Some(tok_text(wql, &t))
    } else {
        None
    }
}

} // verus!

verus! {

// ---------------------------------------------------------------------------
// What a query subscribes to
// ---------------------------------------------------------------------------

/// The event class a notification query subscribes to: the token after `FROM`.
pub open spec fn event_class_spec(s: Seq<char>) -> Option<Seq<char>> {
    match after_kw(s, spec_tokens(s), "from"@) {
        Some(c) => if c.len() > 0 { Some(c) } else { None },
        None => None,
    }
}

/// The class an `ISA` clause narrows the subscription to.
pub open spec fn watched_class_spec(s: Seq<char>) -> Option<Seq<char>> {
    match after_kw(s, spec_tokens(s), "isa"@) {
        Some(c) => if c.len() > 0 { Some(c) } else { None },
        None => None,
    }
}

/// The polling interval the query already carries: the number after `WITHIN`.
pub open spec fn within_spec(s: Seq<char>) -> Option<u32> {
    match after_kw(s, spec_tokens(s), "within"@) {
        Some(t) => parse_u32_spec(t),
        None => None,
    }
}

/// The row's class column: the watched class if the query names one, else the
/// event class itself, else nothing.
pub open spec fn subject_spec(s: Seq<char>) -> Seq<char> {
    match watched_class_spec(s) {
        Some(c) => c,
        None => match event_class_spec(s) {
            Some(c) => c,
            None => Seq::empty(),
        },
    }
}

/// Two queries scan to the same tokens: as many, each of the same kind and
/// spelling -- what re-spacing a query between its tokens leaves alone.
pub open spec fn same_tokens(s: Seq<char>, t: Seq<char>) -> bool {
    let a = spec_tokens(s);
    let b = spec_tokens(t);
    &&& a.len() == b.len()
    &&& forall|k: int| 0 <= k < a.len() ==> (#[trigger] a[k]).quoted == b[k].quoted && tok_seq(s, a[k]) == tok_seq(t, b[k])
}

proof fn lemma_kw_from_same(s: Seq<char>, t: Seq<char>, kw: Seq<char>, k: int)
    requires
        same_tokens(s, t),
    ensures
        kw_from(s, spec_tokens(s), kw, k) == kw_from(t, spec_tokens(t), kw, k),
    decreases spec_tokens(s).len() - k,
{
    let a = spec_tokens(s);
    if 0 <= k < a.len() {
        assert(a[k].quoted == spec_tokens(t)[k].quoted);
        lemma_kw_from_same(s, t, kw, k + 1);
    }
}

proof fn lemma_after_kw_same(s: Seq<char>, t: Seq<char>, kw: Seq<char>)
    requires
        same_tokens(s, t),
    ensures
        after_kw(s, spec_tokens(s), kw) == after_kw(t, spec_tokens(t), kw),
{
    lemma_kw_from_same(s, t, kw, 0);
    match keyword_index(s, spec_tokens(s), kw) {
        Some(at) => {
            lemma_kw_from_range(s, spec_tokens(s), kw, 0);
            if at + 1 < spec_tokens(s).len() {
                assert(spec_tokens(s)[at + 1].quoted == spec_tokens(t)[at + 1].quoted);
            }
        },
        None => {},
    }
}

/// Two queries with the same tokens read the same: the same event class,
/// watched class, interval and subject.
pub proof fn lemma_same_tokens_read_the_same(s: Seq<char>, t: Seq<char>)
    requires
        same_tokens(s, t),
    ensures
        event_class_spec(s) == event_class_spec(t),
        watched_class_spec(s) == watched_class_spec(t),
        within_spec(s) == within_spec(t),
        subject_spec(s) == subject_spec(t),
{
    lemma_after_kw_same(s, t, "from"@);
    lemma_after_kw_same(s, t, "isa"@);
    lemma_after_kw_same(s, t, "within"@);
}

/// Having the same tokens is an equivalence: taking a space out again, or
/// re-spacing twice, still leaves the tokens as they were.
pub proof fn lemma_same_tokens_equivalence(s: Seq<char>, t: Seq<char>, u: Seq<char>)
    ensures
        same_tokens(s, s),
        same_tokens(s, t) ==> same_tokens(t, s),
        same_tokens(s, t) && same_tokens(t, u) ==> same_tokens(s, u),
{
    if same_tokens(s, t) && same_tokens(t, u) {
        assert forall|k: int| 0 <= k < spec_tokens(s).len() implies (#[trigger] spec_tokens(s)[k]).quoted
            == spec_tokens(u)[k].quoted && tok_seq(s, spec_tokens(s)[k]) == tok_seq(u, spec_tokens(u)[k]) by {
            assert(spec_tokens(t)[k].quoted == spec_tokens(u)[k].quoted);
        }
    }
    if same_tokens(s, t) {
        assert forall|k: int| 0 <= k < spec_tokens(t).len() implies (#[trigger] spec_tokens(t)[k]).quoted
            == spec_tokens(s)[k].quoted && tok_seq(t, spec_tokens(t)[k]) == tok_seq(s, spec_tokens(s)[k]) by {
            assert(spec_tokens(s)[k].quoted == spec_tokens(t)[k].quoted);
        }
    }
}

/// A start position after a character inserted at `p`.
pub open spec fn sh_start(p: int, x: usize) -> usize {
    if x >= p { (x + 1) as usize } else { x }
}

/// An end position after a character inserted at `p`: a word that ended at
/// `p` still ends there.
pub open spec fn sh_end(p: int, x: usize) -> usize {
    if x > p { (x + 1) as usize } else { x }
}

pub open spec fn sh_tok(p: int, tk: Tok) -> Tok {
    Tok { start: sh_start(p, tk.start), end: sh_end(p, tk.end), quoted: tk.quoted }
}

pub open spec fn sh_toks(p: int, toks: Seq<Tok>) -> Seq<Tok> {
    toks.map_values(|tk: Tok| sh_tok(p, tk))
}

pub open spec fn sh_scan(p: int, st: Scan) -> Scan {
    Scan {
        word: match st.word {
            Some(ws) => Some(sh_start(p, ws)),
            None => None,
        },
        quote: match st.quote {
            Some((d, qs)) => Some((d, sh_start(p, qs))),
            None => None,
        },
        skip: st.skip,
        out: sh_toks(p, st.out),
    }
}

/// A token wholly before `p` or wholly after it.
pub open spec fn unsplit(p: int, tk: Tok) -> bool {
    (tk.end <= p && tk.start < p) || (tk.start >= p && tk.end > p)
}

pub open spec fn all_unsplit(p: int, toks: Seq<Tok>) -> bool {
    forall|k: int| 0 <= k < toks.len() ==> unsplit(p, #[trigger] toks[k])
}

proof fn lemma_sh_push(p: int, toks: Seq<Tok>, tk: Tok)
    ensures
        sh_toks(p, toks.push(tk)) == sh_toks(p, toks).push(sh_tok(p, tk)),
{
    assert(sh_toks(p, toks.push(tk)) =~= sh_toks(p, toks).push(sh_tok(p, tk)));
}

proof fn lemma_unsplit_push(p: int, toks: Seq<Tok>, tk: Tok)
    requires
        all_unsplit(p, toks),
        unsplit(p, tk),
    ensures
        all_unsplit(p, toks.push(tk)),
{
    assert forall|k: int| 0 <= k < toks.push(tk).len() implies unsplit(p, #[trigger] toks.push(tk)[k]) by {
        if k < toks.len() {
            assert(toks.push(tk)[k] == toks[k]);
        }
    }
}

/// One step of the scan past the insertion point: reading character `q` of
/// `s` is reading character `q + 1` of `t`, positions shifted.
proof fn lemma_step_shift(s: Seq<char>, t: Seq<char>, p: int, q: int, st: Scan)
    requires
        0 <= p <= q < s.len(),
        s.len() + 1 <= usize::MAX,
        t.len() == s.len() + 1,
        forall|x: int| p <= x < s.len() ==> #[trigger] t[x + 1] == s[x],
        scan_ok(st, q),
        all_unsplit(p, st.out),
        st.word matches Some(ws) ==> ws >= p,
        st.quote matches Some((_, qs)) ==> qs > p,
        q == p ==> st.word is None && st.quote is None,
    ensures
        step(t, q + 1, sh_scan(p, st)) == sh_scan(p, step(s, q, st)),
        all_unsplit(p, step(s, q, st).out),
        step(s, q, st).word matches Some(ws) ==> ws >= p,
        step(s, q, st).quote matches Some((_, qs)) ==> qs > p,
{
    let c = s[q];
    assert(t[q + 1] == c);
    if q + 1 < s.len() {
        assert(t[q + 2] == s[q + 1]);
    }
    let nx = step(s, q, st);
    match st.quote {
        Some((d, qs)) => {
            if !st.skip && c == d && !(q + 1 < s.len() && s[q + 1] == d) {
                let tk = Tok { start: qs, end: q as usize, quoted: true };
                lemma_sh_push(p, st.out, tk);
                lemma_unsplit_push(p, st.out, tk);
            }
        },
        None => {
            if let Some(ws) = st.word {
                let tk = Tok { start: ws, end: q as usize, quoted: false };
                lemma_sh_push(p, st.out, tk);
                lemma_unsplit_push(p, st.out, tk);
            }
        },
    }
    assert(step(t, q + 1, sh_scan(p, st)).out =~= sh_scan(p, nx).out);
}

/// From the insertion point on, the scan of `t` is the scan of `s` shifted.
proof fn lemma_scan_shift(s: Seq<char>, t: Seq<char>, p: int, base: int, q: int)
    requires
        0 <= p <= base <= q <= s.len(),
        base <= p + 1,
        s.len() + 1 <= usize::MAX,
        t.len() == s.len() + 1,
        forall|x: int| p <= x < s.len() ==> #[trigger] t[x + 1] == s[x],
        scan_upto(t, base + 1) == sh_scan(p, scan_upto(s, base)),
        all_unsplit(p, scan_upto(s, base).out),
        scan_upto(s, base).word matches Some(ws) ==> ws >= p,
        scan_upto(s, base).quote matches Some((_, qs)) ==> qs > p,
        base == p ==> scan_upto(s, base).word is None && scan_upto(s, base).quote is None,
    ensures
        scan_upto(t, q + 1) == sh_scan(p, scan_upto(s, q)),
        all_unsplit(p, scan_upto(s, q).out),
        scan_upto(s, q).word matches Some(ws) ==> ws >= p,
        scan_upto(s, q).quote matches Some((_, qs)) ==> qs > p,
    decreases q - base,
{
    if q > base {
        lemma_scan_shift(s, t, p, base, q - 1);
        lemma_scan_ok(s, q - 1);
        lemma_step_shift(s, t, p, q - 1, scan_upto(s, q - 1));
    }
}

/// Putting a character that is neither a word character nor a quote (a
/// space, a line break) between two tokens of a query, outside every
/// literal and not inside a word, leaves its tokens as they were.
pub proof fn lemma_space_between_tokens(s: Seq<char>, p: int, w: char)
    requires
        0 <= p <= s.len(),
        s.len() + 1 <= usize::MAX,
        crate::text::is_ws(w) || (!is_word(w) && !is_quote_char(w)),
        in_code(s, p),
        p == s.len() || !is_word(s[p]) || scan_upto(s, p).word is None,
    ensures
        same_tokens(s, s.take(p) + seq![w] + s.skip(p)),
{
    let t = s.take(p) + seq![w] + s.skip(p);
    assert(t.len() == s.len() + 1);
    assert forall|x: int| p <= x < s.len() implies #[trigger] t[x + 1] == s[x] by {
        assert(t[x + 1] == s.skip(p)[x - p]);
    }
    assert forall|x: int| 0 <= x < p implies #[trigger] t[x] == s[x] by {
        assert(t[x] == s.take(p)[x]);
    }
    // Up to the insertion point the two scan alike.
    let sp = scan_upto(s, p);
    if p > 0 {
        assert(s.take(p) =~= t.take(p));
        lemma_scan_prefix(s, t, p, p - 1);
        let st = scan_upto(s, p - 1);
        lemma_scan_ok(s, p - 1);
        assert(t[p - 1] == s[p - 1]);
        if let Some((d, _)) = st.quote {
            if !st.skip && s[p - 1] == d && p < s.len() && s[p] == d {
                assert(scan_upto(s, p) == step(s, p - 1, st));
                assert(scan_upto(s, p).quote is Some);
            }
            assert(t[p] == w);
        }
        lemma_step_same(s, t, p - 1, st);
        assert(scan_upto(t, p) == step(t, p - 1, st));
    }
    assert(scan_upto(t, p) == sp);
    lemma_scan_ok(s, p);
    lemma_scan_laws(s, p);
    assert(t[p] == w);
    let tp1 = step(t, p, sp);
    assert(scan_upto(t, p + 1) == tp1);
    // Everything read before `p` lies before it.
    assert(all_unsplit(p, sp.out)) by {
        assert forall|k: int| 0 <= k < sp.out.len() implies unsplit(p, #[trigger] sp.out[k]) by {
            assert(tok_ok(sp.out[k], p as int));
        }
    }
    assert(sh_toks(p, sp.out) =~= sp.out) by {
        assert forall|k: int| 0 <= k < sp.out.len() implies sh_toks(p, sp.out)[k] == sp.out[k] by {
            assert(tok_ok(sp.out[k], p as int));
        }
    }
    let base: int;
    match sp.word {
        None => {
            assert(tp1 == sh_scan(p, sp));
            base = p;
        },
        Some(ws) => {
            let tk = Tok { start: ws, end: p as usize, quoted: false };
            assert(tp1.out == sp.out.push(tk));
            lemma_sh_push(p, sp.out, tk);
            lemma_unsplit_push(p, sp.out, tk);
            if p < s.len() {
                // The word ends at `p` in both: at the inserted character in
                // `t`, at the character after it in `s`.
                let sp1 = scan_upto(s, p + 1);
                assert(sp1 == step(s, p, sp));
                assert(t[p + 1] == s[p]);
                if p + 1 < s.len() {
                    assert(t[p + 2] == s[p + 1]);
                }
                assert(scan_upto(t, p + 2) == step(t, p + 1, tp1));
                assert(step(t, p + 1, tp1).out =~= sh_scan(p, sp1).out);
                assert(scan_upto(t, p + 2) == sh_scan(p, sp1));
                base = p + 1;
            } else {
                base = p;
            }
        },
    }
    if sp.word is Some && p == s.len() {
        // The word in progress ends at the end of `s` and at the inserted
        // character of `t`: the same token.
        let tk = Tok { start: sp.word.unwrap(), end: p as usize, quoted: false };
        assert(spec_tokens(s) == sp.out.push(tk));
        assert(spec_tokens(t) == finish(t, tp1));
        assert(spec_tokens(t) == sp.out.push(tk));
        assert(spec_tokens(t) =~= sh_toks(p, spec_tokens(s)));
        lemma_unsplit_push(p, sp.out, tk);
    } else {
        lemma_scan_shift(s, t, p, base, s.len() as int);
        let sn = scan_upto(s, s.len() as int);
        lemma_scan_ok(s, s.len() as int);
        assert(scan_upto(t, t.len() as int) == sh_scan(p, sn));
        let cw = close_word(sn, s.len() as int);
        match sn.word {
            Some(ws) => {
                let tk = Tok { start: ws, end: s.len() as usize, quoted: false };
                lemma_sh_push(p, sn.out, tk);
                lemma_unsplit_push(p, sn.out, tk);
            },
            None => {},
        }
        assert(close_word(sh_scan(p, sn), t.len() as int) == sh_toks(p, cw));
        match sn.quote {
            Some((d, qs)) => {
                let tk = Tok { start: qs, end: s.len() as usize, quoted: true };
                lemma_sh_push(p, cw, tk);
                lemma_unsplit_push(p, cw, tk);
            },
            None => {},
        }
        assert(spec_tokens(t) == sh_toks(p, spec_tokens(s)));
    }
    // Each token reads the same text in both.
    let a = spec_tokens(s);
    let b = spec_tokens(t);
    lemma_tokens_ok(s);
    assert(all_unsplit(p, a));
    assert forall|k: int| 0 <= k < a.len() implies (#[trigger] a[k]).quoted == b[k].quoted && tok_seq(s, a[k]) == tok_seq(
        t,
        b[k],
    ) by {
        let tk = a[k];
        assert(b[k] == sh_tok(p, tk));
        assert(tok_ok(tk, s.len() as int));
        if tk.end <= p && tk.start < p {
            assert(tok_seq(t, b[k]) =~= tok_seq(s, tk));
        } else {
            assert(tok_seq(t, b[k]) =~= tok_seq(s, tk));
        }
    }
}

/// `t` is `s` with one whitespace character (a space, a tab, a line break)
/// put in between its tokens: outside every literal and not inside a word.
pub open spec fn space_put(s: Seq<char>, t: Seq<char>) -> bool {
    exists|p: int, w: char|
        #![trigger s.take(p), crate::text::is_ws(w)]
        0 <= p <= s.len() && crate::text::is_ws(w) && in_code(s, p) && (p == s.len() || !is_word(s[p])
            || scan_upto(s, p).word is None) && t == s.take(p) + seq![w] + s.skip(p)
}

/// One step of re-spacing: a whitespace character put in between tokens,
/// or one such taken out.
pub open spec fn one_respacing(s: Seq<char>, t: Seq<char>) -> bool {
    (s.len() + 1 <= usize::MAX && space_put(s, t)) || (t.len() + 1 <= usize::MAX && space_put(t, s))
}

/// `texts` runs from its first text to its last by re-spacing, one
/// whitespace character in or out at a time.
pub open spec fn respacing(texts: Seq<Seq<char>>) -> bool {
    &&& texts.len() >= 1
    &&& forall|i: int| 0 <= i < texts.len() - 1 ==> one_respacing(#[trigger] texts[i], texts[i + 1])
}

proof fn lemma_one_respacing(s: Seq<char>, t: Seq<char>)
    requires
        one_respacing(s, t),
    ensures
        same_tokens(s, t),
{
    if s.len() + 1 <= usize::MAX && space_put(s, t) {
        let (p, w) = choose|p: int, w: char|
            #![trigger s.take(p), crate::text::is_ws(w)]
            0 <= p <= s.len() && crate::text::is_ws(w) && in_code(s, p) && (p == s.len() || !is_word(s[p])
                || scan_upto(s, p).word is None) && t == s.take(p) + seq![w] + s.skip(p);
        lemma_space_between_tokens(s, p, w);
    } else {
        let (p, w) = choose|p: int, w: char|
            #![trigger t.take(p), crate::text::is_ws(w)]
            0 <= p <= t.len() && crate::text::is_ws(w) && in_code(t, p) && (p == t.len() || !is_word(t[p])
                || scan_upto(t, p).word is None) && s == t.take(p) + seq![w] + t.skip(p);
        lemma_space_between_tokens(t, p, w);
        lemma_same_tokens_equivalence(t, s, s);
    }
}

/// Re-spacing a query -- putting whitespace in between its tokens or taking
/// it out, any number of times, outside its literals and never inside a
/// word -- leaves its tokens as they were.
pub proof fn lemma_respacing_keeps_tokens(texts: Seq<Seq<char>>)
    requires
        respacing(texts),
    ensures
        same_tokens(texts[0], texts[texts.len() - 1]),
    decreases texts.len(),
{
    if texts.len() == 1 {
        lemma_same_tokens_equivalence(texts[0], texts[0], texts[0]);
    } else {
        let front = texts.drop_last();
        assert forall|i: int| 0 <= i < front.len() - 1 implies one_respacing(#[trigger] front[i], front[i + 1]) by {
            assert(front[i] == texts[i] && front[i + 1] == texts[i + 1]);
            assert(one_respacing(texts[i], texts[i + 1]));
        }
        lemma_respacing_keeps_tokens(front);
        let n = texts.len() - 1;
        assert(one_respacing(texts[n - 1], texts[n]));
        lemma_one_respacing(texts[n - 1], texts[n]);
        lemma_same_tokens_equivalence(texts[0], texts[n - 1], texts[n]);
    }
}

/// One of WMI's intrinsic event classes -- `__Instance*Event`, `__Class*Event`,
/// `__Namespace*Event` -- the ones synthesised by polling, to which a `WITHIN`
/// applies. `__ExtrinsicEvent` is explicitly not one despite its name.
pub open spec fn intrinsic_spec(class: Seq<char>) -> bool {
    let c = lower_seq(class);
    &&& c != "__extrinsicevent"@
    &&& ends(c, "event"@)
    &&& (starts(c, "__instance"@) || starts(c, "__class"@) || starts(c, "__namespace"@))
}

/// The intrinsic classes are the three families `__Instance*Event`,
/// `__Class*Event` and `__Namespace*Event`, whatever their ASCII case: a class
/// of any of them is intrinsic, and an intrinsic class is in one of them.
pub proof fn lemma_intrinsic_families(class: Seq<char>)
    ensures
        starts(lower_seq(class), "__instance"@) && ends(lower_seq(class), "event"@) ==> intrinsic_spec(class),
        starts(lower_seq(class), "__class"@) && ends(lower_seq(class), "event"@) ==> intrinsic_spec(class),
        starts(lower_seq(class), "__namespace"@) && ends(lower_seq(class), "event"@) ==> intrinsic_spec(class),
        intrinsic_spec(class) ==> ends(lower_seq(class), "event"@) && (starts(lower_seq(class), "__instance"@)
            || starts(lower_seq(class), "__class"@) || starts(lower_seq(class), "__namespace"@)),
        !intrinsic_spec("__ExtrinsicEvent"@),
{
    let c = lower_seq(class);
    reveal_strlit("__extrinsicevent");
    reveal_strlit("__instance");
    reveal_strlit("__class");
    reveal_strlit("__namespace");
    reveal_strlit("__ExtrinsicEvent");
    if c == "__extrinsicevent"@ {
        assert(c[2] == 'e');
        if starts(c, "__instance"@) {
            assert(c.subrange(0, 10)[2] == 'i');
        }
        if starts(c, "__class"@) {
            assert(c.subrange(0, 7)[2] == 'c');
        }
        if starts(c, "__namespace"@) {
            assert(c.subrange(0, 11)[2] == 'n');
        }
    }
    assert(lower_seq("__ExtrinsicEvent"@) =~= "__extrinsicevent"@);
}

/// A polling interval can be written into the query.
pub open spec fn accepts_within_spec(s: Seq<char>) -> bool {
    within_spec(s) is Some || (event_class_spec(s) matches Some(c) && intrinsic_spec(c))
}

/// The event class a notification query subscribes to.
pub fn event_class_of(wql: &str) -> (r: Option<&str>)
    ensures
        r matches Some(c) ==> event_class_spec(wql@) == Some(c@),
        r is None ==> event_class_spec(wql@) is None,
{
    let toks = tokens(wql);
    match after_keyword(wql, toks.as_slice(), "from") {
        Some(c) => if c.is_empty() { None } else { Some(c) },
        None => None,
    }
}

/// The class an `ISA` clause narrows the subscription to.
pub fn watched_class_of(wql: &str) -> (r: Option<&str>)
    ensures
        r matches Some(c) ==> watched_class_spec(wql@) == Some(c@),
        r is None ==> watched_class_spec(wql@) is None,
{
    let toks = tokens(wql);
    match after_keyword(wql, toks.as_slice(), "isa") {
        Some(c) => if c.is_empty() { None } else { Some(c) },
        None => None,
    }
}

/// What the row's class column should say for this query.
pub fn subject_of(wql: &str) -> (r: String)
    ensures
        r@ == subject_spec(wql@),
{
    match watched_class_of(wql) {
        Some(c) => c.to_owned(),
        None => match event_class_of(wql) {
            Some(c) => c.to_owned(),
            None => String::new(),
        },
    }
}

/// The polling interval a query already carries.
pub fn within_of(wql: &str) -> (r: Option<u32>)
    ensures
        r == within_spec(wql@),
{
    let toks = tokens(wql);
    match after_keyword(wql, toks.as_slice(), "within") {
        Some(t) => {
            let cs = chars_of(t);
            parse_u32(cs.as_slice())
        },
        None => None,
    }
}

/// Is this one of WMI's intrinsic event classes?
pub fn is_intrinsic(class: &str) -> (r: bool)
    ensures
        r == intrinsic_spec(class@),
{
    let cs = chars_of(class);
    let mut c: Vec<char> = Vec::new();
    let mut i: usize = 0;
    while i < cs.len()
        invariant
            i <= cs@.len(),
            cs@ == class@,
            c@ == lower_seq(cs@).take(i as int),
        decreases cs.len() - i,
    {
        c.push(ascii_lower(cs[i]));
        assert(c@ =~= lower_seq(cs@).take(i + 1));
        i += 1;
    }
    assert(c@ =~= lower_seq(class@));
    let extrinsic = chars_of("__extrinsicevent");
    if c.len() == extrinsic.len() && matches_at(c.as_slice(), extrinsic.as_slice(), 0) {
        assert(c@ =~= c@.subrange(0, extrinsic@.len() as int));
        return false;
    }
    proof {
        if c@ == "__extrinsicevent"@ {
            assert(c@.subrange(0, extrinsic@.len() as int) =~= c@);
        }
    }
    let event = chars_of("event");
    if !ends_with(c.as_slice(), event.as_slice()) {
        return false;
    }
    let instance = chars_of("__instance");
    let class_ = chars_of("__class");
    let namespace = chars_of("__namespace");
    starts_with(c.as_slice(), instance.as_slice()) || starts_with(c.as_slice(), class_.as_slice())
        || starts_with(c.as_slice(), namespace.as_slice())
}

/// Can a polling interval be written into this query?
///
/// Either it already has one -- in which case the field edits what is there --
/// or the query subscribes to an intrinsic class, where `WITHIN` is required.
pub fn accepts_within(wql: &str) -> (r: bool)
    ensures
        r == accepts_within_spec(wql@),
{
    if within_of(wql).is_some() {
        return true;
    }
    match event_class_of(wql) {
        Some(c) => is_intrinsic(c),
        None => false,
    }
}

} // verus!

verus! {

// ---------------------------------------------------------------------------
// Writing the polling interval
// ---------------------------------------------------------------------------

/// The token after `WITHIN` is a number that can be rewritten in place.
pub open spec fn within_number_follows(s: Seq<char>, toks: Seq<Tok>, at: int) -> bool {
    at + 1 < toks.len() && !toks[at + 1].quoted && parse_u32_spec(tok_seq(s, toks[at + 1])) is Some
}

/// `s` with `secs` written into its `WITHIN` clause.
///
/// * a `WITHIN` followed by a number: the number is replaced;
/// * a `WITHIN` with nothing usable after it: the number is put right after it;
/// * no `WITHIN`: the clause goes straight after the event class -- the token
///   after `FROM` -- and so before any `WHERE`;
/// * neither `WITHIN` nor a class after `FROM`: `s` is left as it is.
pub open spec fn inject_spec(s: Seq<char>, secs: u32) -> Seq<char> {
    let toks = spec_tokens(s);
    let n = s.len() as int;
    match keyword_index(s, toks, "within"@) {
        Some(at) => if within_number_follows(s, toks, at) {
            let next = toks[at + 1];
            s.subrange(0, next.start as int) + dec(secs as nat) + s.subrange(next.end as int, n)
        } else {
            let end = toks[at].end as int;
            s.subrange(0, end) + seq![' '] + dec(secs as nat) + s.subrange(end, n)
        },
        None => match keyword_index(s, toks, "from"@) {
            Some(from) => if from + 1 < toks.len() {
                let end = toks[from + 1].end as int;
                s.subrange(0, end) + " WITHIN "@ + dec(secs as nat) + s.subrange(end, n)
            } else {
                s
            },
            None => s,
        },
    }
}

/// Write `secs` into `wql`'s `WITHIN` clause, adding the clause if it is absent.
pub fn inject_within(wql: &str, secs: u32) -> (r: String)
    ensures
        r@ == inject_spec(wql@, secs),
{
    let toks = tokens(wql);
    let cs = chars_of(wql);
    let n = cs.len();
    let digits = decimal(secs as u64);
    proof {
        lemma_kw_from_range(wql@, toks@, "within"@, 0);
        lemma_kw_from_range(wql@, toks@, "from"@, 0);
    }
    if let Some(at) = keyword_at(wql, toks.as_slice(), "within") {
        assert(at < toks.len());
        assert(tok_ok(toks@[at as int], n as int));
        if at < toks.len() - 1 {
            let next = toks[at + 1];
            assert(tok_ok(toks@[at + 1], n as int));
            let text = tok_text(wql, &next);
            let text_chars = chars_of(text);
            if !next.quoted && parse_u32(text_chars.as_slice()).is_some() {
                let mut out = slice_chars(cs.as_slice(), 0, next.start);
                extend_chars(&mut out, digits.as_slice());
                let tail = slice_chars(cs.as_slice(), next.end, n);
                extend_chars(&mut out, tail.as_slice());
                return string_of(out.as_slice());
            }
        }
        let end = toks[at].end;
        let mut out = slice_chars(cs.as_slice(), 0, end);
        out.push(' ');
        extend_chars(&mut out, digits.as_slice());
        let tail = slice_chars(cs.as_slice(), end, n);
        extend_chars(&mut out, tail.as_slice());
        return string_of(out.as_slice());
    }
    let from = match keyword_at(wql, toks.as_slice(), "from") {
        Some(from) => from,
        None => return wql.to_owned(),
    };
    assert(from < toks.len());
    if from < toks.len() - 1 {
        let end = toks[from + 1].end;
        assert(tok_ok(toks@[from + 1], n as int));
        let mut out = slice_chars(cs.as_slice(), 0, end);
        let clause = chars_of(" WITHIN ");
        extend_chars(&mut out, clause.as_slice());
        extend_chars(&mut out, digits.as_slice());
        let tail = slice_chars(cs.as_slice(), end, n);
        extend_chars(&mut out, tail.as_slice());
        string_of(out.as_slice())
    } else {
        wql.to_owned()
    }
}

/// What the "Delivery" stat says about this query.
pub open spec fn delivery_note_spec(s: Seq<char>) -> Seq<char> {
    match event_class_spec(s) {
        None => "\u{2014}"@,
        Some(class) => if intrinsic_spec(class) {
            match within_spec(s) {
                Some(secs) => "polled / "@ + dec(secs as nat) + " s"@,
                None => "polled"@,
            }
        } else {
            "pushed"@
        },
    }
}

/// What the "Delivery" stat says about this query: polled (with its interval
/// when it has one), pushed, or an em dash when there is no class to judge.
pub fn delivery_note(wql: &str) -> (r: String)
    ensures
        r@ == delivery_note_spec(wql@),
{
    let class = match event_class_of(wql) {
        Some(c) => c,
        None => return "\u{2014}".to_owned(),
    };
    if is_intrinsic(class) {
        match within_of(wql) {
            Some(secs) => {
                let mut out = chars_of("polled / ");
                let digits = decimal(secs as u64);
                extend_chars(&mut out, digits.as_slice());
                let unit = chars_of(" s");
                extend_chars(&mut out, unit.as_slice());
                string_of(out.as_slice())
            },
            None => "polled".to_owned(),
        }
    } else {
        "pushed".to_owned()
    }
}

} // verus!

verus! {

// ---------------------------------------------------------------------------
// How the scanner's output grows
// ---------------------------------------------------------------------------

/// One step emits at most one token, and that token ends where the step is.
proof fn lemma_step_out(s: Seq<char>, i: int, st: Scan)
    requires
        0 <= i < s.len(),
        s.len() <= usize::MAX,
    ensures
        step(s, i, st).out == st.out || (step(s, i, st).out.len() == st.out.len() + 1
            && step(s, i, st).out.take(st.out.len() as int) == st.out
            && step(s, i, st).out.last().end == i),
{
    let r = step(s, i, st);
    if r.out != st.out {
        assert(r.out.take(st.out.len() as int) =~= st.out);
    }
}

/// What the scanner has emitted after `j` characters is a prefix of what it
/// has emitted after `k`, and everything emitted in between ends in between.
pub proof fn lemma_out_grows(s: Seq<char>, j: int, k: int)
    requires
        0 <= j <= k <= s.len(),
        s.len() <= usize::MAX,
    ensures
        scan_upto(s, j).out.len() <= scan_upto(s, k).out.len(),
        scan_upto(s, k).out.len() <= scan_upto(s, j).out.len() + (k - j),
        scan_upto(s, k).out.take(scan_upto(s, j).out.len() as int) == scan_upto(s, j).out,
        forall|m: int|
            scan_upto(s, j).out.len() <= m < scan_upto(s, k).out.len() ==> j <= #[trigger] scan_upto(
                s,
                k,
            ).out[m].end < k,
    decreases k - j,
{
    if k > j {
        lemma_out_grows(s, j, k - 1);
        let a = scan_upto(s, j).out;
        let b = scan_upto(s, k - 1).out;
        let c = scan_upto(s, k).out;
        lemma_step_out(s, k - 1, scan_upto(s, k - 1));
        if c != b {
            assert(c.take(a.len() as int) =~= b.take(a.len() as int));
            assert forall|m: int| a.len() <= m < c.len() implies j <= #[trigger] c[m].end < k by {
                if m < b.len() {
                    assert(c[m] == c.take(b.len() as int)[m]);
                }
            }
        } else {
            assert(c.take(a.len() as int) == b.take(a.len() as int));
        }
    } else {
        assert(scan_upto(s, k).out.take(scan_upto(s, j).out.len() as int) =~= scan_upto(s, j).out);
    }
}

/// The finished token list extends what the scanner emitted by the end, by
/// at most one token, which ends at the end.
pub proof fn lemma_finish_out(s: Seq<char>)
    requires
        s.len() <= usize::MAX,
    ensures
        spec_tokens(s).take(scan_upto(s, s.len() as int).out.len() as int) == scan_upto(
            s,
            s.len() as int,
        ).out,
        spec_tokens(s).len() <= scan_upto(s, s.len() as int).out.len() + 1,
        scan_upto(s, s.len() as int).out.len() <= spec_tokens(s).len(),
        forall|m: int|
            scan_upto(s, s.len() as int).out.len() <= m < spec_tokens(s).len() ==> #[trigger] spec_tokens(
                s,
            )[m].end == s.len(),
{
    let n = s.len() as int;
    let st = scan_upto(s, n);
    lemma_scan_ok(s, n);
    let toks = spec_tokens(s);
    assert(toks.take(st.out.len() as int) =~= st.out);
}

/// Every token the scanner has emitted after `j` characters ends before `j`.
pub proof fn lemma_out_ends_before(s: Seq<char>, j: int)
    requires
        0 <= j <= s.len(),
        s.len() <= usize::MAX,
    ensures
        forall|m: int| 0 <= m < scan_upto(s, j).out.len() ==> #[trigger] scan_upto(s, j).out[m].end < j,
{
    lemma_out_grows(s, 0, j);
}

/// Every finished token the scanner had not emitted after `j` characters
/// ends at or after `j`.
pub proof fn lemma_rest_ends_after(s: Seq<char>, j: int)
    requires
        0 <= j <= s.len(),
        s.len() <= usize::MAX,
    ensures
        scan_upto(s, j).out.len() <= spec_tokens(s).len(),
        spec_tokens(s).take(scan_upto(s, j).out.len() as int) == scan_upto(s, j).out,
        forall|m: int|
            scan_upto(s, j).out.len() <= m < spec_tokens(s).len() ==> #[trigger] spec_tokens(s)[m].end
                >= j,
{
    let n = s.len() as int;
    lemma_out_grows(s, j, n);
    lemma_finish_out(s);
    let a = scan_upto(s, j).out;
    let b = scan_upto(s, n).out;
    let toks = spec_tokens(s);
    assert(toks.take(a.len() as int) =~= b.take(a.len() as int));
    assert forall|m: int| a.len() <= m < toks.len() implies #[trigger] toks[m].end >= j by {
        if m < b.len() {
            assert(toks[m] == b[m]);
        }
    }
}

// ---------------------------------------------------------------------------
// Where a word token came from
// ---------------------------------------------------------------------------

/// A word being read began at a position where nothing was being read, and
/// nothing has been emitted since.
pub proof fn lemma_word_began(s: Seq<char>, j: int)
    requires
        0 <= j <= s.len(),
        s.len() <= usize::MAX,
        scan_upto(s, j).word is Some,
    ensures
        ({
            let w = scan_upto(s, j).word.unwrap() as int;
            &&& 0 <= w < j
            &&& scan_upto(s, w).word is None
            &&& scan_upto(s, w).quote is None
            &&& !scan_upto(s, w).skip
            &&& scan_upto(s, w).out == scan_upto(s, j).out
            &&& is_word(s[w])
        }),
    decreases j,
{
    lemma_scan_ok(s, j);
    if j > 0 {
        let prev = scan_upto(s, j - 1);
        lemma_scan_ok(s, j - 1);
        if prev.word is Some {
            lemma_word_began(s, j - 1);
        }
    }
}

/// An unquoted token was being read, with nothing else pending, right up to
/// the position where it ends; and what had been emitted by then is exactly
/// the tokens before it.
pub proof fn lemma_word_token(s: Seq<char>, f: int)
    requires
        s.len() <= usize::MAX,
        0 <= f < spec_tokens(s).len(),
        !spec_tokens(s)[f].quoted,
    ensures
        ({
            let t = spec_tokens(s)[f];
            let st = scan_upto(s, t.end as int);
            &&& t.end <= s.len()
            &&& st.out == spec_tokens(s).take(f)
            &&& st.word == Some(t.start)
            &&& st.quote is None
            &&& !st.skip
            &&& (t.end < s.len() ==> !is_word(s[t.end as int]))
        }),
{
    let n = s.len() as int;
    let toks = spec_tokens(s);
    let t = toks[f];
    lemma_tokens_ok(s);
    assert(tok_ok(toks[f], n));
    let e = t.end as int;
    let st = scan_upto(s, e);
    lemma_scan_ok(s, e);
    lemma_out_ends_before(s, e);
    lemma_rest_ends_after(s, e);
    if f < st.out.len() {
        assert(toks[f] == toks.take(st.out.len() as int)[f]);
        assert(st.out[f].end < e);
    }
    if e < n {
        lemma_rest_ends_after(s, e + 1);
        lemma_out_grows(s, e, e + 1);
        let nx = scan_upto(s, e + 1);
        assert(f < nx.out.len());
        assert(f == st.out.len());
        assert(nx.out[f] == toks[f]) by {
            assert(toks.take(nx.out.len() as int)[f] == toks[f]);
        }
        assert(nx == step(s, e, st));
        assert(st.out =~= toks.take(f)) by {
            assert forall|m: int| 0 <= m < f implies st.out[m] == toks[m] by {
                assert(toks.take(st.out.len() as int)[m] == toks[m]);
            }
        }
    } else {
        lemma_finish_out(s);
        assert(f == st.out.len());
        assert(st.out =~= toks.take(f)) by {
            assert forall|m: int| 0 <= m < f implies st.out[m] == toks[m] by {
                assert(toks.take(st.out.len() as int)[m] == toks[m]);
            }
        }
    }
}

} // verus!

verus! {

// ---------------------------------------------------------------------------
// Scanning two texts that agree on a prefix
// ---------------------------------------------------------------------------

/// One step reads the character it is on and, inside a literal on its
/// delimiter, whether the next one doubles it.
proof fn lemma_step_same(s: Seq<char>, t: Seq<char>, i: int, st: Scan)
    requires
        0 <= i < s.len(),
        i < t.len(),
        s[i] == t[i],
        st.quote matches Some((d, _)) ==> (!st.skip && s[i] == d ==> ((i + 1 < s.len() && s[i + 1] == d)
            == (i + 1 < t.len() && t[i + 1] == d))),
    ensures
        step(s, i, st) == step(t, i, st),
{
}

/// Two texts that agree on their first `k` characters scan alike through
/// the first `k - 1` of them.
pub proof fn lemma_scan_prefix(s: Seq<char>, t: Seq<char>, k: int, j: int)
    requires
        0 <= j < k,
        k <= s.len(),
        k <= t.len(),
        s.take(k) == t.take(k),
    ensures
        scan_upto(s, j) == scan_upto(t, j),
    decreases j,
{
    if j > 0 {
        lemma_scan_prefix(s, t, k, j - 1);
        assert(s[j - 1] == s.take(k)[j - 1]);
        assert(t[j - 1] == t.take(k)[j - 1]);
        assert(s[j] == s.take(k)[j]);
        assert(t[j] == t.take(k)[j]);
        lemma_step_same(s, t, j - 1, scan_upto(s, j - 1));
    }
}

/// Reading a run of word characters with no literal open: the word in
/// progress carries on, or starts at the run, and nothing is emitted.
pub proof fn lemma_scan_word_run(t: Seq<char>, a: int, b: int)
    requires
        0 <= a <= b <= t.len(),
        t.len() <= usize::MAX,
        scan_upto(t, a).quote is None,
        !scan_upto(t, a).skip,
        forall|i: int| a <= i < b ==> is_word(#[trigger] t[i]),
    ensures
        scan_upto(t, b).quote is None,
        !scan_upto(t, b).skip,
        scan_upto(t, b).out == scan_upto(t, a).out,
        scan_upto(t, b).word == (if scan_upto(t, a).word is Some {
            scan_upto(t, a).word
        } else if a < b {
            Some(a as usize)
        } else {
            None
        }),
    decreases b - a,
{
    if b > a {
        lemma_scan_word_run(t, a, b - 1);
        assert(is_word(t[b - 1]));
        assert(!is_quote_char(t[b - 1]));
    }
}

/// The first keyword match is the same in two token lists whose first `len`
/// tokens match the keyword alike, when one of those tokens matches in `s`.
proof fn lemma_kw_from_agree(
    s: Seq<char>,
    a: Seq<Tok>,
    t: Seq<char>,
    b: Seq<Tok>,
    kw: Seq<char>,
    k: int,
    len: int,
)
    requires
        0 <= k <= len,
        len <= a.len(),
        len <= b.len(),
        forall|m: int| 0 <= m < len ==> is_kw(s, #[trigger] a[m], kw) == is_kw(t, b[m], kw),
    ensures
        (kw_from(s, a, kw, k) matches Some(x) && x < len) ==> kw_from(t, b, kw, k) == kw_from(s, a, kw, k),
        (forall|m: int| k <= m < len ==> !is_kw(s, #[trigger] a[m], kw)) ==> kw_from(t, b, kw, k)
            == kw_from(t, b, kw, len),
    decreases len - k,
{
    lemma_kw_from_range(s, a, kw, k);
    if k < len {
        assert(is_kw(s, a[k], kw) == is_kw(t, b[k], kw));
        lemma_kw_from_agree(s, a, t, b, kw, k + 1, len);
        lemma_kw_from_range(s, a, kw, k + 1);
    }
}

/// A token that ends by `p` reads the same in two texts that agree on their
/// first `p` characters.
proof fn lemma_tok_text_prefix(s: Seq<char>, t: Seq<char>, p: int, tok: Tok)
    requires
        tok.start <= tok.end <= p,
        p <= s.len(),
        p <= t.len(),
        s.take(p) == t.take(p),
    ensures
        tok_seq(s, tok) == tok_seq(t, tok),
{
    assert forall|i: int| 0 <= i < tok.end - tok.start implies tok_seq(s, tok)[i] == tok_seq(t, tok)[i] by {
        assert(s[tok.start + i] == s.take(p)[tok.start + i]);
        assert(t[tok.start + i] == t.take(p)[tok.start + i]);
    }
    assert(tok_seq(s, tok) =~= tok_seq(t, tok));
}

pub open spec fn pow10(k: nat) -> nat
    decreases k,
{
    if k == 0 { 1 } else { 10 * pow10((k - 1) as nat) }
}

proof fn lemma_dec_len(n: nat, k: nat)
    requires
        k >= 1,
        n < pow10(k),
    ensures
        dec(n).len() <= k,
    decreases k,
{
    if n >= 10 {
        assert(k >= 2) by {
            if k == 1 {
                assert(pow10(1) == 10 * pow10(0));
            }
        }
        assert(n / 10 < pow10((k - 1) as nat)) by (nonlinear_arith)
            requires
                n < pow10(k),
                pow10(k) == 10 * pow10((k - 1) as nat),
        ;
        lemma_dec_len(n / 10, (k - 1) as nat);
    }
}

/// A `u32` is at most ten digits long.
proof fn lemma_u32_dec_len(n: u32)
    ensures
        dec(n as nat).len() <= 10,
{
    reveal_with_fuel(pow10, 11);
    assert(pow10(10) == 10000000000);
    lemma_dec_len(n as nat, 10);
}

/// The characters of a decimal number are word characters.
proof fn lemma_dec_is_word(n: nat)
    ensures
        forall|i: int| 0 <= i < dec(n).len() ==> is_word(#[trigger] dec(n)[i]),
        dec(n).len() > 0,
{
    crate::text::lemma_dec_digits(n);
}

} // verus!

verus! {

// ---------------------------------------------------------------------------
// Reading back a written interval
// ---------------------------------------------------------------------------

/// No token from `k` on matches when the search from `k` finds none.
proof fn lemma_kw_from_none(s: Seq<char>, toks: Seq<Tok>, kw: Seq<char>, k: int)
    requires
        0 <= k,
        kw_from(s, toks, kw, k) is None,
    ensures
        forall|m: int| k <= m < toks.len() ==> !is_kw(s, #[trigger] toks[m], kw),
    decreases toks.len() - k,
{
    if k < toks.len() {
        lemma_kw_from_none(s, toks, kw, k + 1);
    }
}

/// A number read from `a` to `b` with nothing open before it and a
/// non-word character (or the end) after it becomes the next token.
proof fn lemma_number_token(t: Seq<char>, a: int, b: int, secs: u32)
    requires
        0 <= a,
        b == a + dec(secs as nat).len(),
        b <= t.len(),
        t.len() <= usize::MAX,
        t.subrange(a, b) == dec(secs as nat),
        scan_upto(t, a).word is None,
        scan_upto(t, a).quote is None,
        !scan_upto(t, a).skip,
        b < t.len() ==> !is_word(t[b]),
    ensures
        scan_upto(t, a).out.len() + 1 <= spec_tokens(t).len(),
        spec_tokens(t).take((scan_upto(t, a).out.len() + 1) as int) == scan_upto(t, a).out.push(
            Tok { start: a as usize, end: b as usize, quoted: false },
        ),
{
    let d = dec(secs as nat);
    lemma_dec_is_word(secs as nat);
    assert forall|i: int| a <= i < b implies is_word(#[trigger] t[i]) by {
        assert(t[i] == t.subrange(a, b)[i - a]);
    }
    lemma_scan_word_run(t, a, b);
    let st = scan_upto(t, b);
    let tok = Tok { start: a as usize, end: b as usize, quoted: false };
    if b < t.len() {
        let nx = scan_upto(t, b + 1);
        assert(nx == step(t, b, st));
        assert(nx.out == st.out.push(tok));
        lemma_rest_ends_after(t, b + 1);
    } else {
        assert(spec_tokens(t) == st.out.push(tok));
        assert(spec_tokens(t).take((st.out.len() + 1) as int) =~= st.out.push(tok));
    }
}

/// The state of two texts that agree before `e`, at `e`, when `s` is reading
/// a word there.
proof fn lemma_scan_to_word_end(s: Seq<char>, t: Seq<char>, e: int)
    requires
        0 < e < t.len(),
        e <= s.len(),
        s.len() <= usize::MAX,
        s.take(e) == t.take(e),
        scan_upto(s, e).word is Some,
    ensures
        scan_upto(t, e) == scan_upto(s, e),
{
    lemma_scan_prefix(s, t, e, e - 1);
    lemma_scan_ok(s, e - 1);
    let prev = scan_upto(s, e - 1);
    assert(s[e - 1] == s.take(e)[e - 1]);
    assert(t[e - 1] == t.take(e)[e - 1]);
    lemma_step_same(s, t, e - 1, prev);
}

/// The tokens before `k`, ending by `p`, match a keyword alike in two texts
/// that agree on their first `p` characters.
proof fn lemma_prefix_tokens_agree(s: Seq<char>, t: Seq<char>, toks: Seq<Tok>, p: int, k: int, kw: Seq<char>)
    requires
        p <= s.len(),
        p <= t.len(),
        s.take(p) == t.take(p),
        k <= toks.len(),
        forall|m: int| 0 <= m < k ==> (#[trigger] toks[m]).start <= toks[m].end <= p,
    ensures
        forall|m: int| 0 <= m < k ==> is_kw(s, #[trigger] toks[m], kw) == is_kw(t, toks[m], kw),
{
    assert forall|m: int| 0 <= m < k implies is_kw(s, #[trigger] toks[m], kw) == is_kw(t, toks[m], kw) by {
        lemma_tok_text_prefix(s, t, p, toks[m]);
    }
}

/// `WITHIN` reads as the keyword `within`.
proof fn lemma_within_word()
    ensures
        eq_ic("WITHIN"@, "within"@),
        "WITHIN"@.len() == 6,
        " WITHIN "@.len() == 8,
        forall|i: int| 0 <= i < 6 ==> is_word(#[trigger] "WITHIN"@[i]),
        " WITHIN "@ == seq![' '] + "WITHIN"@ + seq![' '],
        " WITHIN "@[0] == ' ',
        " WITHIN "@[7] == ' ',
        forall|i: int| 1 <= i < 7 ==> #[trigger] " WITHIN "@[i] == "WITHIN"@[i - 1],
{
    reveal_strlit("WITHIN");
    reveal_strlit("within");
    reveal_strlit(" WITHIN ");
    assert(" WITHIN "@ =~= seq![' '] + "WITHIN"@ + seq![' ']);
    let up = "WITHIN"@;
    let lo = "within"@;
    assert(('W' as u32) == 87 && ('w' as u32) == 119);
    assert(('I' as u32) == 73 && ('i' as u32) == 105);
    assert(('T' as u32) == 84 && ('t' as u32) == 116);
    assert(('H' as u32) == 72 && ('h' as u32) == 104);
    assert(('N' as u32) == 78 && ('n' as u32) == 110);
    assert(lower('W') == 'w');
    assert(lower('I') == 'i');
    assert(lower('T') == 't');
    assert(lower('H') == 'h');
    assert(lower('N') == 'n');
    assert(lower('w') == 'w');
    assert(lower('i') == 'i');
    assert(lower('t') == 't');
    assert(lower('h') == 'h');
    assert(lower('n') == 'n');
    assert(lower_seq(up) =~= lower_seq(lo));
}

} // verus!

verus! {

/// The query has somewhere to write an interval that reads back: a `WITHIN`
/// keyword, or an unquoted class token after `FROM` to put one behind.
pub open spec fn within_writable(s: Seq<char>) -> bool {
    let toks = spec_tokens(s);
    ||| keyword_index(s, toks, "within"@) is Some
    ||| (keyword_index(s, toks, "from"@) matches Some(f) && f + 1 < toks.len() && !toks[f + 1].quoted)
}

/// Case one: the number after `WITHIN` is replaced.
proof fn lemma_read_back_replaced(s: Seq<char>, secs: u32, at: int)
    requires
        s.len() + 20 <= usize::MAX,
        keyword_index(s, spec_tokens(s), "within"@) == Some(at),
        within_number_follows(s, spec_tokens(s), at),
    ensures
        within_spec(inject_spec(s, secs)) == Some(secs),
{
    let toks = spec_tokens(s);
    let n = s.len() as int;
    let d = dec(secs as nat);
    lemma_dec_is_word(secs as nat);
    lemma_u32_dec_len(secs);
    lemma_kw_from_range(s, toks, "within"@, 0);
    let next = toks[at + 1];
    let p = next.start as int;
    let q = next.end as int;
    let t = s.subrange(0, p) + d + s.subrange(q, n);
    assert(inject_spec(s, secs) == t);
    lemma_word_token(s, at + 1);
    let stq = scan_upto(s, q);
    lemma_word_began(s, q);
    let stp = scan_upto(s, p);
    assert(stp.out == toks.take(at + 1));
    assert(p < q);
    let b = p + d.len();
    assert(t.take(p) =~= s.take(p));
    assert(t.subrange(p, b) =~= d);
    assert(t.len() == b + (n - q));
    // The scan of `t` reaches `p` in the state `s` was in there.
    if p > 0 {
        lemma_scan_prefix(s, t, p, p - 1);
        lemma_scan_ok(s, p - 1);
        assert(s[p - 1] == s.take(p)[p - 1]);
        assert(t[p - 1] == t.take(p)[p - 1]);
        assert(t[p] == d[0]);
        lemma_step_same(s, t, p - 1, scan_upto(s, p - 1));
    }
    assert(scan_upto(t, p) == stp);
    if q < n {
        assert(t[b] == s[q]);
    }
    lemma_number_token(t, p, b, secs);
    let tt = spec_tokens(t);
    let tok = Tok { start: p as usize, end: b as usize, quoted: false };
    assert(tt.take(at + 2) == toks.take(at + 1).push(tok));
    // The tokens before the number read alike in both texts.
    lemma_out_ends_before(s, p);
    assert forall|m: int| 0 <= m < at + 1 implies (#[trigger] tt[m]).start <= tt[m].end <= p by {
        assert(tt[m] == tt.take(at + 2)[m]);
        assert(tt[m] == stp.out[m]);
        lemma_tokens_ok(s);
        assert(toks.take(at + 1)[m] == toks[m]);
        assert(tok_ok(toks[m], n));
    }
    assert forall|m: int| 0 <= m < at + 1 implies is_kw(s, #[trigger] toks[m], "within"@) == is_kw(
        s,
        tt[m],
        "within"@,
    ) by {
        assert(tt[m] == tt.take(at + 2)[m]);
        assert(toks[m] == toks.take(at + 1)[m]);
    }
    lemma_prefix_tokens_agree(s, t, tt, p, at + 1, "within"@);
    lemma_kw_from_agree(s, toks, t, tt, "within"@, 0, at + 1);
    assert(keyword_index(t, tt, "within"@) == Some(at));
    assert(tt.take(at + 2)[at + 1] == tt[at + 1]);
    assert(tt[at + 1] == tok);
    assert(tok_seq(t, tok) == d);
    crate::text::lemma_parse_dec(secs);
}

} // verus!

verus! {

/// The text `s` with `m` put in at `e`, and how its characters line up.
proof fn lemma_insert_layout(s: Seq<char>, e: int, m: Seq<char>)
    requires
        0 <= e <= s.len(),
    ensures
        ({
            let t = s.subrange(0, e) + m + s.subrange(e, s.len() as int);
            &&& t.len() == s.len() + m.len()
            &&& t.take(e) == s.take(e)
            &&& t.subrange(e, e + m.len()) == m
            &&& forall|i: int| 0 <= i < m.len() ==> t[e + i] == #[trigger] m[i]
            &&& forall|i: int| e <= i < s.len() ==> t[i + m.len()] == #[trigger] s[i]
        }),
{
    let t = s.subrange(0, e) + m + s.subrange(e, s.len() as int);
    assert(t.take(e) =~= s.take(e));
    assert(t.subrange(e, e + m.len()) =~= m);
}

/// Case two: a `WITHIN` with nothing usable after it gets the number put
/// straight behind it.
#[verifier::spinoff_prover]
proof fn lemma_read_back_after_keyword(s: Seq<char>, secs: u32, at: int)
    requires
        s.len() + 20 <= usize::MAX,
        keyword_index(s, spec_tokens(s), "within"@) == Some(at),
        !within_number_follows(s, spec_tokens(s), at),
    ensures
        within_spec(inject_spec(s, secs)) == Some(secs),
{
    let toks = spec_tokens(s);
    let n = s.len() as int;
    let d = dec(secs as nat);
    lemma_dec_is_word(secs as nat);
    lemma_u32_dec_len(secs);
    lemma_kw_from_range(s, toks, "within"@, 0);
    let kw = toks[at];
    let e = kw.end as int;
    let m = seq![' '] + d;
    let t = s.subrange(0, e) + m + s.subrange(e, n);
    lemma_word_token(s, at);
    assert(inject_spec(s, secs) =~= t);
    lemma_insert_layout(s, e, m);
    let ste = scan_upto(s, e);
    lemma_word_began(s, e);
    assert(e > 0);
    lemma_scan_to_word_end(s, t, e);
    // The space closes the keyword.
    assert(t[e] == m[0]);
    let st1 = scan_upto(t, e + 1);
    assert(st1 == step(t, e, ste));
    assert(st1.out == toks.take(at).push(kw));
    assert(toks.take(at).push(kw) =~= toks.take(at + 1));
    let a = e + 1;
    let b = a + d.len();
    assert(t.subrange(a, b) =~= d) by {
        assert forall|i: int| 0 <= i < d.len() implies t.subrange(a, b)[i] == d[i] by {
            assert(t[e + (1 + i)] == m[1 + i]);
        }
    }
    if e < n {
        assert(t[e + m.len()] == s[e]);
    }
    lemma_number_token(t, a, b, secs);
    let tt = spec_tokens(t);
    let tok = Tok { start: a as usize, end: b as usize, quoted: false };
    assert(tt.take(at + 2) == toks.take(at + 1).push(tok));
    lemma_out_ends_before(s, e);
    lemma_tokens_ok(s);
    assert forall|m2: int| 0 <= m2 < at + 1 implies (#[trigger] tt[m2]).start <= tt[m2].end <= e by {
        assert(tt[m2] == tt.take(at + 2)[m2]);
        assert(toks.take(at + 1)[m2] == toks[m2]);
        assert(tok_ok(toks[m2], n));
        if m2 < at {
            assert(toks[m2] == ste.out[m2]);
        }
    }
    assert forall|m2: int| 0 <= m2 < at + 1 implies is_kw(s, #[trigger] toks[m2], "within"@) == is_kw(
        s,
        tt[m2],
        "within"@,
    ) by {
        assert(tt[m2] == tt.take(at + 2)[m2]);
        assert(toks[m2] == toks.take(at + 1)[m2]);
    }
    lemma_prefix_tokens_agree(s, t, tt, e, at + 1, "within"@);
    lemma_kw_from_agree(s, toks, t, tt, "within"@, 0, at + 1);
    assert(keyword_index(t, tt, "within"@) == Some(at));
    assert(tt.take(at + 2)[at + 1] == tt[at + 1]);
    assert(tt[at + 1] == tok);
    crate::text::lemma_parse_dec(secs);
}

/// Case three: no `WITHIN`, so the clause goes straight behind the class.
#[verifier::spinoff_prover]
#[verifier::rlimit(80)]
proof fn lemma_read_back_after_class(s: Seq<char>, secs: u32, fr: int)
    requires
        s.len() + 20 <= usize::MAX,
        keyword_index(s, spec_tokens(s), "within"@) is None,
        keyword_index(s, spec_tokens(s), "from"@) == Some(fr),
        fr + 1 < spec_tokens(s).len(),
        !spec_tokens(s)[fr + 1].quoted,
    ensures
        within_spec(inject_spec(s, secs)) == Some(secs),
{
    let toks = spec_tokens(s);
    let n = s.len() as int;
    let d = dec(secs as nat);
    lemma_dec_is_word(secs as nat);
    lemma_u32_dec_len(secs);
    lemma_within_word();
    let word = "WITHIN"@;
    lemma_kw_from_range(s, toks, "from"@, 0);
    let f = fr + 1;
    let class = toks[f];
    let e = class.end as int;
    let m = " WITHIN "@ + d;
    let t = s.subrange(0, e) + m + s.subrange(e, n);
    lemma_word_token(s, f);
    assert(inject_spec(s, secs) =~= t);
    lemma_insert_layout(s, e, m);
    let ste = scan_upto(s, e);
    lemma_word_began(s, e);
    assert(e > 0);
    lemma_scan_to_word_end(s, t, e);
    let clause = " WITHIN "@;
    assert(m.len() == 8 + d.len());
    assert(m[0] == clause[0]);
    assert(m[7] == clause[7]);
    assert forall|i: int| 1 <= i < 7 implies m[i] == word[i - 1] by {
        assert(m[i] == clause[i]);
    }
    assert forall|i: int| 0 <= i < d.len() implies m[8 + i] == d[i] by {}
    // The space closes the class.
    assert(t[e] == ' ');
    let st1 = scan_upto(t, e + 1);
    assert(st1 == step(t, e, ste));
    assert(st1.out == toks.take(f).push(class));
    assert(toks.take(f).push(class) =~= toks.take(f + 1));
    // `WITHIN` is read as a word, and the next space closes it.
    assert forall|i: int| e + 1 <= i < e + 7 implies is_word(#[trigger] t[i]) by {
        assert(t[e + (i - e)] == m[i - e]);
        assert(m[i - e] == word[i - e - 1]);
    }
    lemma_scan_word_run(t, e + 1, e + 7);
    let st7 = scan_upto(t, e + 7);
    assert(t[e + 7] == m[7]);
    let st8 = scan_upto(t, e + 8);
    assert(st8 == step(t, e + 7, st7));
    let wtok = Tok { start: (e + 1) as usize, end: (e + 7) as usize, quoted: false };
    assert(st8.out == toks.take(f + 1).push(wtok));
    let a = e + 8;
    let b = a + d.len();
    assert(t.subrange(a, b) =~= d) by {
        assert forall|i: int| 0 <= i < d.len() implies t.subrange(a, b)[i] == d[i] by {
            assert(t[e + (8 + i)] == m[8 + i]);
        }
    }
    if e < n {
        assert(t[e + m.len()] == s[e]);
    }
    lemma_number_token(t, a, b, secs);
    let tt = spec_tokens(t);
    let tok = Tok { start: a as usize, end: b as usize, quoted: false };
    assert(tt.take(f + 3) == toks.take(f + 1).push(wtok).push(tok));
    // The tokens up to the class read as they did, and none was `within`.
    lemma_out_ends_before(s, e);
    lemma_tokens_ok(s);
    assert forall|m2: int| 0 <= m2 < f + 1 implies (#[trigger] tt[m2]).start <= tt[m2].end <= e by {
        assert(tt[m2] == tt.take(f + 3)[m2]);
        assert(toks.take(f + 1)[m2] == toks[m2]);
        assert(tok_ok(toks[m2], n));
        if m2 < f {
            assert(toks[m2] == ste.out[m2]);
        }
    }
    assert forall|m2: int| 0 <= m2 < f + 1 implies is_kw(s, #[trigger] toks[m2], "within"@) == is_kw(
        s,
        tt[m2],
        "within"@,
    ) by {
        assert(tt[m2] == tt.take(f + 3)[m2]);
        assert(toks[m2] == toks.take(f + 1)[m2]);
    }
    lemma_prefix_tokens_agree(s, t, tt, e, f + 1, "within"@);
    lemma_kw_from_none(s, toks, "within"@, 0);
    assert forall|m2: int| 0 <= m2 < f + 1 implies !is_kw(t, #[trigger] tt[m2], "within"@) by {
        assert(is_kw(s, toks[m2], "within"@) == is_kw(s, tt[m2], "within"@));
    }
    lemma_kw_from_agree(t, tt, t, tt, "within"@, 0, f + 1);
    assert(tt.take(f + 3)[f + 1] == tt[f + 1]);
    assert(tt[f + 1] == wtok);
    assert(tok_seq(t, wtok) =~= word) by {
        assert forall|i: int| 0 <= i < 6 implies tok_seq(t, wtok)[i] == word[i] by {
            assert(t[e + (1 + i)] == m[1 + i]);
        }
    }
    assert(is_kw(t, tt[f + 1], "within"@));
    assert(kw_from(t, tt, "within"@, f + 1) == Some(f + 1));
    assert(keyword_index(t, tt, "within"@) == Some(f + 1));
    assert(tt.take(f + 3)[f + 2] == tt[f + 2]);
    assert(tt[f + 2] == tok);
    crate::text::lemma_parse_dec(secs);
}

/// What a write gives back on a read: once `inject_within` has written an
/// interval into a query that has somewhere to put it -- a `WITHIN` clause,
/// or an unquoted event class after `FROM` -- `within_of` reads exactly that
/// interval back.
pub proof fn lemma_inject_then_read(s: Seq<char>, secs: u32)
    requires
        s.len() + 20 <= usize::MAX,
        within_writable(s),
    ensures
        within_spec(inject_spec(s, secs)) == Some(secs),
{
    let toks = spec_tokens(s);
    match keyword_index(s, toks, "within"@) {
        Some(at) => {
            if within_number_follows(s, toks, at) {
                lemma_read_back_replaced(s, secs, at);
            } else {
                lemma_read_back_after_keyword(s, secs, at);
            }
        },
        None => {
            let fr = keyword_index(s, toks, "from"@).unwrap();
            lemma_read_back_after_class(s, secs, fr);
        },
    }
}

} // verus!
