//! The syntax tinter behind the code panels: one line split into coloured runs.
//!
//! Deliberately small: it highlights to make structure readable at a glance,
//! not to parse. One pass, left to right, so a comment marker inside a string
//! stays part of the string and a quote inside a comment does not open one.

use vstd::prelude::*;
use crate::text::{
    chars_of, eq_ic, eq_ignore_case, is_digit, matches_at, occurs_at, slice_chars, string_of,
    chars_eq,
};

verus! {

/// Languages the tinter knows. Anything else renders as plain text.
#[derive(Clone, Copy, PartialEq, Eq, Debug, Structural)]
pub enum Lang {
    Wql,
    PowerShell,
    CSharp,
    VbScript,
    Mof,
    Plain,
}

/// What a run means, resolved to a colour at paint time.
#[derive(Debug, PartialEq, Eq, Clone, Copy, Structural)]
pub enum Role {
    Plain,
    Keyword,
    Str,
    Comment,
    Number,
}

/// One coloured run of a line.
#[derive(Debug, PartialEq, Clone)]
pub struct Span {
    pub text: String,
    pub role: Role,
}

impl Lang {
    pub fn label(self) -> (r: &'static str)
        ensures
            r@ == (match self {
                Lang::Wql => "WQL"@,
                Lang::PowerShell => "PowerShell"@,
                Lang::CSharp => "C#"@,
                Lang::VbScript => "VBScript"@,
                Lang::Mof => "MOF"@,
                Lang::Plain => "Text"@,
            }),
    {
        match self {
            Lang::Wql => "WQL",
            Lang::PowerShell => "PowerShell",
            Lang::CSharp => "C#",
            Lang::VbScript => "VBScript",
            Lang::Mof => "MOF",
            Lang::Plain => "Text",
        }
    }

    pub open spec fn comment_spec(self) -> Option<Seq<char>> {
        match self {
            Lang::Wql => Some("--"@),
            Lang::PowerShell => Some("#"@),
            Lang::CSharp | Lang::Mof => Some("//"@),
            Lang::VbScript => Some("'"@),
            Lang::Plain => None,
        }
    }

    /// The comment introducer, or `None` where the language has none we detect.
    pub fn line_comment(self) -> (r: Option<&'static str>)
        ensures
            match self.comment_spec() {
                Some(m) => r matches Some(s) && s@ == m,
                None => r is None,
            },
    {
        match self {
            Lang::Wql => Some("--"),
            Lang::PowerShell => Some("#"),
            Lang::CSharp | Lang::Mof => Some("//"),
            Lang::VbScript => Some("'"),
            Lang::Plain => None,
        }
    }

    pub open spec fn keywords_spec(self) -> Seq<Seq<char>> {
        match self {
            Lang::Wql => seq![
                "SELECT"@, "FROM"@, "WHERE"@, "AND"@, "OR"@, "NOT"@, "LIKE"@, "IS"@, "NULL"@,
                "ISA"@, "WITHIN"@, "GROUP"@, "BY"@, "HAVING"@, "ORDER"@, "ASC"@, "DESC"@,
                "TRUE"@, "FALSE"@, "ASSOCIATORS"@, "REFERENCES"@, "OF"@,
            ],
            Lang::PowerShell => seq![
                "param"@, "function"@, "foreach"@, "if"@, "else"@, "elseif"@, "return"@,
                "try"@, "catch"@, "finally"@, "begin"@, "process"@, "end"@, "in"@, "throw"@,
                "switch"@, "while"@, "do"@,
            ],
            Lang::CSharp => seq![
                "using"@, "var"@, "new"@, "public"@, "private"@, "static"@, "void"@, "class"@,
                "foreach"@, "in"@, "if"@, "else"@, "return"@, "string"@, "int"@, "uint"@,
                "bool"@, "true"@, "false"@, "null"@, "namespace"@, "await"@, "async"@,
            ],
            Lang::VbScript => seq![
                "Set"@, "Dim"@, "For"@, "Each"@, "Next"@, "If"@, "Then"@, "Else"@, "End"@,
                "Function"@, "Sub"@, "Wscript"@, "Echo"@, "GetObject"@, "In"@, "On"@,
                "Error"@, "Resume"@,
            ],
            Lang::Mof => seq![
                "class"@, "instance"@, "of"@, "string"@, "uint8"@, "uint16"@, "uint32"@,
                "uint64"@, "sint32"@, "boolean"@, "datetime"@, "object"@, "ref"@,
                "implemented"@, "static"@, "key"@, "read"@, "write"@, "dynamic"@,
                "provider"@, "abstract"@,
            ],
            Lang::Plain => Seq::empty(),
        }
    }

    /// The language's keywords.
    pub fn keywords(self) -> (r: Vec<&'static str>)
        ensures
            r@.map_values(|k: &'static str| k@) == self.keywords_spec(),
    {
        let r = match self {
            Lang::Wql => vec![
                "SELECT", "FROM", "WHERE", "AND", "OR", "NOT", "LIKE", "IS", "NULL", "ISA",
                "WITHIN", "GROUP", "BY", "HAVING", "ORDER", "ASC", "DESC", "TRUE", "FALSE",
                "ASSOCIATORS", "REFERENCES", "OF",
            ],
            Lang::PowerShell => vec![
                "param", "function", "foreach", "if", "else", "elseif", "return", "try", "catch",
                "finally", "begin", "process", "end", "in", "throw", "switch", "while", "do",
            ],
            Lang::CSharp => vec![
                "using", "var", "new", "public", "private", "static", "void", "class", "foreach",
                "in", "if", "else", "return", "string", "int", "uint", "bool", "true", "false",
                "null", "namespace", "await", "async",
            ],
            Lang::VbScript => vec![
                "Set", "Dim", "For", "Each", "Next", "If", "Then", "Else", "End", "Function",
                "Sub", "Wscript", "Echo", "GetObject", "In", "On", "Error", "Resume",
            ],
            Lang::Mof => vec![
                "class", "instance", "of", "string", "uint8", "uint16", "uint32", "uint64",
                "sint32", "boolean", "datetime", "object", "ref", "implemented", "static", "key",
                "read", "write", "dynamic", "provider", "abstract",
            ],
            Lang::Plain => Vec::new(),
        };
        assert(r@.map_values(|k: &'static str| k@) =~= self.keywords_spec());
        r
    }

    /// WQL, MOF, VBScript and PowerShell keywords are conventionally cased but
    /// not case-sensitive; C#'s are.
    pub open spec fn case_insensitive(self) -> bool {
        self == Lang::Wql || self == Lang::Mof || self == Lang::VbScript || self == Lang::PowerShell
    }
}

} // verus!

verus! {

// ---------------------------------------------------------------------------
// Classifying a word
// ---------------------------------------------------------------------------

pub open spec fn kw_hit(lang: Lang, kw: Seq<char>, word: Seq<char>) -> bool {
    if lang.case_insensitive() {
        eq_ic(kw, word)
    } else {
        kw == word
    }
}

/// A run of digits and dots with at least one digit.
pub open spec fn is_number(w: Seq<char>) -> bool {
    &&& forall|i: int| 0 <= i < w.len() ==> is_digit(#[trigger] w[i]) || w[i] == '.'
    &&& exists|i: int| 0 <= i < w.len() && is_digit(#[trigger] w[i])
}

/// What a word means: a number, one of the language's keywords, or plain.
pub open spec fn classify_spec(w: Seq<char>, lang: Lang) -> Role {
    if w.len() == 0 {
        Role::Plain
    } else if is_number(w) {
        Role::Number
    } else if exists|k: int| 0 <= k < lang.keywords_spec().len() && kw_hit(lang, #[trigger] lang.keywords_spec()[k], w) {
        Role::Keyword
    } else {
        Role::Plain
    }
}

fn classify_chars(w: &[char], lang: Lang) -> (r: Role)
    ensures
        r == classify_spec(w@, lang),
{
    if w.len() == 0 {
        return Role::Plain;
    }
    let mut all = true;
    let mut any = false;
    let mut i: usize = 0;
    while i < w.len()
        invariant
            i <= w@.len(),
            all == forall|j: int| 0 <= j < i ==> is_digit(#[trigger] w@[j]) || w@[j] == '.',
            any == exists|j: int| 0 <= j < i && is_digit(#[trigger] w@[j]),
        decreases w.len() - i,
    {
        let d = crate::text::is_ascii_digit(w[i]);
        if !(d || w[i] == '.') {
            all = false;
        }
        if d {
            any = true;
        }
        i += 1;
    }
    if all && any {
        return Role::Number;
    }
    assert(!is_number(w@));
    let ci = match lang {
        Lang::Wql | Lang::Mof | Lang::VbScript | Lang::PowerShell => true,
        _ => false,
    };
    let kws = lang.keywords();
    let ghost ks = lang.keywords_spec();
    let mut k: usize = 0;
    while k < kws.len()
        invariant
            k <= kws@.len(),
            ci == lang.case_insensitive(),
            !is_number(w@),
            w@.len() > 0,
            kws@.map_values(|s: &'static str| s@) == ks,
            ks == lang.keywords_spec(),
            forall|m: int| 0 <= m < k ==> !kw_hit(lang, #[trigger] ks[m], w@),
        decreases kws.len() - k,
    {
        let kw = chars_of(kws[k]);
        assert(kw@ == ks[k as int]);
        let hit = if ci {
            eq_ignore_case(kw.as_slice(), w)
        } else {
            chars_eq(kw.as_slice(), w)
        };
        if hit {
            assert(kw_hit(lang, ks[k as int], w@));
            return Role::Keyword;
        }
        k += 1;
    }
    Role::Plain
}

/// What a word means in `lang`.
pub fn classify_word(word: &str, lang: Lang) -> (r: Role)
    ensures
        r == classify_spec(word@, lang),
{
    let w = chars_of(word);
    classify_chars(w.as_slice(), lang)
}

// ---------------------------------------------------------------------------
// Tinting a line
// ---------------------------------------------------------------------------

/// Characters that continue a word: letters, digits, `_` and `.`.
pub open spec fn is_tint_word(c: char) -> bool {
    crate::text::alphanumeric(c) || c == '_' || c == '.'
}

/// Where a literal opened by `q` ends, its closing quote included, when its
/// content starts at `j`. A doubled quote is an escaped one; an unterminated
/// literal runs to the end of the line.
pub open spec fn string_end(s: Seq<char>, j: int, q: char) -> int
    decreases s.len() - j,
{
    if j >= s.len() {
        s.len() as int
    } else if s[j] == q {
        if j + 1 < s.len() && s[j + 1] == q {
            string_end(s, j + 2, q)
        } else {
            j + 1
        }
    } else {
        string_end(s, j + 1, q)
    }
}

proof fn lemma_string_end(s: Seq<char>, j: int, q: char)
    requires
        0 <= j,
    ensures
        j <= s.len() ==> j <= string_end(s, j, q) <= s.len(),
        j > s.len() ==> string_end(s, j, q) == s.len(),
    decreases s.len() - j,
{
    if j < s.len() {
        if s[j] == q {
            if j + 1 < s.len() && s[j + 1] == q {
                lemma_string_end(s, j + 2, q);
            }
        } else {
            lemma_string_end(s, j + 1, q);
        }
    }
}

/// A span as text and role.
pub open spec fn span_view(sp: Span) -> (Seq<char>, Role) {
    (sp.text@, sp.role)
}

pub open spec fn spans_view(sps: Seq<Span>) -> Seq<(Seq<char>, Role)> {
    sps.map_values(|sp: Span| span_view(sp))
}

/// The word run `s[b..i]`, if it is not empty.
pub open spec fn flush(s: Seq<char>, lang: Lang, b: int, i: int) -> Seq<(Seq<char>, Role)> {
    if b < i {
        seq![(s.subrange(b, i), classify_spec(s.subrange(b, i), lang))]
    } else {
        Seq::empty()
    }
}

/// The runs of `s` from position `i`, with a word run open since `b`.
pub open spec fn tint_from(s: Seq<char>, lang: Lang, i: int, b: int) -> Seq<(Seq<char>, Role)>
    decreases s.len() - i,
{
    if i < 0 || i >= s.len() {
        flush(s, lang, b, s.len() as int)
    } else if lang.comment_spec() matches Some(m) && occurs_at(s, m, i) {
        flush(s, lang, b, i).push((s.subrange(i, s.len() as int), Role::Comment))
    } else if s[i] == '"' || s[i] == '\'' {
        let e = string_end(s, i + 1, s[i]);
        if e <= i || e > s.len() {
            // Never: a literal ends after its opening quote and within the line.
            Seq::empty()
        } else {
            flush(s, lang, b, i).push((s.subrange(i, e), Role::Str)) + tint_from(s, lang, e, e)
        }
    } else if is_tint_word(s[i]) {
        tint_from(s, lang, i + 1, b)
    } else {
        flush(s, lang, b, i).push((seq![s[i]], Role::Plain)) + tint_from(s, lang, i + 1, i + 1)
    }
}

/// The coloured runs of one line.
pub open spec fn tint_spec(s: Seq<char>, lang: Lang) -> Seq<(Seq<char>, Role)> {
    tint_from(s, lang, 0, 0)
}

/// The runs' texts, end to end.
pub open spec fn texts(runs: Seq<(Seq<char>, Role)>) -> Seq<char>
    decreases runs.len(),
{
    if runs.len() == 0 {
        Seq::empty()
    } else {
        texts(runs.drop_last()) + runs.last().0
    }
}

fn push_run(spans: &mut Vec<Span>, text: &[char], role: Role)
    ensures
        spans_view(final(spans)@) == spans_view(old(spans)@).push((text@, role)),
{
    spans.push(Span { text: string_of(text), role });
    assert(spans_view(spans@) =~= spans_view(old(spans)@).push((text@, role)));
}

fn push_word(spans: &mut Vec<Span>, s: &[char], lang: Lang, b: usize, i: usize)
    requires
        b <= i <= s@.len(),
    ensures
        spans_view(final(spans)@) == spans_view(old(spans)@) + flush(s@, lang, b as int, i as int),
{
    if b < i {
        let w = slice_chars(s, b, i);
        let role = classify_chars(w.as_slice(), lang);
        push_run(spans, w.as_slice(), role);
        assert(spans_view(spans@) =~= spans_view(old(spans)@) + flush(s@, lang, b as int, i as int));
    } else {
        assert(spans_view(spans@) =~= spans_view(old(spans)@) + flush(s@, lang, b as int, i as int));
    }
}

/// Where the literal whose content starts at `j` ends.
fn literal_end(s: &[char], from: usize, q: char) -> (e: usize)
    requires
        from <= s@.len(),
    ensures
        e == string_end(s@, from as int, q),
{
    let n = s.len();
    let mut j = from;
    while j < n
        invariant
            n == s@.len(),
            j <= n,
            string_end(s@, j as int, q) == string_end(s@, from as int, q),
        decreases n - j,
    {
        if s[j] == q {
            if j + 1 < n && s[j + 1] == q {
                j = j + 2;
                continue;
            }
            return j + 1;
        }
        j = j + 1;
    }
    j
}

/// Split one line into coloured runs.
fn tint_runs(line: &str, lang: Lang) -> (spans: Vec<Span>)
    ensures
        spans_view(spans@) == tint_spec(line@, lang),
{
    let s = chars_of(line);
    let n = s.len();
    let marker: Option<Vec<char>> = match lang.line_comment() {
        Some(m) => Some(chars_of(m)),
        None => None,
    };
    let mut spans: Vec<Span> = Vec::new();
    let mut i: usize = 0;
    let mut b: usize = 0;
    assert(spans_view(spans@) =~= Seq::<(Seq<char>, Role)>::empty());
    while i < n
        invariant
            n == s@.len(),
            s@ == line@,
            b <= i <= n,
            match lang.comment_spec() {
                Some(m) => marker matches Some(v) && v@ == m,
                None => marker is None,
            },
            spans_view(spans@) + tint_from(s@, lang, i as int, b as int) == tint_spec(s@, lang),
        decreases n - i,
    {
        let ghost before = spans_view(spans@);
        if let Some(m) = &marker {
            if matches_at(s.as_slice(), m.as_slice(), i) {
                push_word(&mut spans, s.as_slice(), lang, b, i);
                let rest = slice_chars(s.as_slice(), i, n);
                push_run(&mut spans, rest.as_slice(), Role::Comment);
                assert(spans_view(spans@) =~= before + tint_from(s@, lang, i as int, b as int));
                assert(spans_view(spans@) =~= spans_view(spans@) + Seq::<(Seq<char>, Role)>::empty());
                return spans;
            }
        }
        let c = s[i];
        if c == '"' || c == '\'' {
            let e = literal_end(s.as_slice(), i + 1, c);
            proof {
                lemma_string_end(s@, (i + 1) as int, c);
            }
            assert(e == string_end(s@, (i + 1) as int, c));
            push_word(&mut spans, s.as_slice(), lang, b, i);
            let lit_run = slice_chars(s.as_slice(), i, e);
            push_run(&mut spans, lit_run.as_slice(), Role::Str);
            assert(spans_view(spans@) + tint_from(s@, lang, e as int, e as int) =~= before + tint_from(
                s@,
                lang,
                i as int,
                b as int,
            ));
            i = e;
            b = e;
            continue;
        }
        if crate::text::is_alphanumeric(c) || c == '_' || c == '.' {
            i += 1;
            continue;
        }
        push_word(&mut spans, s.as_slice(), lang, b, i);
        let one = slice_chars(s.as_slice(), i, i + 1);
        assert(one@ =~= seq![c]);
        push_run(&mut spans, one.as_slice(), Role::Plain);
        assert(spans_view(spans@) + tint_from(s@, lang, i + 1, i + 1) =~= before + tint_from(
            s@,
            lang,
            i as int,
            b as int,
        ));
        i += 1;
        b = i;
    }
    push_word(&mut spans, s.as_slice(), lang, b, n);
    spans
}

} // verus!

verus! {

proof fn lemma_texts_concat(a: Seq<(Seq<char>, Role)>, b: Seq<(Seq<char>, Role)>)
    ensures
        texts(a + b) == texts(a) + texts(b),
    decreases b.len(),
{
    if b.len() == 0 {
        assert(a + b =~= a);
        assert(texts(b) =~= Seq::<char>::empty());
        assert(texts(a) + texts(b) =~= texts(a));
    } else {
        assert((a + b).drop_last() =~= a + b.drop_last());
        lemma_texts_concat(a, b.drop_last());
        assert(texts(a) + texts(b) =~= texts(a) + texts(b.drop_last()) + b.last().0);
    }
}

proof fn lemma_texts_one(x: (Seq<char>, Role))
    ensures
        texts(seq![x]) == x.0,
{
    assert(seq![x].drop_last() =~= Seq::<(Seq<char>, Role)>::empty());
    assert(texts(Seq::<(Seq<char>, Role)>::empty()) + x.0 =~= x.0);
}

proof fn lemma_flush_text(s: Seq<char>, lang: Lang, b: int, i: int)
    requires
        0 <= b <= i <= s.len(),
    ensures
        texts(flush(s, lang, b, i)) == s.subrange(b, i),
{
    if b < i {
        lemma_texts_one((s.subrange(b, i), classify_spec(s.subrange(b, i), lang)));
    } else {
        assert(s.subrange(b, i) =~= Seq::<char>::empty());
    }
}

proof fn lemma_tint_from_text(s: Seq<char>, lang: Lang, i: int, b: int)
    requires
        0 <= b <= i <= s.len(),
    ensures
        texts(tint_from(s, lang, i, b)) == s.subrange(b, s.len() as int),
    decreases s.len() - i,
{
    let n = s.len() as int;
    if i >= n {
        lemma_flush_text(s, lang, b, n);
    } else if lang.comment_spec() matches Some(m) && occurs_at(s, m, i) {
        lemma_flush_text(s, lang, b, i);
        let f = flush(s, lang, b, i);
        let x = (s.subrange(i, n), Role::Comment);
        assert(f.push(x) =~= f + seq![x]);
        lemma_texts_concat(f, seq![x]);
        lemma_texts_one(x);
        assert(s.subrange(b, i) + s.subrange(i, n) =~= s.subrange(b, n));
    } else if s[i] == '"' || s[i] == '\'' {
        let e = string_end(s, i + 1, s[i]);
        lemma_string_end(s, i + 1, s[i]);
        lemma_flush_text(s, lang, b, i);
        lemma_tint_from_text(s, lang, e, e);
        let f = flush(s, lang, b, i);
        let x = (s.subrange(i, e), Role::Str);
        let rest = tint_from(s, lang, e, e);
        assert(f.push(x) =~= f + seq![x]);
        lemma_texts_concat(f, seq![x]);
        lemma_texts_one(x);
        lemma_texts_concat(f.push(x), rest);
        assert(s.subrange(b, i) + s.subrange(i, e) + s.subrange(e, n) =~= s.subrange(b, n));
    } else if is_tint_word(s[i]) {
        lemma_tint_from_text(s, lang, i + 1, b);
    } else {
        lemma_flush_text(s, lang, b, i);
        lemma_tint_from_text(s, lang, i + 1, i + 1);
        let f = flush(s, lang, b, i);
        let x = (seq![s[i]], Role::Plain);
        let rest = tint_from(s, lang, i + 1, i + 1);
        assert(f.push(x) =~= f + seq![x]);
        lemma_texts_concat(f, seq![x]);
        lemma_texts_one(x);
        lemma_texts_concat(f.push(x), rest);
        assert(s.subrange(b, i) + seq![s[i]] + s.subrange(i + 1, n) =~= s.subrange(b, n));
    }
}

/// Tinting never loses or invents a character: the runs of a line, end to
/// end, are the line.
pub proof fn lemma_tint_keeps_every_character(s: Seq<char>, lang: Lang)
    ensures
        texts(tint_spec(s, lang)) == s,
{
    lemma_tint_from_text(s, lang, 0, 0);
    assert(s.subrange(0, s.len() as int) =~= s);
}

/// Every run holds at least one character.
pub open spec fn runs_nonempty(runs: Seq<(Seq<char>, Role)>) -> bool {
    forall|k: int| 0 <= k < runs.len() ==> (#[trigger] runs[k]).0.len() > 0
}

/// A comment run, if there is one, is the last run.
pub open spec fn comment_last(runs: Seq<(Seq<char>, Role)>) -> bool {
    forall|k: int| 0 <= k < runs.len() && (#[trigger] runs[k]).1 == Role::Comment ==> k == runs.len() - 1
}

proof fn lemma_flush_shape(s: Seq<char>, lang: Lang, b: int, i: int)
    requires
        0 <= b <= i <= s.len(),
    ensures
        runs_nonempty(flush(s, lang, b, i)),
        forall|k: int| 0 <= k < flush(s, lang, b, i).len() ==> (#[trigger] flush(s, lang, b, i)[k]).1 != Role::Comment,
        flush(s, lang, b, i).len() <= 1,
{
}

/// A run that is neither empty nor a comment, then runs that keep the shape,
/// keep it.
proof fn lemma_shape_concat(f: Seq<(Seq<char>, Role)>, x: (Seq<char>, Role), rest: Seq<(Seq<char>, Role)>)
    requires
        runs_nonempty(f),
        forall|k: int| 0 <= k < f.len() ==> (#[trigger] f[k]).1 != Role::Comment,
        x.0.len() > 0,
        x.1 != Role::Comment,
        runs_nonempty(rest),
        comment_last(rest),
    ensures
        runs_nonempty(f.push(x) + rest),
        comment_last(f.push(x) + rest),
{
    let all = f.push(x) + rest;
    assert forall|k: int| 0 <= k < all.len() implies (#[trigger] all[k]).0.len() > 0 by {
        if k < f.len() {
            assert(all[k] == f[k]);
        } else if k > f.len() {
            assert(all[k] == rest[k - f.len() - 1]);
        }
    }
    assert forall|k: int| 0 <= k < all.len() && (#[trigger] all[k]).1 == Role::Comment implies k == all.len() - 1 by {
        if k < f.len() {
            assert(all[k] == f[k]);
        } else if k > f.len() {
            assert(all[k] == rest[k - f.len() - 1]);
        }
    }
}

proof fn lemma_tint_from_shape(s: Seq<char>, lang: Lang, i: int, b: int)
    requires
        0 <= b <= i <= s.len(),
    ensures
        runs_nonempty(tint_from(s, lang, i, b)),
        comment_last(tint_from(s, lang, i, b)),
    decreases s.len() - i,
{
    let n = s.len() as int;
    if i >= n {
        lemma_flush_shape(s, lang, b, n);
    } else if lang.comment_spec() matches Some(m) && occurs_at(s, m, i) {
        lemma_flush_shape(s, lang, b, i);
        let f = flush(s, lang, b, i);
        let all = f.push((s.subrange(i, n), Role::Comment));
        assert forall|k: int| 0 <= k < all.len() implies (#[trigger] all[k]).0.len() > 0 by {
            if k < f.len() {
                assert(all[k] == f[k]);
            }
        }
        assert forall|k: int| 0 <= k < all.len() && (#[trigger] all[k]).1 == Role::Comment implies k == all.len()
            - 1 by {
            if k < f.len() {
                assert(all[k] == f[k]);
            }
        }
    } else if s[i] == '"' || s[i] == '\'' {
        let e = string_end(s, i + 1, s[i]);
        lemma_string_end(s, i + 1, s[i]);
        if !(e <= i || e > n) {
            lemma_flush_shape(s, lang, b, i);
            lemma_tint_from_shape(s, lang, e, e);
            lemma_shape_concat(flush(s, lang, b, i), (s.subrange(i, e), Role::Str), tint_from(s, lang, e, e));
        }
    } else if is_tint_word(s[i]) {
        lemma_tint_from_shape(s, lang, i + 1, b);
    } else {
        lemma_flush_shape(s, lang, b, i);
        lemma_tint_from_shape(s, lang, i + 1, i + 1);
        lemma_shape_concat(flush(s, lang, b, i), (seq![s[i]], Role::Plain), tint_from(s, lang, i + 1, i + 1));
    }
}

/// Every run of a tinted line holds at least one character, and a comment
/// run, if there is one, comes last.
pub proof fn lemma_tint_runs_are_whole(s: Seq<char>, lang: Lang)
    ensures
        runs_nonempty(tint_spec(s, lang)),
        comment_last(tint_spec(s, lang)),
{
    lemma_tint_from_shape(s, lang, 0, 0);
}

/// The coloured runs of one line: end to end they are the line, none is
/// empty, and a comment run, if there is one, comes last.
pub fn tint_line(line: &str, lang: Lang) -> (spans: Vec<Span>)
    ensures
        spans_view(spans@) == tint_spec(line@, lang),
        texts(spans_view(spans@)) == line@,
        runs_nonempty(spans_view(spans@)),
        comment_last(spans_view(spans@)),
{
    proof {
        lemma_tint_keeps_every_character(line@, lang);
        lemma_tint_runs_are_whole(line@, lang);
    }
    tint_runs(line, lang)
}

} // verus!
