//! The Query view's derivations: the `ORDER BY` note, the editor gutter, the
//! row count label, the history rail's "how long ago", and column typing.

use vstd::prelude::*;
use crate::codeview::{tint_line, tint_spec, Lang, Role, spans_view};
use crate::text::{
    all_ws, blank, chars_of, dec, decimal, eq_ic, eq_ignore_case, extend_chars, float_literal,
    lines, lines_of, lit, parses_as_float, string_of,
};

verus! {

// ---------------------------------------------------------------------------
// ORDER BY
// ---------------------------------------------------------------------------

/// The words of a tinted line that count as syntax: not inside a literal or a
/// comment, and not blank.
pub open spec fn syntax_words(runs: Seq<(Seq<char>, Role)>) -> Seq<Seq<char>>
    decreases runs.len(),
{
    if runs.len() == 0 {
        Seq::empty()
    } else {
        let rest = syntax_words(runs.drop_last());
        let (text, role) = runs.last();
        if role != Role::Str && role != Role::Comment && !all_ws(text) {
            rest.push(text)
        } else {
            rest
        }
    }
}

/// The syntax words of every line, flattened across line breaks.
pub open spec fn query_words(ls: Seq<Seq<char>>) -> Seq<Seq<char>>
    decreases ls.len(),
{
    if ls.len() == 0 {
        Seq::empty()
    } else {
        query_words(ls.drop_last()) + syntax_words(tint_spec(ls.last(), Lang::Wql))
    }
}

/// `ORDER` immediately followed by `BY`, as syntax, in any case.
pub open spec fn has_order_by_spec(wql: Seq<char>) -> bool {
    let ws = query_words(lines(wql));
    exists|k: int| 0 <= k && k + 1 < ws.len() && eq_ic(#[trigger] ws[k], "order"@) && eq_ic(ws[k + 1], "by"@)
}

proof fn lemma_syntax_words_push(runs: Seq<(Seq<char>, Role)>, x: (Seq<char>, Role))
    ensures
        syntax_words(runs.push(x)) == (if x.1 != Role::Str && x.1 != Role::Comment && !all_ws(x.0) {
            syntax_words(runs).push(x.0)
        } else {
            syntax_words(runs)
        }),
{
    assert(runs.push(x).drop_last() =~= runs);
}

/// Does `wql` contain an `ORDER BY` clause outside a string literal?
///
/// A lexer scan rather than a substring search, because
/// `WHERE Name = 'order by'` is not an `ORDER BY` clause. The words are
/// flattened across lines first, so a clause broken over two lines counts.
pub fn has_order_by(wql: &str) -> (r: bool)
    ensures
        r == has_order_by_spec(wql@),
{
    let cs = chars_of(wql);
    let ls = lines_of(cs.as_slice());
    let ghost lsv = ls@.map_values(|l: Vec<char>| l@);
    let mut words: Vec<Vec<char>> = Vec::new();
    let mut li: usize = 0;
    assert(words@.map_values(|w: Vec<char>| w@) =~= query_words(lsv.take(0)));
    while li < ls.len()
        invariant
            li <= ls@.len(),
            lsv == ls@.map_values(|l: Vec<char>| l@),
            lsv == lines(wql@),
            words@.map_values(|w: Vec<char>| w@) == query_words(lsv.take(li as int)),
        decreases ls.len() - li,
    {
        let line = string_of(ls[li].as_slice());
        let spans = tint_line(line.as_str(), Lang::Wql);
        let ghost runs = spans_view(spans@);
        let ghost base = words@.map_values(|w: Vec<char>| w@);
        let mut k: usize = 0;
        assert(syntax_words(runs.take(0)) =~= Seq::<Seq<char>>::empty());
        assert(base + syntax_words(runs.take(0)) =~= base);
        while k < spans.len()
            invariant
                k <= spans@.len(),
                runs == spans_view(spans@),
                words@.map_values(|w: Vec<char>| w@) == base + syntax_words(runs.take(k as int)),
            decreases spans.len() - k,
        {
            let text = chars_of(spans[k].text.as_str());
            let role = spans[k].role;
            assert(runs[k as int] == (text@, role));
            assert(runs.take(k + 1) =~= runs.take(k as int).push(runs[k as int]));
            proof {
                lemma_syntax_words_push(runs.take(k as int), runs[k as int]);
            }
            let keep = match role {
                Role::Str | Role::Comment => false,
                _ => !blank(text.as_slice()),
            };
            if keep {
                let ghost before = words@.map_values(|w: Vec<char>| w@);
                words.push(text);
                assert(words@.map_values(|w: Vec<char>| w@) =~= before.push(text@));
            }
            k += 1;
        }
        assert(runs.take(spans@.len() as int) =~= runs);
        assert(lsv.take(li + 1).drop_last() =~= lsv.take(li as int));
        assert(lsv.take(li + 1).last() == ls@[li as int]@);
        li += 1;
    }
    assert(lsv.take(ls@.len() as int) =~= lsv);
    let ghost ws = words@.map_values(|w: Vec<char>| w@);
    let order = lit("order");
    let by = lit("by");
    let mut k: usize = 0;
    while k < words.len() && k + 1 < words.len()
        invariant
            k <= words@.len(),
            ws == words@.map_values(|w: Vec<char>| w@),
            ws == query_words(lines(wql@)),
            order@ == "order"@,
            by@ == "by"@,
            forall|j: int| 0 <= j < k && j + 1 < ws.len() ==> !(eq_ic(#[trigger] ws[j], "order"@) && eq_ic(ws[j + 1], "by"@)),
        decreases words.len() - k,
    {
        if eq_ignore_case(words[k].as_slice(), order.as_slice()) && eq_ignore_case(words[k + 1].as_slice(), by.as_slice()) {
            assert(ws[k as int] == words@[k as int]@);
            assert(ws[k + 1] == words@[k + 1]@);
            return true;
        }
        k += 1;
    }
    false
}

// ---------------------------------------------------------------------------
// The editor gutter
// ---------------------------------------------------------------------------

/// Visual row `k` starts a logical line.
pub open spec fn starts_line(ends_with_newline: Seq<bool>, k: int) -> bool {
    k == 0 || ends_with_newline[k - 1]
}

/// How many of the first `k` rows start a line.
pub open spec fn lines_started(e: Seq<bool>, k: int) -> nat
    decreases k,
{
    if k <= 0 {
        0
    } else {
        lines_started(e, k - 1) + if starts_line(e, k - 1) { 1nat } else { 0nat }
    }
}

/// The gutter number for visual row `k`: the line's number where the row
/// starts a line, nothing on a row that continues the one before it.
pub open spec fn gutter_spec(e: Seq<bool>, k: int) -> Option<usize> {
    if starts_line(e, k) {
        Some(lines_started(e, k + 1) as usize)
    } else {
        None
    }
}

proof fn lemma_lines_started_bound(e: Seq<bool>, k: int)
    ensures
        lines_started(e, k) <= if k < 0 { 0 } else { k },
    decreases k,
{
    if k > 0 {
        lemma_lines_started_bound(e, k - 1);
    }
}

/// Which logical line number belongs beside each visual row of a wrapped
/// editor. `ends_with_newline[i]` says whether visual row `i` ends a line.
pub fn gutter_labels(ends_with_newline: &[bool]) -> (labels: Vec<Option<usize>>)
    ensures
        labels@.len() == ends_with_newline@.len(),
        forall|k: int| 0 <= k < labels@.len() ==> #[trigger] labels@[k] == gutter_spec(ends_with_newline@, k),
{
    let mut labels: Vec<Option<usize>> = Vec::new();
    let mut line: usize = 0;
    let mut row: usize = 0;
    while row < ends_with_newline.len()
        invariant
            row <= ends_with_newline@.len(),
            labels@.len() == row,
            line == lines_started(ends_with_newline@, row as int),
            forall|k: int| 0 <= k < row ==> #[trigger] labels@[k] == gutter_spec(ends_with_newline@, k),
        decreases ends_with_newline.len() - row,
    {
        proof {
            lemma_lines_started_bound(ends_with_newline@, row as int);
        }
        let starts = row == 0 || ends_with_newline[row - 1];
        if starts {
            line += 1;
            labels.push(Some(line));
        } else {
            labels.push(None);
        }
        row += 1;
    }
    labels
}

// ---------------------------------------------------------------------------
// Labels
// ---------------------------------------------------------------------------

pub open spec fn rows_label_spec(rows: nat) -> Seq<char> {
    if rows == 1 {
        "1 row"@
    } else {
        dec(rows) + " rows"@
    }
}

/// "1 row" / "N rows".
pub fn rows_label(rows: usize) -> (r: String)
    ensures
        r@ == rows_label_spec(rows as nat),
{
    if rows == 1 {
        "1 row".to_owned()
    } else {
        let mut out = decimal(rows as u64);
        let unit = lit(" rows");
        extend_chars(&mut out, unit.as_slice());
        string_of(out.as_slice())
    }
}

pub open spec fn relative_time_spec(then: nat, now: nat) -> Seq<char> {
    if then == 0 || then > now {
        "\u{2014}"@
    } else {
        let secs = (now - then) as nat;
        if secs < 60 {
            "just now"@
        } else if secs < 3600 {
            dec(secs / 60) + " min ago"@
        } else if secs < 86400 {
            dec(secs / 3600) + " h ago"@
        } else {
            dec(secs / 86400) + " d ago"@
        }
    }
}

/// A coarse "how long ago", for the history rail. A zero stamp, or one from
/// the future (a clock change), is an em dash rather than a guess.
pub fn relative_time(then: u64, now: u64) -> (r: String)
    ensures
        r@ == relative_time_spec(then as nat, now as nat),
{
    if then == 0 || then > now {
        return "\u{2014}".to_owned();
    }
    let secs = now - then;
    if secs < 60 {
        return "just now".to_owned();
    }
    let (n, unit) = if secs < 3600 {
        (secs / 60, " min ago")
    } else if secs < 86400 {
        (secs / 3600, " h ago")
    } else {
        (secs / 86400, " d ago")
    };
    let mut out = decimal(n);
    let u = lit(unit);
    extend_chars(&mut out, u.as_slice());
    string_of(out.as_slice())
}

// ---------------------------------------------------------------------------
// Column typing
// ---------------------------------------------------------------------------

/// How many rows the numeric sniff looks at, so a huge result is not scanned
/// in full every frame.
pub open spec fn sample_rows() -> int {
    128
}

/// Column `col` of the sampled rows has at least one non-empty cell, and every
/// non-empty one reads as a number.
pub open spec fn column_numeric_spec(rows: Seq<Vec<String>>, col: int) -> bool {
    let n = if rows.len() < sample_rows() { rows.len() as int } else { sample_rows() };
    &&& exists|r: int| 0 <= r < n && col < rows[r]@.len() && rows[r]@[col]@.len() > 0
    &&& forall|r: int| 0 <= r < n && col < rows[r]@.len() && rows[r]@[col]@.len() > 0
        ==> float_literal(#[trigger] rows[r]@[col]@)
}

/// Is column `col` numeric across the rows?
pub fn column_is_numeric(rows: &[Vec<String>], col: usize) -> (b: bool)
    ensures
        b == column_numeric_spec(rows@, col as int),
{
    let n: usize = if rows.len() < 128 { rows.len() } else { 128 };
    let mut any = false;
    let mut r: usize = 0;
    while r < n
        invariant
            n == (if rows@.len() < sample_rows() { rows@.len() as int } else { sample_rows() }),
            r <= n,
            any == exists|q: int| 0 <= q < r && col < rows@[q]@.len() && rows@[q]@[col as int]@.len() > 0,
            forall|q: int| 0 <= q < r && col < rows@[q]@.len() && rows@[q]@[col as int]@.len() > 0
                ==> float_literal(#[trigger] rows@[q]@[col as int]@),
        decreases n - r,
    {
        if col < rows[r].len() {
            let v = chars_of(rows[r][col].as_str());
            if v.len() > 0 {
                any = true;
                if !parses_as_float(v.as_slice()) {
                    return false;
                }
            }
        }
        r += 1;
    }
    any
}

} // verus!
