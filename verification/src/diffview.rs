//! The prepared Compare table: every row of B labelled from the differ's
//! report, then the rows only A had, each cell rendered, each sign counted.
//!
//! The differ itself belongs to the query engine; what it reports (the rows
//! it found only on B, the rows it paired and found changed, the rows only A
//! had) is handed in as a [`TableDiff`]. What is built here is what the table
//! paints and what the CSV export writes.

use vstd::prelude::*;
use crate::compare::{strs, DiffPlan, KeySource, QueryResult, Sign};
use crate::table::{lemma_text_lt_total, lemma_text_lt_transitive, text_less, text_lt};
use crate::text::str_eq;

verus! {

// ---------------------------------------------------------------------------
// Rows by column name
// ---------------------------------------------------------------------------

/// A row aligned by name: `(column, value)` pairs, in the result's column
/// order.
pub open spec fn row_view(row: Seq<(String, String)>) -> Seq<(Seq<char>, Seq<char>)> {
    row.map_values(|p: (String, String)| (p.0@, p.1@))
}

/// The value a row holds under `column`, looking from position `k` on.
pub open spec fn lookup_from(row: Seq<(Seq<char>, Seq<char>)>, column: Seq<char>, k: int) -> Option<Seq<char>>
    decreases row.len() - k,
{
    if k < 0 || k >= row.len() {
        None
    } else if row[k].0 == column {
        Some(row[k].1)
    } else {
        lookup_from(row, column, k + 1)
    }
}

/// The value a row holds under `column`, if it has that column.
pub open spec fn lookup(row: Seq<(Seq<char>, Seq<char>)>, column: Seq<char>) -> Option<Seq<char>> {
    lookup_from(row, column, 0)
}

/// What stands in a cell whose column the row does not have: an em dash,
/// which no real value is mistaken for, unlike an empty string.
pub open spec fn dash() -> Seq<char> {
    seq!['\u{2014}']
}

/// One cell's text: the value, or [`dash`] when the column is absent.
pub open spec fn cell_text_spec(row: Seq<(Seq<char>, Seq<char>)>, column: Seq<char>) -> Seq<char> {
    match lookup(row, column) {
        Some(v) => v,
        None => dash(),
    }
}

/// One cell's text: the value under `column`, or an em dash when the row
/// does not have that column.
pub fn cell_text(row: &Vec<(String, String)>, column: &str) -> (r: String)
    ensures
        r@ == cell_text_spec(row_view(row@), column@),
{
    let ghost rv = row_view(row@);
    let mut i: usize = 0;
    while i < row.len()
        invariant
            i <= row@.len(),
            rv == row_view(row@),
            lookup_from(rv, column@, 0) == lookup_from(rv, column@, i as int),
        decreases row.len() - i,
    {
        if str_eq(row[i].0.as_str(), column) {
            return row[i].1.clone();
        }
        i += 1;
    }
    proof {
        reveal_strlit("\u{2014}");
        assert("\u{2014}"@ =~= dash());
    }
    "\u{2014}".to_string()
}

/// A positional row named by the result's columns, pair by pair, as far as
/// both go.
pub open spec fn named_row(columns: Seq<String>, values: Seq<String>) -> Seq<(String, String)> {
    let n = if columns.len() < values.len() { columns.len() } else { values.len() };
    Seq::new(n, |k: int| (columns[k], values[k]))
}

/// Every row of a result, named by its columns.
pub fn row_maps(qr: &QueryResult) -> (rows: Vec<Vec<(String, String)>>)
    ensures
        rows@.len() == qr.rows@.len(),
        forall|i: int| 0 <= i < rows@.len() ==> #[trigger] rows@[i]@ == named_row(qr.columns@, qr.rows@[i]@),
{
    let mut rows: Vec<Vec<(String, String)>> = Vec::new();
    let mut i: usize = 0;
    while i < qr.rows.len()
        invariant
            i <= qr.rows@.len(),
            rows@.len() == i,
            forall|j: int| 0 <= j < i ==> #[trigger] rows@[j]@ == named_row(qr.columns@, qr.rows@[j]@),
        decreases qr.rows.len() - i,
    {
        let vals = &qr.rows[i];
        let n = if qr.columns.len() < vals.len() { qr.columns.len() } else { vals.len() };
        let mut row: Vec<(String, String)> = Vec::new();
        let mut k: usize = 0;
        while k < n
            invariant
                k <= n,
                n == (if qr.columns@.len() < vals@.len() { qr.columns@.len() } else { vals@.len() }),
                row@ == named_row(qr.columns@, vals@).take(k as int),
            decreases n - k,
        {
            row.push((qr.columns[k].clone(), vals[k].clone()));
            assert(row@ =~= named_row(qr.columns@, vals@).take(k + 1));
            k += 1;
        }
        assert(row@ =~= named_row(qr.columns@, vals@));
        rows.push(row);
        i += 1;
    }
    rows
}

/// Two rows with the same pairs, in the same order.
pub fn rows_equal(x: &Vec<(String, String)>, y: &Vec<(String, String)>) -> (r: bool)
    ensures
        r == (row_view(x@) == row_view(y@)),
{
    if x.len() != y.len() {
        assert(row_view(x@).len() != row_view(y@).len());
        return false;
    }
    let mut i: usize = 0;
    while i < x.len()
        invariant
            i <= x@.len(),
            x@.len() == y@.len(),
            forall|j: int| 0 <= j < i ==> #[trigger] row_view(x@)[j] == row_view(y@)[j],
        decreases x.len() - i,
    {
        if !str_eq(x[i].0.as_str(), y[i].0.as_str()) || !str_eq(x[i].1.as_str(), y[i].1.as_str()) {
            assert(row_view(x@)[i as int] != row_view(y@)[i as int]);
            return false;
        }
        i += 1;
    }
    assert(row_view(x@) =~= row_view(y@));
    true
}

// ---------------------------------------------------------------------------
// What the differ reports
// ---------------------------------------------------------------------------

/// One row the differ paired on both sides and found changed: A's row, B's
/// row, and the columns outside the ignore list that differ.
pub struct RowDelta {
    pub a: Vec<(String, String)>,
    pub b: Vec<(String, String)>,
    pub changed_columns: Vec<String>,
}

/// The differ's report: the rows only B has and the changed rows, both in
/// B's order, and the rows only A has. Rows it paired and found equal are
/// only counted there, not listed.
pub struct TableDiff {
    pub added: Vec<Vec<(String, String)>>,
    pub changed: Vec<RowDelta>,
    pub removed: Vec<Vec<(String, String)>>,
}

/// Each row as name-aligned pairs of text.
pub open spec fn rows_view(rows: Seq<Vec<(String, String)>>) -> Seq<Seq<(Seq<char>, Seq<char>)>> {
    rows.map_values(|r: Vec<(String, String)>| row_view(r@))
}

/// B's side of each changed row.
pub open spec fn changed_b_view(changed: Seq<RowDelta>) -> Seq<Seq<(Seq<char>, Seq<char>)>> {
    changed.map_values(|d: RowDelta| row_view(d.b@))
}

/// What the report says about one row of B.
#[derive(Clone, Copy, PartialEq, Eq, Debug, Structural)]
pub enum Verdict {
    /// Paired and equal: the differ only counted it.
    Same,
    /// Only on B.
    Added,
    /// Paired and changed: the change at this position of the report.
    Changed(usize),
}

/// The verdicts of the first `n` rows of B, with how many of the report's
/// added and changed rows they used up. A row is the next unused added row
/// if it equals it, else the next unused changed row if it equals that
/// one's B side, else a row the differ matched.
pub open spec fn labels(
    b_rows: Seq<Seq<(Seq<char>, Seq<char>)>>,
    added: Seq<Seq<(Seq<char>, Seq<char>)>>,
    changed_b: Seq<Seq<(Seq<char>, Seq<char>)>>,
    n: nat,
) -> (Seq<Verdict>, nat, nat)
    decreases n,
{
    if n == 0 {
        (Seq::empty(), 0, 0)
    } else {
        let before = labels(b_rows, added, changed_b, (n - 1) as nat);
        let row = b_rows[n - 1];
        if before.1 < added.len() && added[before.1 as int] == row {
            (before.0.push(Verdict::Added), before.1 + 1, before.2)
        } else if before.2 < changed_b.len() && changed_b[before.2 as int] == row {
            (before.0.push(Verdict::Changed(before.2 as usize)), before.1, before.2 + 1)
        } else {
            (before.0.push(Verdict::Same), before.1, before.2)
        }
    }
}

/// Label every row of B from the report, in B's own order.
pub fn label_b_rows(b_rows: &Vec<Vec<(String, String)>>, diff: &TableDiff) -> (v: Vec<Verdict>)
    ensures
        v@ == labels(
            rows_view(b_rows@),
            rows_view(diff.added@),
            changed_b_view(diff.changed@),
            b_rows@.len(),
        ).0,
{
    let ghost rb = rows_view(b_rows@);
    let ghost ad = rows_view(diff.added@);
    let ghost ch = changed_b_view(diff.changed@);
    let mut v: Vec<Verdict> = Vec::new();
    let mut ai: usize = 0;
    let mut ci: usize = 0;
    let mut i: usize = 0;
    while i < b_rows.len()
        invariant
            i <= b_rows@.len(),
            ai <= diff.added@.len(),
            ci <= diff.changed@.len(),
            rb == rows_view(b_rows@),
            ad == rows_view(diff.added@),
            ch == changed_b_view(diff.changed@),
            labels(rb, ad, ch, i as nat) == (v@, ai as nat, ci as nat),
        decreases b_rows.len() - i,
    {
        let row = &b_rows[i];
        assert(rb[i as int] == row_view(row@));
        if ai < diff.added.len() && rows_equal(&diff.added[ai], row) {
            assert(ad[ai as int] == row_view(diff.added@[ai as int]@));
            v.push(Verdict::Added);
            ai += 1;
        } else if ci < diff.changed.len() && rows_equal(&diff.changed[ci].b, row) {
            assert(ad.len() == diff.added@.len());
            assert(ch[ci as int] == row_view(diff.changed@[ci as int].b@));
            v.push(Verdict::Changed(ci));
            ci += 1;
        } else {
            assert(ai < ad.len() ==> ad[ai as int] == row_view(diff.added@[ai as int]@));
            assert(ci < ch.len() ==> ch[ci as int] == row_view(diff.changed@[ci as int].b@));
            v.push(Verdict::Same);
        }
        i += 1;
    }
    v
}

// ---------------------------------------------------------------------------
// The painted lines
// ---------------------------------------------------------------------------

/// One painted cell: its text, and whether it shows a change.
pub struct Cell {
    pub text: String,
    pub changed: bool,
}

/// One painted line: its sign and a cell per display column.
pub struct Line {
    pub sign: Sign,
    pub cells: Vec<Cell>,
}

pub open spec fn cells_view(cells: Seq<Cell>) -> Seq<(Seq<char>, bool)> {
    cells.map_values(|c: Cell| (c.text@, c.changed))
}

pub open spec fn lines_view(lines: Seq<Line>) -> Seq<(Sign, Seq<(Seq<char>, bool)>)> {
    lines.map_values(|l: Line| (l.sign, cells_view(l.cells@)))
}

/// A row's cells under the display columns, none marked changed.
pub open spec fn plain_cells(row: Seq<(Seq<char>, Seq<char>)>, columns: Seq<Seq<char>>) -> Seq<(Seq<char>, bool)> {
    Seq::new(columns.len(), |j: int| (cell_text_spec(row, columns[j]), false))
}

/// What joins the two sides in a changed cell.
pub open spec fn arrow() -> Seq<char> {
    seq![' ', '\u{2192}', ' ']
}

/// A changed row's cells: a column that moved shows both sides, A's then
/// B's, and is marked; every other column shows B's value.
pub open spec fn changed_cells(
    a: Seq<(Seq<char>, Seq<char>)>,
    b: Seq<(Seq<char>, Seq<char>)>,
    moved: Seq<Seq<char>>,
    columns: Seq<Seq<char>>,
) -> Seq<(Seq<char>, bool)> {
    Seq::new(
        columns.len(),
        |j: int|
            if moved.contains(columns[j]) {
                (cell_text_spec(a, columns[j]) + arrow() + cell_text_spec(b, columns[j]), true)
            } else {
                (cell_text_spec(b, columns[j]), false)
            },
    )
}

/// The line for one row of B under its verdict.
pub open spec fn b_line(
    verdict: Verdict,
    row: Seq<(Seq<char>, Seq<char>)>,
    changed: Seq<RowDelta>,
    columns: Seq<Seq<char>>,
) -> (Sign, Seq<(Seq<char>, bool)>) {
    match verdict {
        Verdict::Same => (Sign::Same, plain_cells(row, columns)),
        Verdict::Added => (Sign::OnlyB, plain_cells(row, columns)),
        Verdict::Changed(d) => (
            Sign::Changed,
            changed_cells(
                row_view(changed[d as int].a@),
                row_view(changed[d as int].b@),
                strs(changed[d as int].changed_columns@),
                columns,
            ),
        ),
    }
}

/// B's rows as the table names them.
pub open spec fn b_rows_of(b: QueryResult) -> Seq<Seq<(Seq<char>, Seq<char>)>> {
    Seq::new(b.rows@.len(), |i: int| row_view(named_row(b.columns@, b.rows@[i]@)))
}

/// The table's lines: every row of B in B's order under its verdict, then
/// every row only A had, showing A's values.
pub open spec fn lines_spec(b: QueryResult, diff: TableDiff, columns: Seq<Seq<char>>) -> Seq<(Sign, Seq<(Seq<char>, bool)>)> {
    let rows = b_rows_of(b);
    let verdicts = labels(rows, rows_view(diff.added@), changed_b_view(diff.changed@), rows.len()).0;
    Seq::new(rows.len(), |i: int| b_line(verdicts[i], rows[i], diff.changed@, columns)) + Seq::new(
        diff.removed@.len(),
        |i: int| (Sign::OnlyA, plain_cells(row_view(diff.removed@[i]@), columns)),
    )
}

/// How many of `signs` are `s`.
pub open spec fn sign_count(signs: Seq<Sign>, s: Sign) -> nat
    decreases signs.len(),
{
    if signs.len() == 0 {
        0
    } else {
        sign_count(signs.drop_last(), s) + if signs.last() == s { 1nat } else { 0nat }
    }
}

/// The signs of some lines.
pub open spec fn signs_of(lines: Seq<(Sign, Seq<(Seq<char>, bool)>)>) -> Seq<Sign> {
    lines.map_values(|l: (Sign, Seq<(Seq<char>, bool)>)| l.0)
}

/// A row's cells, none marked changed.
fn plain_line(row: &Vec<(String, String)>, columns: &Vec<String>) -> (cells: Vec<Cell>)
    ensures
        cells_view(cells@) == plain_cells(row_view(row@), strs(columns@)),
{
    let mut cells: Vec<Cell> = Vec::new();
    let mut j: usize = 0;
    while j < columns.len()
        invariant
            j <= columns@.len(),
            cells@.len() == j,
            cells_view(cells@) == plain_cells(row_view(row@), strs(columns@)).take(j as int),
        decreases columns.len() - j,
    {
        let text = cell_text(row, columns[j].as_str());
        assert(strs(columns@)[j as int] == columns@[j as int]@);
        cells.push(Cell { text, changed: false });
        assert(cells_view(cells@) =~= plain_cells(row_view(row@), strs(columns@)).take(j + 1));
        j += 1;
    }
    assert(plain_cells(row_view(row@), strs(columns@)).take(columns@.len() as int) =~= plain_cells(
        row_view(row@),
        strs(columns@),
    ));
    cells
}

/// A changed row's cells.
fn changed_line(delta: &RowDelta, columns: &Vec<String>) -> (cells: Vec<Cell>)
    ensures
        cells_view(cells@) == changed_cells(
            row_view(delta.a@),
            row_view(delta.b@),
            strs(delta.changed_columns@),
            strs(columns@),
        ),
{
    let ghost want = changed_cells(
        row_view(delta.a@),
        row_view(delta.b@),
        strs(delta.changed_columns@),
        strs(columns@),
    );
    let mut cells: Vec<Cell> = Vec::new();
    let mut j: usize = 0;
    while j < columns.len()
        invariant
            j <= columns@.len(),
            want == changed_cells(
                row_view(delta.a@),
                row_view(delta.b@),
                strs(delta.changed_columns@),
                strs(columns@),
            ),
            cells@.len() == j,
            cells_view(cells@) == want.take(j as int),
        decreases columns.len() - j,
    {
        let c = columns[j].as_str();
        assert(strs(columns@)[j as int] == c@);
        let ghost before = cells@;
        if crate::compare::is_listed(&delta.changed_columns, c) {
            let mut text = crate::text::chars_of(cell_text(&delta.a, c).as_str());
            let sep: Vec<char> = vec![' ', '\u{2192}', ' '];
            crate::text::extend_chars(&mut text, sep.as_slice());
            let after = crate::text::chars_of(cell_text(&delta.b, c).as_str());
            crate::text::extend_chars(&mut text, after.as_slice());
            assert(sep@ == arrow());
            let t = crate::text::string_of(text.as_slice());
            cells.push(Cell { text: t, changed: true });
            assert(cells_view(cells@)[j as int] == want[j as int]);
        } else {
            let t = cell_text(&delta.b, c);
            cells.push(Cell { text: t, changed: false });
            assert(cells_view(cells@)[j as int] == want[j as int]);
        }
        assert(cells_view(cells@).take(j as int) == cells_view(before));
        assert(cells_view(cells@) =~= want.take(j + 1));
        j += 1;
    }
    assert(want.take(columns@.len() as int) =~= want);
    cells
}

// ---------------------------------------------------------------------------
// Columns only one side returned
// ---------------------------------------------------------------------------

/// Strictly ascending, character by character: the order a sorted set of
/// strings is walked in, each once.
pub open spec fn ascending(r: Seq<Seq<char>>) -> bool {
    forall|i: int, j: int| 0 <= i < j < r.len() ==> text_lt(#[trigger] r[i], #[trigger] r[j])
}

/// `r` is the columns of `x` that `y` lacks, each once, in ascending order.
pub open spec fn only_in(x: Seq<Seq<char>>, y: Seq<Seq<char>>, r: Seq<Seq<char>>) -> bool {
    &&& ascending(r)
    &&& forall|c: Seq<char>| #[trigger] r.contains(c) <==> (x.contains(c) && !y.contains(c))
}

proof fn lemma_strs_insert(v: Seq<String>, p: int, c: String)
    requires
        0 <= p <= v.len(),
    ensures
        strs(v.insert(p, c)) == strs(v).insert(p, c@),
{
    assert(strs(v.insert(p, c)) =~= strs(v).insert(p, c@));
}

proof fn lemma_strs_push(v: Seq<String>, c: String)
    ensures
        strs(v.push(c)) == strs(v).push(c@),
{
    assert(strs(v.push(c)) =~= strs(v).push(c@));
}

/// Put `c` into an ascending list that lacks it, keeping it ascending.
fn insert_sorted(v: &mut Vec<String>, c: String)
    requires
        ascending(strs(old(v)@)),
        !strs(old(v)@).contains(c@),
    ensures
        ascending(strs(final(v)@)),
        forall|x: Seq<char>| #[trigger] strs(final(v)@).contains(x) <==> (strs(old(v)@).contains(x) || x == c@),
{
    let ghost s = strs(v@);
    let mut p: usize = 0;
    while p < v.len()
        invariant
            p <= v@.len(),
            s == strs(v@),
            !s.contains(c@),
            forall|k: int| 0 <= k < p ==> text_lt(#[trigger] s[k], c@),
        ensures
            p <= v@.len(),
            forall|k: int| 0 <= k < p ==> text_lt(#[trigger] s[k], c@),
            p < v@.len() ==> text_lt(c@, s[p as int]),
        decreases v.len() - p,
    {
        assert(s[p as int] == v@[p as int]@);
        if text_less(c.as_str(), v[p].as_str()) {
            break;
        }
        proof {
            assert(s[p as int] != c@) by {
                assert(s.contains(s[p as int]));
            }
            lemma_text_lt_total(s[p as int], c@);
        }
        p += 1;
    }
    // Everything from `p` on sorts after `c`.
    proof {
        assert forall|k: int| p <= k < s.len() implies text_lt(c@, #[trigger] s[k]) by {
            if k > p {
                lemma_text_lt_transitive(c@, s[p as int], s[k]);
            }
        }
    }
    let ghost cv = c@;
    v.insert(p, c);
    proof {
        lemma_strs_insert(old(v)@, p as int, v@[p as int]);
        let t = strs(v@);
        assert(t == s.insert(p as int, cv));
        assert forall|i: int, j: int| 0 <= i < j < t.len() implies text_lt(#[trigger] t[i], #[trigger] t[j]) by {
            if j < p {
            } else if i < p && j == p {
            } else if i < p {
                lemma_text_lt_transitive(t[i], cv, t[j]);
            } else if i == p {
            } else {
            }
        }
        assert forall|x: Seq<char>| #[trigger] t.contains(x) <==> (s.contains(x) || x == cv) by {
            if t.contains(x) {
                let k = choose|k: int| 0 <= k < t.len() && t[k] == x;
                if k < p {
                    assert(s[k] == x);
                } else if k > p {
                    assert(s[k - 1] == x);
                }
            }
            if s.contains(x) {
                let k = choose|k: int| 0 <= k < s.len() && s[k] == x;
                if k < p {
                    assert(t[k] == x);
                } else {
                    assert(t[k + 1] == x);
                }
            }
            if x == cv {
                assert(t[p as int] == x);
            }
        }
    }
}

/// The columns of `x` that `y` lacks, each once, in ascending order.
pub fn only_cols(x: &Vec<String>, y: &Vec<String>) -> (r: Vec<String>)
    ensures
        only_in(strs(x@), strs(y@), strs(r@)),
{
    let mut r: Vec<String> = Vec::new();
    let mut i: usize = 0;
    while i < x.len()
        invariant
            i <= x@.len(),
            ascending(strs(r@)),
            forall|c: Seq<char>|
                #[trigger] strs(r@).contains(c) <==> (strs(x@).take(i as int).contains(c) && !strs(y@).contains(c)),
        decreases x.len() - i,
    {
        let c = x[i].as_str();
        assert(strs(x@)[i as int] == c@);
        assert(strs(x@).take(i + 1) =~= strs(x@).take(i as int).push(c@));
        let ghost before = strs(r@);
        if !crate::compare::is_listed(y, c) && !crate::compare::is_listed(&r, c) {
            insert_sorted(&mut r, x[i].clone());
        }
        proof {
            assert forall|d: Seq<char>|
                #[trigger] strs(r@).contains(d) <==> (strs(x@).take(i + 1).contains(d) && !strs(y@).contains(d)) by {
                let t = strs(x@).take(i as int);
                if t.push(c@).contains(d) && d != c@ {
                    let k = choose|k: int| 0 <= k < t.push(c@).len() && t.push(c@)[k] == d;
                    assert(t[k] == d);
                }
                if t.contains(d) {
                    let k = choose|k: int| 0 <= k < t.len() && t[k] == d;
                    assert(t.push(c@)[k] == d);
                }
                if d == c@ {
                    assert(t.push(c@)[i as int] == d);
                }
            }
        }
        i += 1;
    }
    assert(strs(x@).take(x@.len() as int) =~= strs(x@));
    r
}

/// `r` holds exactly the texts `items` holds, each once, in ascending order:
/// a sorted set of them.
pub open spec fn as_sorted_set(items: Seq<Seq<char>>, r: Seq<Seq<char>>) -> bool {
    &&& ascending(r)
    &&& forall|c: Seq<char>| #[trigger] r.contains(c) <==> items.contains(c)
}

/// The texts of `items` as a sorted set.
pub fn sorted_set_of(items: &Vec<String>) -> (r: Vec<String>)
    ensures
        as_sorted_set(strs(items@), strs(r@)),
{
    let none: Vec<String> = Vec::new();
    let r = only_cols(items, &none);
    assert(strs(none@) =~= Seq::<Seq<char>>::empty());
    r
}

// ---------------------------------------------------------------------------
// The prepared view
// ---------------------------------------------------------------------------

/// The labels keep within the report, and there is one per row.
proof fn lemma_labels_shape(
    b_rows: Seq<Seq<(Seq<char>, Seq<char>)>>,
    added: Seq<Seq<(Seq<char>, Seq<char>)>>,
    changed_b: Seq<Seq<(Seq<char>, Seq<char>)>>,
    n: nat,
)
    ensures
        labels(b_rows, added, changed_b, n).0.len() == n,
        labels(b_rows, added, changed_b, n).1 <= added.len(),
        labels(b_rows, added, changed_b, n).2 <= changed_b.len(),
        forall|i: int|
            0 <= i < n ==> (#[trigger] labels(b_rows, added, changed_b, n).0[i] matches Verdict::Changed(d)
                ==> d < changed_b.len()),
    decreases n,
{
    if n > 0 {
        lemma_labels_shape(b_rows, added, changed_b, (n - 1) as nat);
        let before = labels(b_rows, added, changed_b, (n - 1) as nat);
        let now = labels(b_rows, added, changed_b, n);
        assert forall|i: int| 0 <= i < n implies (#[trigger] now.0[i] matches Verdict::Changed(d) ==> d
            < changed_b.len()) by {
            if i < n - 1 {
                assert(now.0[i] == before.0[i]);
            }
        }
    }
}

proof fn lemma_lines_push(lines: Seq<Line>, l: Line)
    ensures
        lines_view(lines.push(l)) == lines_view(lines).push((l.sign, cells_view(l.cells@))),
        signs_of(lines_view(lines.push(l))) == signs_of(lines_view(lines)).push(l.sign),
{
    assert(lines_view(lines.push(l)) =~= lines_view(lines).push((l.sign, cells_view(l.cells@))));
    assert(signs_of(lines_view(lines.push(l))) =~= signs_of(lines_view(lines)).push(l.sign));
}

/// The four per-sign counts of some lines.
pub open spec fn counted(signs: Seq<Sign>, n0: usize, n1: usize, n2: usize, n3: usize) -> bool {
    &&& n0 == sign_count(signs, Sign::Same)
    &&& n1 == sign_count(signs, Sign::Changed)
    &&& n2 == sign_count(signs, Sign::OnlyA)
    &&& n3 == sign_count(signs, Sign::OnlyB)
    &&& n0 + n1 + n2 + n3 == signs.len()
}

/// Every line is counted under exactly one sign: the four counts add up
/// to the number of lines.
pub proof fn lemma_every_line_is_counted_once(signs: Seq<Sign>)
    ensures
        sign_count(signs, Sign::Same) + sign_count(signs, Sign::Changed) + sign_count(signs, Sign::OnlyA)
            + sign_count(signs, Sign::OnlyB) == signs.len(),
    decreases signs.len(),
{
    if signs.len() > 0 {
        lemma_every_line_is_counted_once(signs.drop_last());
    }
}

/// The shape of the prepared lines: one per row of B and one per row only A
/// had; every line has a cell per display column; the lines after B's rows
/// are all only-on-A; and only a changed line has a cell marked changed.
pub proof fn lemma_line_shape(b: QueryResult, diff: TableDiff, columns: Seq<Seq<char>>)
    ensures
        ({
            let lines = lines_spec(b, diff, columns);
            let nb = b.rows@.len();
            &&& lines.len() == nb + diff.removed@.len()
            &&& forall|j: int| 0 <= j < lines.len() ==> (#[trigger] lines[j]).1.len() == columns.len()
            &&& forall|j: int| nb <= j < lines.len() ==> (#[trigger] lines[j]).0 == Sign::OnlyA
            &&& forall|j: int, k: int|
                0 <= j < lines.len() && 0 <= k < lines[j].1.len() && (#[trigger] lines[j].1[k]).1 ==> lines[j].0
                    == Sign::Changed
        }),
{
    let rows = b_rows_of(b);
    lemma_labels_shape(rows, rows_view(diff.added@), changed_b_view(diff.changed@), rows.len());
    let lines = lines_spec(b, diff, columns);
    let verdicts = labels(rows, rows_view(diff.added@), changed_b_view(diff.changed@), rows.len()).0;
    assert forall|j: int| 0 <= j < lines.len() implies (#[trigger] lines[j]).1.len() == columns.len() by {
        if j < rows.len() {
            assert(lines[j] == b_line(verdicts[j], rows[j], diff.changed@, columns));
        }
    }
    assert forall|j: int, k: int|
        0 <= j < lines.len() && 0 <= k < lines[j].1.len() && (#[trigger] lines[j].1[k]).1 implies lines[j].0
            == Sign::Changed by {
        if j < rows.len() {
            assert(lines[j] == b_line(verdicts[j], rows[j], diff.changed@, columns));
        }
    }
}

/// Everything the table paints, and what the export writes.
pub struct DiffView {
    pub columns: Vec<String>,
    pub keys: Vec<String>,
    pub key_source: KeySource,
    pub key_note: Option<String>,
    pub ignored: Vec<String>,
    pub lines: Vec<Line>,
    /// Per-[`Sign::rank`] counts, for the legend.
    pub counts: [usize; 4],
    /// Columns only A returned, and only B: every matched row differs in
    /// them, so the view says so out loud.
    pub only_a_cols: Vec<String>,
    pub only_b_cols: Vec<String>,
    /// Both sides were whole reads.
    pub sound: bool,
    /// The report, kept for the JSON export.
    pub diff: TableDiff,
}

/// `v` is the view of `a` against `b` under `plan` and the report `diff`:
/// each row of B in B's order under its verdict, then each row only A had;
/// the per-sign counts, which add up to the lines; the columns only one
/// side returned; and the plan's key, columns, ignores and soundness.
pub open spec fn built_from(v: DiffView, a: QueryResult, b: QueryResult, plan: DiffPlan, diff: TableDiff) -> bool {
    &&& lines_view(v.lines@) == lines_spec(b, diff, strs(plan.columns@))
    &&& v.counts@[0] == sign_count(signs_of(lines_view(v.lines@)), Sign::Same)
    &&& v.counts@[1] == sign_count(signs_of(lines_view(v.lines@)), Sign::Changed)
    &&& v.counts@[2] == sign_count(signs_of(lines_view(v.lines@)), Sign::OnlyA)
    &&& v.counts@[3] == sign_count(signs_of(lines_view(v.lines@)), Sign::OnlyB)
    &&& v.lines@.len() == b.rows@.len() + diff.removed@.len()
    &&& v.counts@[0] + v.counts@[1] + v.counts@[2] + v.counts@[3] == v.lines@.len()
    &&& forall|j: int| 0 <= j < v.lines@.len() ==> (#[trigger] v.lines@[j]).cells@.len() == plan.columns@.len()
    &&& forall|j: int| b.rows@.len() <= j < v.lines@.len() ==> (#[trigger] v.lines@[j]).sign == Sign::OnlyA
    &&& forall|j: int, k: int|
        0 <= j < v.lines@.len() && 0 <= k < v.lines@[j].cells@.len() && (#[trigger] v.lines@[j].cells@[k]).changed
            ==> v.lines@[j].sign == Sign::Changed
    &&& only_in(strs(a.columns@), strs(b.columns@), strs(v.only_a_cols@))
    &&& only_in(strs(b.columns@), strs(a.columns@), strs(v.only_b_cols@))
    &&& v.columns == plan.columns
    &&& v.keys == plan.keys
    &&& v.key_source == plan.source
    &&& v.key_note == plan.note
    &&& v.ignored == plan.ignored
    &&& v.sound == plan.sound
    &&& v.diff == diff
}

/// Add one line and count its sign.
fn push_line(lines: &mut Vec<Line>, counts: &mut (usize, usize, usize, usize), l: Line)
    requires
        counted(signs_of(lines_view(old(lines)@)), old(counts).0, old(counts).1, old(counts).2, old(counts).3),
    ensures
        final(lines)@ == old(lines)@.push(l),
        counted(signs_of(lines_view(final(lines)@)), final(counts).0, final(counts).1, final(counts).2, final(counts).3),
{
    proof {
        lemma_lines_push(lines@, l);
    }
    let sign = l.sign;
    lines.push(l);
    let len = lines.len();
    let ghost sg = signs_of(lines_view(lines@));
    assert(sg.drop_last() == signs_of(lines_view(old(lines)@)));
    match sign {
        Sign::Same => counts.0 = counts.0 + 1,
        Sign::Changed => counts.1 = counts.1 + 1,
        Sign::OnlyA => counts.2 = counts.2 + 1,
        Sign::OnlyB => counts.3 = counts.3 + 1,
    }
    assert(len == sg.len());
}

/// Build everything the table paints from the two results, the plan the
/// rebuild resolved (key, display columns, ignored columns, soundness) and
/// the differ's report: each row of B in B's order under its verdict, then
/// each row only A had; the per-sign counts; and the columns only one side
/// returned.
pub fn build_view(a: &QueryResult, b: &QueryResult, plan: DiffPlan, diff: TableDiff) -> (v: DiffView)
    ensures
        built_from(v, *a, *b, plan, diff),
{
    let ghost cols = strs(plan.columns@);
    let ghost want = lines_spec(*b, diff, cols);
    let b_rows = row_maps(b);
    let verdicts = label_b_rows(&b_rows, &diff);
    let ghost rows = b_rows_of(*b);
    assert(rows_view(b_rows@) =~= rows);
    proof {
        lemma_labels_shape(rows, rows_view(diff.added@), changed_b_view(diff.changed@), rows.len());
    }
    let mut lines: Vec<Line> = Vec::new();
    let mut counts: (usize, usize, usize, usize) = (0, 0, 0, 0);
    let mut i: usize = 0;
    while i < b_rows.len()
        invariant
            i <= b_rows@.len(),
            b_rows@.len() == rows.len(),
            rows == b_rows_of(*b),
            rows_view(b_rows@) == rows,
            cols == strs(plan.columns@),
            want == lines_spec(*b, diff, cols),
            verdicts@ == labels(rows, rows_view(diff.added@), changed_b_view(diff.changed@), rows.len()).0,
            verdicts@.len() == rows.len(),
            forall|k: int|
                0 <= k < rows.len() ==> (#[trigger] verdicts@[k] matches Verdict::Changed(d) ==> d
                    < diff.changed@.len()),
            lines_view(lines@) == want.take(i as int),
            counted(signs_of(lines_view(lines@)), counts.0, counts.1, counts.2, counts.3),
        decreases b_rows.len() - i,
    {
        assert(rows[i as int] == row_view(b_rows@[i as int]@));
        let l = match verdicts[i] {
            Verdict::Same => Line { sign: Sign::Same, cells: plain_line(&b_rows[i], &plan.columns) },
            Verdict::Added => Line { sign: Sign::OnlyB, cells: plain_line(&b_rows[i], &plan.columns) },
            Verdict::Changed(d) => Line { sign: Sign::Changed, cells: changed_line(&diff.changed[d], &plan.columns) },
        };
        assert((l.sign, cells_view(l.cells@)) == want[i as int]);
        push_line(&mut lines, &mut counts, l);
        assert(lines_view(lines@) =~= want.take(i + 1));
        i += 1;
    }
    let mut k: usize = 0;
    while k < diff.removed.len()
        invariant
            k <= diff.removed@.len(),
            cols == strs(plan.columns@),
            want == lines_spec(*b, diff, cols),
            want.len() == rows.len() + diff.removed@.len(),
            lines_view(lines@) == want.take(rows.len() + k),
            counted(signs_of(lines_view(lines@)), counts.0, counts.1, counts.2, counts.3),
        decreases diff.removed.len() - k,
    {
        let l = Line { sign: Sign::OnlyA, cells: plain_line(&diff.removed[k], &plan.columns) };
        assert((l.sign, cells_view(l.cells@)) == want[rows.len() + k]);
        push_line(&mut lines, &mut counts, l);
        assert(lines_view(lines@) =~= want.take(rows.len() + k + 1));
        k += 1;
    }
    assert(want.take(want.len() as int) =~= want);
    proof {
        lemma_line_shape(*b, diff, cols);
        let lv = lines_view(lines@);
        assert forall|j: int| 0 <= j < lines@.len() implies (#[trigger] lines@[j]).cells@.len() == plan.columns@.len() by {
            assert(lv[j] == (lines@[j].sign, cells_view(lines@[j].cells@)));
        }
        assert forall|j: int| b.rows@.len() <= j < lines@.len() implies (#[trigger] lines@[j]).sign == Sign::OnlyA by {
            assert(lv[j] == (lines@[j].sign, cells_view(lines@[j].cells@)));
        }
        assert forall|j: int, k: int|
            0 <= j < lines@.len() && 0 <= k < lines@[j].cells@.len() && (#[trigger] lines@[j].cells@[k]).changed
                implies lines@[j].sign == Sign::Changed by {
            assert(lv[j] == (lines@[j].sign, cells_view(lines@[j].cells@)));
            assert(lv[j].1[k] == (lines@[j].cells@[k].text@, lines@[j].cells@[k].changed));
        }
    }
    let only_a_cols = only_cols(&a.columns, &b.columns);
    let only_b_cols = only_cols(&b.columns, &a.columns);
    let counts_arr: [usize; 4] = [counts.0, counts.1, counts.2, counts.3];
    DiffView {
        columns: plan.columns,
        keys: plan.keys,
        key_source: plan.source,
        key_note: plan.note,
        ignored: plan.ignored,
        lines,
        counts: counts_arr,
        only_a_cols,
        only_b_cols,
        sound: plan.sound,
        diff,
    }
}

// ---------------------------------------------------------------------------
// The CSV export
// ---------------------------------------------------------------------------

/// One exported line: the sign's mark, the side, then the row's cells.
pub open spec fn side_cells(
    mark: Seq<char>,
    side: Seq<char>,
    row: Seq<(Seq<char>, Seq<char>)>,
    columns: Seq<Seq<char>>,
) -> Seq<Seq<char>> {
    seq![mark, side] + Seq::new(columns.len(), |j: int| cell_text_spec(row, columns[j]))
}

/// Each changed row as two exported lines, A's then B's.
pub open spec fn changed_csv_rows(changed: Seq<RowDelta>, columns: Seq<Seq<char>>) -> Seq<Seq<Seq<char>>>
    decreases changed.len(),
{
    if changed.len() == 0 {
        Seq::empty()
    } else {
        changed_csv_rows(changed.drop_last(), columns).push(
            side_cells("!="@, "A"@, row_view(changed.last().a@), columns),
        ).push(side_cells("!="@, "B"@, row_view(changed.last().b@), columns))
    }
}

/// Each row as one exported line under one mark and side.
pub open spec fn plain_csv_rows(
    rows: Seq<Vec<(String, String)>>,
    mark: Seq<char>,
    side: Seq<char>,
    columns: Seq<Seq<char>>,
) -> Seq<Seq<Seq<char>>>
    decreases rows.len(),
{
    if rows.len() == 0 {
        Seq::empty()
    } else {
        plain_csv_rows(rows.drop_last(), mark, side, columns).push(
            side_cells(mark, side, row_view(rows.last()@), columns),
        )
    }
}

/// The identical lines as exported, from the prepared lines: B's rows by
/// construction.
pub open spec fn same_csv_rows(lines: Seq<(Sign, Seq<(Seq<char>, bool)>)>) -> Seq<Seq<Seq<char>>>
    decreases lines.len(),
{
    if lines.len() == 0 {
        Seq::empty()
    } else {
        let rest = same_csv_rows(lines.drop_last());
        if lines.last().0 == Sign::Same {
            rest.push(seq!["="@, "B"@] + lines.last().1.map_values(|c: (Seq<char>, bool)| c.0))
        } else {
            rest
        }
    }
}

/// The exported table: a header, then one line per side-row: both sides of
/// each changed row, the rows only on B, the rows only on A, then the
/// identical rows.
pub open spec fn csv_table(view: DiffView) -> Seq<Seq<Seq<char>>> {
    let columns = strs(view.columns@);
    seq![seq!["Diff"@, "Side"@] + columns] + changed_csv_rows(view.diff.changed@, columns) + plain_csv_rows(
        view.diff.added@,
        "+"@,
        "B"@,
        columns,
    ) + plain_csv_rows(view.diff.removed@, "-"@, "A"@, columns) + same_csv_rows(lines_view(view.lines@))
}

/// One CSV record: the fields quoted where RFC 4180 asks, comma-separated,
/// ending in a newline.
pub open spec fn csv_line(cells: Seq<Seq<char>>) -> Seq<char> {
    crate::text::join(cells.map_values(|c: Seq<char>| crate::process::csv_field_spec(c)), seq![',']) + seq!['\n']
}

/// The records one after another.
pub open spec fn csv_text(rows: Seq<Seq<Seq<char>>>) -> Seq<char>
    decreases rows.len(),
{
    if rows.len() == 0 {
        Seq::empty()
    } else {
        csv_text(rows.drop_last()) + csv_line(rows.last())
    }
}

/// One exported line.
fn side_row(mark: &str, side: &str, row: &Vec<(String, String)>, columns: &Vec<String>) -> (r: Vec<String>)
    ensures
        strs(r@) == side_cells(mark@, side@, row_view(row@), strs(columns@)),
{
    let mut r: Vec<String> = Vec::new();
    r.push(mark.to_string());
    r.push(side.to_string());
    let mut j: usize = 0;
    while j < columns.len()
        invariant
            j <= columns@.len(),
            strs(r@) == side_cells(mark@, side@, row_view(row@), strs(columns@)).take(j + 2),
        decreases columns.len() - j,
    {
        assert(strs(columns@)[j as int] == columns@[j as int]@);
        let t = cell_text(row, columns[j].as_str());
        let ghost before = r@;
        r.push(t);
        proof {
            lemma_strs_push(before, t);
        }
        assert(strs(r@) =~= side_cells(mark@, side@, row_view(row@), strs(columns@)).take(j + 3));
        j += 1;
    }
    assert(side_cells(mark@, side@, row_view(row@), strs(columns@)).take(columns@.len() as int + 2) =~= side_cells(
        mark@,
        side@,
        row_view(row@),
        strs(columns@),
    ));
    r
}

/// The exported records as lists of fields.
pub open spec fn records(rows: Seq<Vec<String>>) -> Seq<Seq<Seq<char>>> {
    rows.map_values(|r: Vec<String>| strs(r@))
}

proof fn lemma_records_push(rows: Seq<Vec<String>>, r: Vec<String>)
    ensures
        records(rows.push(r)) == records(rows).push(strs(r@)),
{
    assert(records(rows.push(r)) =~= records(rows).push(strs(r@)));
}

/// The exported table as records, header first.
pub fn diff_csv_records(view: &DiffView) -> (rows: Vec<Vec<String>>)
    ensures
        records(rows@) == csv_table(*view),
{
    let ghost columns = strs(view.columns@);
    let mut rows: Vec<Vec<String>> = Vec::new();
    let mut header: Vec<String> = Vec::new();
    header.push("Diff".to_string());
    header.push("Side".to_string());
    let mut j: usize = 0;
    while j < view.columns.len()
        invariant
            j <= view.columns@.len(),
            strs(header@) == seq!["Diff"@, "Side"@] + columns.take(j as int),
            columns == strs(view.columns@),
        decreases view.columns.len() - j,
    {
        let ghost before = header@;
        let c = view.columns[j].clone();
        header.push(c);
        proof {
            lemma_strs_push(before, c);
        }
        assert(strs(header@) =~= seq!["Diff"@, "Side"@] + columns.take(j + 1));
        j += 1;
    }
    assert(columns.take(columns.len() as int) =~= columns);
    proof {
        lemma_records_push(rows@, header);
    }
    rows.push(header);
    let ghost so_far = records(rows@);
    // Both sides of each changed row.
    let changed = &view.diff.changed;
    let mut k: usize = 0;
    while k < changed.len()
        invariant
            k <= changed@.len(),
            columns == strs(view.columns@),
            records(rows@) == so_far + changed_csv_rows(changed@.take(k as int), columns),
        decreases changed.len() - k,
    {
        assert(changed@.take(k + 1).drop_last() =~= changed@.take(k as int));
        let ra = side_row("!=", "A", &changed[k].a, &view.columns);
        proof {
            lemma_records_push(rows@, ra);
        }
        rows.push(ra);
        let rb = side_row("!=", "B", &changed[k].b, &view.columns);
        proof {
            lemma_records_push(rows@, rb);
        }
        rows.push(rb);
        assert(records(rows@) =~= so_far + changed_csv_rows(changed@.take(k + 1), columns));
        k += 1;
    }
    assert(changed@.take(changed@.len() as int) =~= changed@);
    let ghost so_far = records(rows@);
    let added = &view.diff.added;
    let mut k: usize = 0;
    while k < added.len()
        invariant
            k <= added@.len(),
            columns == strs(view.columns@),
            records(rows@) == so_far + plain_csv_rows(added@.take(k as int), "+"@, "B"@, columns),
        decreases added.len() - k,
    {
        assert(added@.take(k + 1).drop_last() =~= added@.take(k as int));
        let r = side_row("+", "B", &added[k], &view.columns);
        proof {
            lemma_records_push(rows@, r);
        }
        rows.push(r);
        assert(records(rows@) =~= so_far + plain_csv_rows(added@.take(k + 1), "+"@, "B"@, columns));
        k += 1;
    }
    assert(added@.take(added@.len() as int) =~= added@);
    let ghost so_far = records(rows@);
    let removed = &view.diff.removed;
    let mut k: usize = 0;
    while k < removed.len()
        invariant
            k <= removed@.len(),
            columns == strs(view.columns@),
            records(rows@) == so_far + plain_csv_rows(removed@.take(k as int), "-"@, "A"@, columns),
        decreases removed.len() - k,
    {
        assert(removed@.take(k + 1).drop_last() =~= removed@.take(k as int));
        let r = side_row("-", "A", &removed[k], &view.columns);
        proof {
            lemma_records_push(rows@, r);
        }
        rows.push(r);
        assert(records(rows@) =~= so_far + plain_csv_rows(removed@.take(k + 1), "-"@, "A"@, columns));
        k += 1;
    }
    assert(removed@.take(removed@.len() as int) =~= removed@);
    let ghost so_far = records(rows@);
    let ghost lv = lines_view(view.lines@);
    let mut k: usize = 0;
    while k < view.lines.len()
        invariant
            k <= view.lines@.len(),
            lv == lines_view(view.lines@),
            records(rows@) == so_far + same_csv_rows(lv.take(k as int)),
        decreases view.lines.len() - k,
    {
        assert(lv.take(k + 1).drop_last() =~= lv.take(k as int));
        let line = &view.lines[k];
        assert(lv.take(k + 1).last() == (line.sign, cells_view(line.cells@)));
        if line.sign == Sign::Same {
            let mut r: Vec<String> = Vec::new();
            r.push("=".to_string());
            r.push("B".to_string());
            let mut j: usize = 0;
            while j < line.cells.len()
                invariant
                    j <= line.cells@.len(),
                    strs(r@) == seq!["="@, "B"@] + cells_view(line.cells@).map_values(
                        |c: (Seq<char>, bool)| c.0,
                    ).take(j as int),
                decreases line.cells.len() - j,
            {
                let ghost before = r@;
                let t = line.cells[j].text.clone();
                r.push(t);
                proof {
                    lemma_strs_push(before, t);
                }
                assert(strs(r@) =~= seq!["="@, "B"@] + cells_view(line.cells@).map_values(
                    |c: (Seq<char>, bool)| c.0,
                ).take(j + 1));
                j += 1;
            }
            assert(cells_view(line.cells@).map_values(|c: (Seq<char>, bool)| c.0).take(
                line.cells@.len() as int,
            ) =~= cells_view(line.cells@).map_values(|c: (Seq<char>, bool)| c.0));
            proof {
                lemma_records_push(rows@, r);
            }
            rows.push(r);
        }
        assert(records(rows@) =~= so_far + same_csv_rows(lv.take(k + 1)));
        k += 1;
    }
    assert(lv.take(lv.len() as int) =~= lv);
    rows
}

/// One record as CSV: each field quoted where RFC 4180 asks, comma-separated,
/// and a newline.
fn csv_record(fields: &Vec<String>) -> (r: Vec<char>)
    ensures
        r@ == csv_line(strs(fields@)),
{
    let ghost want = strs(fields@).map_values(|c: Seq<char>| crate::process::csv_field_spec(c));
    let mut parts: Vec<Vec<char>> = Vec::new();
    let mut j: usize = 0;
    while j < fields.len()
        invariant
            j <= fields@.len(),
            want == strs(fields@).map_values(|c: Seq<char>| crate::process::csv_field_spec(c)),
            parts@.len() == j,
            forall|k: int| 0 <= k < j ==> #[trigger] parts@[k]@ == want[k],
        decreases fields.len() - j,
    {
        assert(strs(fields@)[j as int] == fields@[j as int]@);
        let q = crate::process::csv_field(fields[j].as_str());
        parts.push(crate::text::chars_of(q.as_str()));
        j += 1;
    }
    assert(parts@.map_values(|p: Vec<char>| p@) =~= want);
    let sep: Vec<char> = vec![','];
    assert(sep@ == seq![',']);
    let mut line = crate::text::join_chars(&parts, sep.as_slice());
    line.push('\n');
    assert(line@ =~= csv_line(strs(fields@)));
    line
}

/// Records as CSV text, one after another.
pub fn csv_of(rows: &Vec<Vec<String>>) -> (r: String)
    ensures
        r@ == csv_text(records(rows@)),
{
    let ghost rs = records(rows@);
    let mut out: Vec<char> = Vec::new();
    let mut i: usize = 0;
    while i < rows.len()
        invariant
            i <= rows@.len(),
            rs == records(rows@),
            out@ == csv_text(rs.take(i as int)),
        decreases rows.len() - i,
    {
        assert(rs.take(i + 1).drop_last() =~= rs.take(i as int));
        let line = csv_record(&rows[i]);
        crate::text::extend_chars(&mut out, line.as_slice());
        i += 1;
    }
    assert(rs.take(rs.len() as int) =~= rs);
    crate::text::string_of(out.as_slice())
}

/// The diff as CSV: one record per side-row, so a changed row is two records
/// and every field holds one value; header first, then both sides of each
/// changed row, the rows only on B, the rows only on A, the identical rows.
///
/// Every field is quoted by the process log's `csv_field` rule: a field that
/// holds a comma, a quote or a line break is put in quotes with its quotes
/// doubled, any other field is written as it is, and each record ends in a
/// newline. The query engine's own table exporter is not part of this
/// library; this rule is the one written here.
pub fn diff_to_csv(view: &DiffView) -> (r: String)
    ensures
        r@ == csv_text(csv_table(*view)),
{
    let rows = diff_csv_records(view);
    csv_of(&rows)
}

} // verus!
