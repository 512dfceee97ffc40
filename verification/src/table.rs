//! The data table's sort: the three-state header cycle, the key order, and
//! the display order of the rows.
//!
//! The caller's data is never touched -- sorting permutes a vector of row
//! indices, so a selection keyed by data index stays valid. The sort is
//! stable: rows whose keys tie keep the caller's natural order, in both
//! directions.

use vstd::prelude::*;
use core::cmp::Ordering;
use crate::text::{chars_of, parse_u64, parse_u64_spec};

verus! {

// ---------------------------------------------------------------------------
// The header cycle
// ---------------------------------------------------------------------------

/// The sort after a click on `col`: off -> ascending -> descending -> off on
/// one column; a click on a different column always starts it ascending.
pub open spec fn cycled(sort: Option<(usize, bool)>, col: usize) -> Option<(usize, bool)> {
    match sort {
        Some((c, asc)) => if c == col {
            if asc { Some((col, false)) } else { None }
        } else {
            Some((col, true))
        },
        None => Some((col, true)),
    }
}

/// Cycle the sort for `col`.
pub fn cycle_sort(sort: &mut Option<(usize, bool)>, col: usize)
    ensures
        *final(sort) == cycled(*old(sort), col),
{
    let next = match *sort {
        Some((c, asc)) => if c == col {
            if asc { Some((col, false)) } else { None }
        } else {
            Some((col, true))
        },
        None => Some((col, true)),
    };
    *sort = next;
}

/// Three clicks on one column bring its sort back to where it was: the
/// header cycle has period three.
pub proof fn lemma_three_clicks_return(sort: Option<(usize, bool)>, col: usize)
    requires
        sort matches Some((c, _)) ==> c == col,
    ensures
        cycled(cycled(cycled(sort, col), col), col) == sort,
{
}

/// A click on another column starts that column ascending, whatever the
/// previous column was doing.
pub proof fn lemma_new_column_ascends(sort: Option<(usize, bool)>, col: usize)
    requires
        sort matches Some((c, _)) ==> c != col,
    ensures
        cycled(sort, col) == Some((col, true)),
{
}

/// The sort direction shown on column `col`'s header, or `None` when some
/// other column is active.
pub fn sorted_dir(sort: Option<(usize, bool)>, col: usize) -> (r: Option<bool>)
    ensures
        r == match sort {
            Some((c, asc)) => if c == col { Some(asc) } else { None },
            None => None,
        },
{
    match sort {
        Some((c, ascending)) => if c == col { Some(ascending) } else { None },
        None => None,
    }
}

// ---------------------------------------------------------------------------
// The key order
// ---------------------------------------------------------------------------

/// Strictly before, character by character (the order of `str`).
pub open spec fn text_lt(a: Seq<char>, b: Seq<char>) -> bool
    decreases a.len(),
{
    if a.len() == 0 {
        b.len() > 0
    } else if b.len() == 0 {
        false
    } else if a[0] != b[0] {
        a[0] < b[0]
    } else {
        text_lt(a.drop_first(), b.drop_first())
    }
}

/// The key order of a sortable cell: a cell that reads as a number sorts by
/// its value, so `"9"` comes before `"10"`; numbers come before text; text
/// sorts character by character.
pub open spec fn key_lt(a: Seq<char>, b: Seq<char>) -> bool {
    match (parse_u64_spec(a), parse_u64_spec(b)) {
        (Some(x), Some(y)) => x < y,
        (Some(_), None) => true,
        (None, Some(_)) => false,
        (None, None) => text_lt(a, b),
    }
}

/// Neither key sorts before the other.
pub open spec fn key_tie(a: Seq<char>, b: Seq<char>) -> bool {
    !key_lt(a, b) && !key_lt(b, a)
}

pub proof fn lemma_text_lt_irreflexive(a: Seq<char>)
    ensures
        !text_lt(a, a),
    decreases a.len(),
{
    if a.len() > 0 {
        lemma_text_lt_irreflexive(a.drop_first());
    }
}

pub proof fn lemma_text_lt_transitive(a: Seq<char>, b: Seq<char>, c: Seq<char>)
    requires
        text_lt(a, b),
        text_lt(b, c),
    ensures
        text_lt(a, c),
    decreases a.len(),
{
    if a.len() > 0 && b.len() > 0 && c.len() > 0 && a[0] == b[0] && b[0] == c[0] {
        lemma_text_lt_transitive(a.drop_first(), b.drop_first(), c.drop_first());
    }
}

/// Two texts that tie are the same text.
pub proof fn lemma_text_lt_total(a: Seq<char>, b: Seq<char>)
    ensures
        text_lt(a, b) || text_lt(b, a) || a == b,
    decreases a.len(),
{
    if a.len() > 0 && b.len() > 0 {
        if a[0] == b[0] {
            lemma_text_lt_total(a.drop_first(), b.drop_first());
            if a.drop_first() == b.drop_first() {
                assert(a =~= seq![a[0]] + a.drop_first());
                assert(b =~= seq![b[0]] + b.drop_first());
            }
        }
    } else if a.len() == 0 && b.len() == 0 {
        assert(a =~= b);
    }
}

/// The key order is a strict weak order -- irreflexive, transitive, and
/// with ties that are themselves transitive -- which is what a stable sort
/// needs to be well defined. Text keys tie only when they are equal.
pub proof fn lemma_key_order(a: Seq<char>, b: Seq<char>, c: Seq<char>)
    ensures
        !key_lt(a, a),
        key_lt(a, b) && key_lt(b, c) ==> key_lt(a, c),
        key_tie(a, b) && key_tie(b, c) ==> key_tie(a, c),
        key_lt(a, b) ==> !key_lt(b, a),
        parse_u64_spec(a) is None && parse_u64_spec(b) is None && key_tie(a, b) ==> a == b,
{
    lemma_text_lt_irreflexive(a);
    lemma_text_lt_total(a, b);
    lemma_text_lt_total(b, c);
    lemma_text_lt_total(a, c);
    if text_lt(a, b) && text_lt(b, c) {
        lemma_text_lt_transitive(a, b, c);
    }
    if text_lt(a, b) && text_lt(b, a) {
        lemma_text_lt_transitive(a, b, a);
        lemma_text_lt_irreflexive(a);
    }
}

/// The length of the longest common prefix of `a` and `b`.
pub open spec fn common_len(a: Seq<char>, b: Seq<char>, k: int) -> bool {
    &&& 0 <= k <= a.len()
    &&& k <= b.len()
    &&& a.subrange(0, k) == b.subrange(0, k)
    &&& (k < a.len() && k < b.len() ==> a[k] != b[k])
}

/// How two texts compare, read off their first difference.
pub open spec fn text_lt_at(a: Seq<char>, b: Seq<char>, k: int) -> bool {
    if k < a.len() && k < b.len() {
        a[k] < b[k]
    } else {
        k == a.len() && k < b.len()
    }
}

proof fn lemma_text_lt_at(a: Seq<char>, b: Seq<char>, k: int)
    requires
        common_len(a, b, k),
    ensures
        text_lt(a, b) == text_lt_at(a, b, k),
        text_lt(b, a) == text_lt_at(b, a, k),
    decreases k,
{
    if k > 0 {
        assert(a[0] == a.subrange(0, k)[0]);
        assert(b[0] == b.subrange(0, k)[0]);
        assert(a.drop_first().subrange(0, k - 1) =~= a.subrange(0, k).drop_first());
        assert(b.drop_first().subrange(0, k - 1) =~= b.subrange(0, k).drop_first());
        lemma_text_lt_at(a.drop_first(), b.drop_first(), k - 1);
    }
}

/// The first index where `a` and `b` differ, or the shorter length.
fn first_difference(a: &[char], b: &[char]) -> (k: usize)
    ensures
        common_len(a@, b@, k as int),
        text_lt(a@, b@) == text_lt_at(a@, b@, k as int),
        text_lt(b@, a@) == text_lt_at(b@, a@, k as int),
{
    let mut i: usize = 0;
    while i < a.len() && i < b.len() && a[i] == b[i]
        invariant
            i <= a@.len(),
            i <= b@.len(),
            a@.subrange(0, i as int) == b@.subrange(0, i as int),
        decreases a.len() - i,
    {
        assert(a@.subrange(0, i + 1) =~= a@.subrange(0, i as int).push(a@[i as int]));
        assert(b@.subrange(0, i + 1) =~= b@.subrange(0, i as int).push(b@[i as int]));
        i += 1;
    }
    proof {
        lemma_text_lt_at(a@, b@, i as int);
    }
    i
}

/// The characters at `k` of two texts, when both have one.
pub open spec fn both_have(a: Seq<char>, b: Seq<char>, k: usize) -> bool {
    k < a.len() && k < b.len()
}

pub open spec fn char_at(a: Seq<char>, k: usize) -> char {
    a[k as int]
}

/// Compare two texts character by character under [`text_lt`].
pub fn text_order(a: &[char], b: &[char]) -> (r: Ordering)
    ensures
        (r == Ordering::Less) == text_lt(a@, b@),
        (r == Ordering::Greater) == text_lt(b@, a@),
{
    let k = first_difference(a, b);
    if k < a.len() && k < b.len() {
        let x = a[k];
        let y = b[k];
        if x < y {
            Ordering::Less
        } else {
            Ordering::Greater
        }
    } else if k < b.len() {
        Ordering::Less
    } else if k < a.len() {
        Ordering::Greater
    } else {
        Ordering::Equal
    }
}

/// Does `a` sort strictly before `b`, character by character?
pub fn text_less(a: &str, b: &str) -> (r: bool)
    ensures
        r == text_lt(a@, b@),
{
    let ac = chars_of(a);
    let bc = chars_of(b);
    match text_order(ac.as_slice(), bc.as_slice()) {
        Ordering::Less => true,
        _ => false,
    }
}

/// Compare two sortable cells under [`key_lt`].
pub fn smart_order(a: &str, b: &str) -> (r: Ordering)
    ensures
        (r == Ordering::Less) == key_lt(a@, b@),
        (r == Ordering::Greater) == key_lt(b@, a@),
{
    let ac = chars_of(a);
    let bc = chars_of(b);
    let x = parse_u64(ac.as_slice());
    let y = parse_u64(bc.as_slice());
    match (x, y) {
        (Some(p), Some(q)) => if p < q {
            Ordering::Less
        } else if q < p {
            Ordering::Greater
        } else {
            Ordering::Equal
        },
        (Some(_), None) => Ordering::Less,
        (None, Some(_)) => Ordering::Greater,
        (None, None) => text_order(ac.as_slice(), bc.as_slice()),
    }
}

// ---------------------------------------------------------------------------
// The display order
// ---------------------------------------------------------------------------

/// Row `x` sorts strictly before row `y` under the direction, by key.
pub open spec fn dir_lt(keys: Seq<String>, ascending: bool, x: int, y: int) -> bool {
    if ascending { key_lt(keys[x]@, keys[y]@) } else { key_lt(keys[y]@, keys[x]@) }
}

/// Row `x` is shown before row `y`: its key sorts first in the direction, or
/// the keys tie and `x` came first in the caller's order.
pub open spec fn shown_before(keys: Seq<String>, ascending: bool, x: int, y: int) -> bool {
    dir_lt(keys, ascending, x, y) || (key_tie(keys[x]@, keys[y]@) && x < y)
}

/// `0, 1, .., n - 1`.
pub open spec fn identity(n: nat) -> Seq<usize> {
    Seq::new(n, |i: int| i as usize)
}

/// Every row index below `n` exactly once.
pub open spec fn is_permutation(order: Seq<usize>, n: nat) -> bool {
    &&& order.len() == n
    &&& forall|i: int| 0 <= i < order.len() ==> #[trigger] order[i] < n
    &&& order.no_duplicates()
}

/// [`dir_lt`] on row indices as the table holds them.
pub open spec fn row_lt(keys: Seq<String>, ascending: bool, x: usize, y: usize) -> bool {
    dir_lt(keys, ascending, x as int, y as int)
}

/// The key of a row as the table holds it.
pub open spec fn row_key(keys: Seq<String>, x: usize) -> Seq<char> {
    keys[x as int]@
}

/// The order of two rows under the direction, for the sort's comparator.
fn compare_rows(keys: &Vec<String>, a: usize, b: usize, ascending: bool) -> (r: Ordering)
    requires
        a < keys@.len(),
        b < keys@.len(),
    ensures
        (r == Ordering::Less) == row_lt(keys@, ascending, a, b),
        (r == Ordering::Greater) == row_lt(keys@, ascending, b, a),
{
    if ascending {
        smart_order(keys[a].as_str(), keys[b].as_str())
    } else {
        smart_order(keys[b].as_str(), keys[a].as_str())
    }
}

/// `slice::sort_by` over row indices, comparing their keys.
///
/// The standard library documents this sort as stable and, for a comparator
/// that is a total order (which [`lemma_key_order`] shows this one to be),
/// as leaving the slice sorted by it. So from `0..n` it yields every index
/// once, no row after one whose key sorts strictly later, and tied rows in
/// their original order.
#[verifier::external_body]
fn sort_by_key(order: &mut Vec<usize>, keys: &Vec<String>, ascending: bool)
    requires
        old(order)@ == identity(old(order)@.len()),
        old(order)@.len() <= keys@.len(),
    ensures
        is_permutation(final(order)@, old(order)@.len()),
        forall|i: int, j: int|
            0 <= i < j < final(order)@.len() ==> !row_lt(keys@, ascending, final(order)@[j], final(order)@[i]),
        forall|i: int, j: int|
            0 <= i < j < final(order)@.len() && key_tie(
                row_key(keys@, final(order)@[i]),
                row_key(keys@, final(order)@[j]),
            ) ==> final(order)@[i] < final(order)@[j],
{
    order.sort_by(|a, b| compare_rows(keys, *a, *b, ascending));
}

/// The display order for `len` rows under `sort`, where `keys[row]` is the
/// sort key of `row` in the sorted column. Unsorted is the caller's order,
/// untouched; sorted, every row appears once and each is shown before every
/// row after it.
pub fn sort_order(len: usize, sort: Option<(usize, bool)>, keys: &Vec<String>) -> (order: Vec<usize>)
    requires
        sort is Some ==> len <= keys@.len(),
    ensures
        sort is None ==> order@ == identity(len as nat),
        is_permutation(order@, len as nat),
        sort matches Some((_, ascending)) ==> forall|i: int, j: int|
            0 <= i < j < order@.len() ==> shown_before(
                keys@,
                ascending,
                order@[i] as int,
                order@[j] as int,
            ),
{
    let mut order: Vec<usize> = Vec::new();
    let mut i: usize = 0;
    while i < len
        invariant
            i <= len,
            order@ == identity(i as nat),
        decreases len - i,
    {
        order.push(i);
        assert(order@ =~= identity((i + 1) as nat));
        i += 1;
    }
    proof {
        assert forall|a: int, b: int| 0 <= a < b < order@.len() implies order@[a] != order@[b] by {}
    }
    if let Some((_, ascending)) = sort {
        sort_by_key(&mut order, keys, ascending);
        proof {
            assert forall|i: int, j: int| 0 <= i < j < order@.len() implies shown_before(
                keys@,
                ascending,
                order@[i] as int,
                order@[j] as int,
            ) by {
                assert(!row_lt(keys@, ascending, order@[j], order@[i]));
                if !row_lt(keys@, ascending, order@[i], order@[j]) {
                    assert(key_tie(row_key(keys@, order@[i]), row_key(keys@, order@[j])));
                    assert(order@[i] < order@[j]);
                }
            }
        }
    }
    order
}

} // verus!
