//! The Network tab's rules.

use vstd::prelude::*;
use core::cmp::Ordering;
use crate::table::{identity, is_permutation, text_lt, text_order};
use crate::text::{chars_of, contains, dec, decimal, has_sub, lowercase, to_lowercase};

verus! {

/// Which "nothing here" an empty connection table is: a title and one line.
///
/// `unfiltered` is whether the view is showing everything it has -- a
/// filtered empty table is a statement about the filter, and reporting it as
/// "no connections" would be the view lying about the machine.
pub fn net_empty_note(no_snapshot: bool, inflight: bool, unfiltered: bool) -> (r: (&'static str, &'static str))
    ensures
        r.0@ == (if no_snapshot {
            if inflight { "Reading the connection table"@ } else { "No connections"@ }
        } else if unfiltered {
            "No connections"@
        } else {
            "No rows match the filters"@
        }),
        r.1@ == (if no_snapshot {
            if inflight {
                "The first snapshot is on its way."@
            } else {
                "The snapshot came back empty. On a running machine that is unusual \u{2014} it \
                 normally means MSFT_NetTCPConnection returned nothing, not that the machine has \
                 no sockets."@
            }
        } else if unfiltered {
            "Every socket in the last snapshot has closed and finished fading."@
        } else {
            "The machine has connections; none of them match. Clear the text filter or turn off \
             'external only'."@
        }),
{
    if no_snapshot {
        if inflight {
            ("Reading the connection table", "The first snapshot is on its way.")
        } else {
            (
                "No connections",
                "The snapshot came back empty. On a running machine that is unusual \u{2014} it \
                 normally means MSFT_NetTCPConnection returned nothing, not that the machine has \
                 no sockets.",
            )
        }
    } else if unfiltered {
        ("No connections", "Every socket in the last snapshot has closed and finished fading.")
    } else {
        (
            "No rows match the filters",
            "The machine has connections; none of them match. Clear the text filter or turn off \
             'external only'.",
        )
    }
}

// ---------------------------------------------------------------------------
// Which connections are shown
// ---------------------------------------------------------------------------

/// Is a connection shown? With "external only" only external connections
/// pass; then, unless the filter is empty, the lower-cased filter has to
/// occur in the lower-cased process name, either address, either port, or
/// the lower-cased state.
pub open spec fn net_row_shown_spec(
    filter: Seq<char>,
    external_only: bool,
    external: bool,
    process: Seq<char>,
    local_addr: Seq<char>,
    local_port: u16,
    remote_addr: Seq<char>,
    remote_port: u16,
    state: Seq<char>,
) -> bool {
    let f = lowercase(filter);
    (!external_only || external) && (f.len() == 0 || has_sub(lowercase(process), f) || has_sub(local_addr, f)
        || has_sub(remote_addr, f) || has_sub(dec(local_port as nat), f) || has_sub(dec(remote_port as nat), f)
        || has_sub(lowercase(state), f))
}

/// Is a connection shown under the filter text and the "external only" box?
pub fn net_row_shown(
    filter: &str,
    external_only: bool,
    external: bool,
    process: &str,
    local_addr: &str,
    local_port: u16,
    remote_addr: &str,
    remote_port: u16,
    state: &str,
) -> (b: bool)
    ensures
        b == net_row_shown_spec(
            filter@,
            external_only,
            external,
            process@,
            local_addr@,
            local_port,
            remote_addr@,
            remote_port,
            state@,
        ),
{
    if external_only && !external {
        return false;
    }
    let fl = to_lowercase(filter);
    let f = chars_of(fl.as_str());
    if f.len() == 0 {
        return true;
    }
    let pl = to_lowercase(process);
    if contains(chars_of(pl.as_str()).as_slice(), f.as_slice()) {
        return true;
    }
    if contains(chars_of(local_addr).as_slice(), f.as_slice()) {
        return true;
    }
    if contains(chars_of(remote_addr).as_slice(), f.as_slice()) {
        return true;
    }
    if contains(decimal(local_port as u64).as_slice(), f.as_slice()) {
        return true;
    }
    if contains(decimal(remote_port as u64).as_slice(), f.as_slice()) {
        return true;
    }
    let sl = to_lowercase(state);
    contains(chars_of(sl.as_str()).as_slice(), f.as_slice())
}

/// The "external only" box only ever hides rows: with it on, a row is shown
/// exactly when it is external and the text filter alone would show it; with
/// it off, whether a row is external makes no difference.
pub proof fn lemma_external_only_narrows(
    filter: Seq<char>,
    external: bool,
    process: Seq<char>,
    local_addr: Seq<char>,
    local_port: u16,
    remote_addr: Seq<char>,
    remote_port: u16,
    state: Seq<char>,
)
    ensures
        net_row_shown_spec(filter, true, external, process, local_addr, local_port, remote_addr, remote_port, state)
            == (external && net_row_shown_spec(
            filter,
            false,
            external,
            process,
            local_addr,
            local_port,
            remote_addr,
            remote_port,
            state,
        )),
        net_row_shown_spec(filter, false, external, process, local_addr, local_port, remote_addr, remote_port, state)
            == net_row_shown_spec(filter, false, !external, process, local_addr, local_port, remote_addr, remote_port, state),
        !external ==> !net_row_shown_spec(filter, true, external, process, local_addr, local_port, remote_addr, remote_port, state),
{
}

/// With no filter text and the box off, every row is shown; a filter that
/// the lower-cased process name contains shows the row whatever else it
/// holds, unless the box hides it as local.
pub proof fn lemma_filter_text_matches(
    filter: Seq<char>,
    external_only: bool,
    external: bool,
    process: Seq<char>,
    local_addr: Seq<char>,
    local_port: u16,
    remote_addr: Seq<char>,
    remote_port: u16,
    state: Seq<char>,
)
    ensures
        lowercase(filter).len() == 0 ==> net_row_shown_spec(filter, false, external, process, local_addr, local_port, remote_addr, remote_port, state),
        has_sub(lowercase(process), lowercase(filter)) && (!external_only || external) ==> net_row_shown_spec(
            filter,
            external_only,
            external,
            process,
            local_addr,
            local_port,
            remote_addr,
            remote_port,
            state,
        ),
        lowercase(filter).len() > 0 && !has_sub(lowercase(process), lowercase(filter)) && !has_sub(local_addr, lowercase(filter))
            && !has_sub(remote_addr, lowercase(filter)) && !has_sub(dec(local_port as nat), lowercase(filter))
            && !has_sub(dec(remote_port as nat), lowercase(filter)) && !has_sub(lowercase(state), lowercase(filter))
            ==> !net_row_shown_spec(filter, external_only, external, process, local_addr, local_port, remote_addr, remote_port, state),
{
}

// ---------------------------------------------------------------------------
// The chip counts
// ---------------------------------------------------------------------------

/// How many of `flags` are set.
pub open spec fn count_set(flags: Seq<bool>) -> nat
    decreases flags.len(),
{
    if flags.len() == 0 {
        0
    } else {
        count_set(flags.drop_last()) + if flags.last() { 1nat } else { 0nat }
    }
}

/// The chip counts over the tracked connections, each given as (alive,
/// external): how many are active, how many are closing (the rest), and how
/// many are external.
pub fn net_counts(conns: &Vec<(bool, bool)>) -> (r: (usize, usize, usize))
    ensures
        r.0 == count_set(conns@.map_values(|c: (bool, bool)| c.0)),
        r.1 == conns@.len() - count_set(conns@.map_values(|c: (bool, bool)| c.0)),
        r.2 == count_set(conns@.map_values(|c: (bool, bool)| c.1)),
{
    let ghost alive = conns@.map_values(|c: (bool, bool)| c.0);
    let ghost ext = conns@.map_values(|c: (bool, bool)| c.1);
    let mut active: usize = 0;
    let mut external: usize = 0;
    let mut i: usize = 0;
    while i < conns.len()
        invariant
            i <= conns@.len(),
            alive == conns@.map_values(|c: (bool, bool)| c.0),
            ext == conns@.map_values(|c: (bool, bool)| c.1),
            active == count_set(alive.take(i as int)),
            external == count_set(ext.take(i as int)),
            active <= i,
            external <= i,
        decreases conns.len() - i,
    {
        assert(alive.take(i + 1).drop_last() =~= alive.take(i as int));
        assert(ext.take(i + 1).drop_last() =~= ext.take(i as int));
        if conns[i].0 {
            active += 1;
        }
        if conns[i].1 {
            external += 1;
        }
        i += 1;
    }
    assert(alive.take(conns@.len() as int) =~= alive);
    assert(ext.take(conns@.len() as int) =~= ext);
    (active, conns.len() - active, external)
}

// ---------------------------------------------------------------------------
// The base order
// ---------------------------------------------------------------------------

/// The base order of two connections, each given as (process, protocol,
/// local port, remote address, remote port): by lower-cased process, then
/// protocol, local port, remote address, remote port.
pub open spec fn net_lt(a: (String, String, u16, String, u16), b: (String, String, u16, String, u16)) -> bool {
    let pa = lowercase(a.0@);
    let pb = lowercase(b.0@);
    text_lt(pa, pb) || (pa == pb && (text_lt(a.1@, b.1@) || (a.1@ == b.1@ && (a.2 < b.2 || (a.2 == b.2 && (
    text_lt(a.3@, b.3@) || (a.3@ == b.3@ && a.4 < b.4)))))))
}

/// [`net_lt`] on positions.
pub open spec fn net_at_lt(rows: Seq<(String, String, u16, String, u16)>, x: usize, y: usize) -> bool {
    net_lt(rows[x as int], rows[y as int])
}

/// Neither of two positions sorts before the other.
pub open spec fn net_at_tie(rows: Seq<(String, String, u16, String, u16)>, x: usize, y: usize) -> bool {
    !net_lt(rows[x as int], rows[y as int]) && !net_lt(rows[y as int], rows[x as int])
}

/// The lower-cased process name of each row.
fn lowered_processes(rows: &Vec<(String, String, u16, String, u16)>) -> (keys: Vec<Vec<char>>)
    ensures
        keys@.len() == rows@.len(),
        forall|i: int| 0 <= i < rows@.len() ==> #[trigger] keys@[i]@ == lowercase(rows@[i].0@),
{
    let mut keys: Vec<Vec<char>> = Vec::new();
    let mut i: usize = 0;
    while i < rows.len()
        invariant
            i <= rows@.len(),
            keys@.len() == i,
            forall|j: int| 0 <= j < i ==> #[trigger] keys@[j]@ == lowercase(rows@[j].0@),
        decreases rows.len() - i,
    {
        let l = to_lowercase(rows[i].0.as_str());
        keys.push(chars_of(l.as_str()));
        i += 1;
    }
    keys
}

/// Texts in the order of `text_lt`.
fn order_texts(a: &str, b: &str) -> (r: Ordering)
    ensures
        (r == Ordering::Less) == text_lt(a@, b@),
        (r == Ordering::Greater) == text_lt(b@, a@),
{
    let ac = chars_of(a);
    let bc = chars_of(b);
    text_order(ac.as_slice(), bc.as_slice())
}

/// The base order of two rows by position, for the sort's comparator.
fn compare_net(keys: &Vec<Vec<char>>, rows: &Vec<(String, String, u16, String, u16)>, a: usize, b: usize) -> (r: Ordering)
    requires
        keys@.len() == rows@.len(),
        forall|i: int| 0 <= i < rows@.len() ==> #[trigger] keys@[i]@ == lowercase(rows@[i].0@),
        a < rows@.len(),
        b < rows@.len(),
    ensures
        (r == Ordering::Less) == net_at_lt(rows@, a, b),
        (r == Ordering::Greater) == net_at_lt(rows@, b, a),
{
    let ka = &keys[a];
    let kb = &keys[b];
    let ra = &rows[a];
    let rb = &rows[b];
    proof {
        crate::table::lemma_text_lt_total(ka@, kb@);
        crate::table::lemma_text_lt_irreflexive(ka@);
        if text_lt(ka@, kb@) && text_lt(kb@, ka@) {
            crate::table::lemma_text_lt_transitive(ka@, kb@, ka@);
        }
        crate::table::lemma_text_lt_total(ra.1@, rb.1@);
        crate::table::lemma_text_lt_irreflexive(ra.1@);
        if text_lt(ra.1@, rb.1@) && text_lt(rb.1@, ra.1@) {
            crate::table::lemma_text_lt_transitive(ra.1@, rb.1@, ra.1@);
        }
        crate::table::lemma_text_lt_total(ra.3@, rb.3@);
        crate::table::lemma_text_lt_irreflexive(ra.3@);
        if text_lt(ra.3@, rb.3@) && text_lt(rb.3@, ra.3@) {
            crate::table::lemma_text_lt_transitive(ra.3@, rb.3@, ra.3@);
        }
    }
    match text_order(ka.as_slice(), kb.as_slice()) {
        Ordering::Less => Ordering::Less,
        Ordering::Greater => Ordering::Greater,
        Ordering::Equal => match order_texts(ra.1.as_str(), rb.1.as_str()) {
            Ordering::Less => Ordering::Less,
            Ordering::Greater => Ordering::Greater,
            Ordering::Equal => if ra.2 < rb.2 {
                Ordering::Less
            } else if rb.2 < ra.2 {
                Ordering::Greater
            } else {
                match order_texts(ra.3.as_str(), rb.3.as_str()) {
                    Ordering::Less => Ordering::Less,
                    Ordering::Greater => Ordering::Greater,
                    Ordering::Equal => if ra.4 < rb.4 {
                        Ordering::Less
                    } else if rb.4 < ra.4 {
                        Ordering::Greater
                    } else {
                        Ordering::Equal
                    },
                }
            },
        },
    }
}

/// `slice::sort_by` over row positions, comparing the rows.
///
/// The standard library documents this sort as stable and, for a comparator
/// that is a total order (lower-cased process, protocol, local port, remote
/// address, remote port, each a total order), as leaving the slice sorted by
/// it. So from `0..n` it yields every position once, none after one that
/// sorts strictly later, and tied rows in their original order.
#[verifier::external_body]
fn sort_net_order(order: &mut Vec<usize>, keys: &Vec<Vec<char>>, rows: &Vec<(String, String, u16, String, u16)>)
    requires
        old(order)@ == identity(old(order)@.len()),
        old(order)@.len() == rows@.len(),
        keys@.len() == rows@.len(),
        forall|i: int| 0 <= i < rows@.len() ==> #[trigger] keys@[i]@ == lowercase(rows@[i].0@),
    ensures
        is_permutation(final(order)@, old(order)@.len()),
        forall|i: int, j: int|
            0 <= i < j < final(order)@.len() ==> !net_at_lt(rows@, #[trigger] final(order)@[j], #[trigger] final(order)@[i]),
        forall|i: int, j: int|
            0 <= i < j < final(order)@.len() && net_at_tie(rows@, final(order)@[i], final(order)@[j])
                ==> #[trigger] final(order)@[i] < #[trigger] final(order)@[j],
{
    order.sort_by(|a, b| compare_net(keys, rows, *a, *b));
}

/// The rows' base order, each row given as (process, protocol, local port,
/// remote address, remote port): a permutation sorted by [`net_lt`], tied
/// rows in their given order. It is applied whatever column sort rides on
/// top, so a fading row keeps its place from one snapshot to the next.
pub fn net_base_order(rows: &Vec<(String, String, u16, String, u16)>) -> (order: Vec<usize>)
    ensures
        is_permutation(order@, rows@.len()),
        forall|i: int, j: int|
            0 <= i < j < order@.len() ==> !net_lt(rows@[order@[j] as int], rows@[order@[i] as int]),
        forall|i: int, j: int|
            0 <= i < j < order@.len() && !net_lt(rows@[order@[i] as int], rows@[order@[j] as int]) ==> order@[i]
                < order@[j],
{
    let mut order: Vec<usize> = Vec::new();
    let mut i: usize = 0;
    while i < rows.len()
        invariant
            i <= rows@.len(),
            order@ == identity(i as nat),
        decreases rows.len() - i,
    {
        order.push(i);
        assert(order@ =~= identity((i + 1) as nat));
        i += 1;
    }
    let keys = lowered_processes(rows);
    sort_net_order(&mut order, &keys, rows);
    proof {
        assert forall|i: int, j: int|
            0 <= i < j < order@.len() && !net_lt(rows@[order@[i] as int], rows@[order@[j] as int]) implies order@[i]
            < order@[j] by {
            assert(!net_at_lt(rows@, order@[j], order@[i]));
            assert(net_at_tie(rows@, order@[i], order@[j]));
        }
    }
    order
}

} // verus!
