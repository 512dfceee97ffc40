//! The Explorer's global search: every class, property and method whose name
//! contains the query, in a stable order, capped.

use vstd::prelude::*;
use core::cmp::Ordering;
use crate::app::{CentralView, VmiScopeApp};
use crate::table::{identity, is_permutation, text_lt, text_order};
use crate::text::{chars_of, has_sub, lower_contains, lowercase, to_lowercase};

verus! {

/// How many hits the search shows at most.
pub const MAX_HITS: usize = 300;

/// The names the search looks through: every class, and each class's
/// properties and methods (each class once in each list).
pub struct SearchIndex {
    pub classes: Vec<String>,
    pub properties: Vec<(String, Vec<String>)>,
    pub methods: Vec<(String, Vec<String>)>,
    /// Whether the methods were indexed at all.
    pub has_methods: bool,
}

/// One hit: a class, or a member of one.
pub struct SearchHit {
    pub class: String,
    /// The property or method that matched; `None` for the class itself.
    pub member: Option<String>,
    pub is_method: bool,
}

/// A hit as plain values.
pub open spec fn hit_view(h: SearchHit) -> (Seq<char>, Option<Seq<char>>, bool) {
    (
        h.class@,
        match h.member {
            Some(m) => Some(m@),
            None => None,
        },
        h.is_method,
    )
}

/// Each hit as plain values.
pub open spec fn hit_views(hits: Seq<SearchHit>) -> Seq<(Seq<char>, Option<Seq<char>>, bool)> {
    hits.map_values(|h: SearchHit| hit_view(h))
}

/// The classes whose name contains `q` (compared lower-cased).
pub open spec fn class_hits(classes: Seq<String>, q: Seq<char>) -> Seq<(Seq<char>, Option<Seq<char>>, bool)>
    decreases classes.len(),
{
    if classes.len() == 0 {
        Seq::empty()
    } else {
        let rest = class_hits(classes.drop_last(), q);
        let c = classes.last();
        if has_sub(lowercase(c@), q) { rest.push((c@, None, false)) } else { rest }
    }
}

/// The members of `class` whose name contains `q`.
pub open spec fn member_hits(class: Seq<char>, members: Seq<String>, q: Seq<char>, is_method: bool) -> Seq<
    (Seq<char>, Option<Seq<char>>, bool),
>
    decreases members.len(),
{
    if members.len() == 0 {
        Seq::empty()
    } else {
        let rest = member_hits(class, members.drop_last(), q, is_method);
        let m = members.last();
        if has_sub(lowercase(m@), q) { rest.push((class, Some(m@), is_method)) } else { rest }
    }
}

/// The members of every class whose name contains `q`, class by class.
pub open spec fn all_member_hits(lists: Seq<(String, Vec<String>)>, q: Seq<char>, is_method: bool) -> Seq<
    (Seq<char>, Option<Seq<char>>, bool),
>
    decreases lists.len(),
{
    if lists.len() == 0 {
        Seq::empty()
    } else {
        all_member_hits(lists.drop_last(), q, is_method) + member_hits(
            lists.last().0@,
            lists.last().1@,
            q,
            is_method,
        )
    }
}

/// Every hit, before sorting: classes, then properties, then methods when
/// they were indexed.
pub open spec fn gathered(idx: SearchIndex, q: Seq<char>) -> Seq<(Seq<char>, Option<Seq<char>>, bool)> {
    class_hits(idx.classes@, q) + all_member_hits(idx.properties@, q, false) + if idx.has_methods {
        all_member_hits(idx.methods@, q, true)
    } else {
        Seq::empty()
    }
}

/// The order hits are shown in: by class name lower-cased, then by member,
/// the class itself before its members.
pub open spec fn hit_lt(a: (Seq<char>, Option<Seq<char>>, bool), b: (Seq<char>, Option<Seq<char>>, bool)) -> bool {
    let ka = lowercase(a.0);
    let kb = lowercase(b.0);
    text_lt(ka, kb) || (ka == kb && match (a.1, b.1) {
        (None, Some(_)) => true,
        (Some(x), Some(y)) => text_lt(x, y),
        _ => false,
    })
}

/// `hit_lt` between two gathered hits, by position.
pub open spec fn hit_at_lt(g: Seq<(Seq<char>, Option<Seq<char>>, bool)>, x: usize, y: usize) -> bool {
    hit_lt(g[x as int], g[y as int])
}

/// Neither of two gathered hits sorts before the other.
pub open spec fn hit_at_tie(g: Seq<(Seq<char>, Option<Seq<char>>, bool)>, x: usize, y: usize) -> bool {
    !hit_lt(g[x as int], g[y as int]) && !hit_lt(g[y as int], g[x as int])
}

/// The hits shown for `q`: the gathered hits in a stable sort by
/// [`hit_lt`], at most [`MAX_HITS`] of them.
pub open spec fn hits_shown(g: Seq<(Seq<char>, Option<Seq<char>>, bool)>, order: Seq<usize>, r: Seq<SearchHit>) -> bool {
    &&& is_permutation(order, g.len())
    &&& forall|i: int, j: int| 0 <= i < j < order.len() ==> !hit_at_lt(g, #[trigger] order[j], #[trigger] order[i])
    &&& forall|i: int, j: int|
        0 <= i < j < order.len() && hit_at_tie(g, order[i], order[j]) ==> #[trigger] order[i] < #[trigger] order[j]
    &&& r.len() == if g.len() > MAX_HITS { MAX_HITS as nat } else { g.len() }
    &&& forall|i: int| 0 <= i < r.len() ==> #[trigger] hit_view(r[i]) == g[order[i] as int]
}

/// The lower-cased class name of each hit.
fn lowered_classes(hits: &Vec<SearchHit>) -> (keys: Vec<Vec<char>>)
    ensures
        keys@.len() == hits@.len(),
        forall|i: int| 0 <= i < hits@.len() ==> #[trigger] keys@[i]@ == lowercase(hits@[i].class@),
{
    let mut keys: Vec<Vec<char>> = Vec::new();
    let mut i: usize = 0;
    while i < hits.len()
        invariant
            i <= hits@.len(),
            keys@.len() == i,
            forall|j: int| 0 <= j < i ==> #[trigger] keys@[j]@ == lowercase(hits@[j].class@),
        decreases hits.len() - i,
    {
        let l = to_lowercase(hits[i].class.as_str());
        keys.push(chars_of(l.as_str()));
        i += 1;
    }
    keys
}

/// The order of two hits, by position, for the sort's comparator.
fn compare_hits(keys: &Vec<Vec<char>>, hits: &Vec<SearchHit>, a: usize, b: usize) -> (r: Ordering)
    requires
        keys@.len() == hits@.len(),
        forall|i: int| 0 <= i < hits@.len() ==> #[trigger] keys@[i]@ == lowercase(hits@[i].class@),
        a < hits@.len(),
        b < hits@.len(),
    ensures
        (r == Ordering::Less) == hit_at_lt(hit_views(hits@), a, b),
        (r == Ordering::Greater) == hit_at_lt(hit_views(hits@), b, a),
{
    let ka = &keys[a];
    let kb = &keys[b];
    let by_class = text_order(ka.as_slice(), kb.as_slice());
    proof {
        crate::table::lemma_text_lt_total(ka@, kb@);
        crate::table::lemma_text_lt_irreflexive(ka@);
        if text_lt(ka@, kb@) && text_lt(kb@, ka@) {
            crate::table::lemma_text_lt_transitive(ka@, kb@, ka@);
        }
    }
    match by_class {
        Ordering::Less => Ordering::Less,
        Ordering::Greater => Ordering::Greater,
        Ordering::Equal => {
            assert(ka@ == kb@);
            match (&hits[a].member, &hits[b].member) {
                (None, None) => Ordering::Equal,
                (None, Some(_)) => Ordering::Less,
                (Some(_), None) => Ordering::Greater,
                (Some(x), Some(y)) => {
                    let xc = chars_of(x.as_str());
                    let yc = chars_of(y.as_str());
                    text_order(xc.as_slice(), yc.as_slice())
                },
            }
        },
    }
}

/// `slice::sort_by` over hit positions, comparing the hits.
///
/// The standard library documents this sort as stable and, for a comparator
/// that is a total order (class name, then member, each compared character
/// by character), as leaving the slice sorted by it. So from `0..n` it
/// yields every position once, none after one that sorts strictly later,
/// and tied hits in their original order.
#[verifier::external_body]
fn sort_hit_order(order: &mut Vec<usize>, keys: &Vec<Vec<char>>, hits: &Vec<SearchHit>)
    requires
        old(order)@ == identity(old(order)@.len()),
        old(order)@.len() == hits@.len(),
        keys@.len() == hits@.len(),
        forall|i: int| 0 <= i < hits@.len() ==> #[trigger] keys@[i]@ == lowercase(hits@[i].class@),
    ensures
        is_permutation(final(order)@, old(order)@.len()),
        forall|i: int, j: int|
            0 <= i < j < final(order)@.len() ==> !hit_at_lt(
                hit_views(hits@),
                #[trigger] final(order)@[j],
                #[trigger] final(order)@[i],
            ),
        forall|i: int, j: int|
            0 <= i < j < final(order)@.len() && hit_at_tie(
                hit_views(hits@),
                final(order)@[i],
                final(order)@[j],
            ) ==> #[trigger] final(order)@[i] < #[trigger] final(order)@[j],
{
    order.sort_by(|a, b| compare_hits(keys, hits, *a, *b));
}

/// The name a hit matched on: its member, or the class itself.
pub open spec fn matched_name(h: (Seq<char>, Option<Seq<char>>, bool)) -> Seq<char> {
    match h.1 {
        Some(m) => m,
        None => h.0,
    }
}

/// Every hit found matched the query: the lower-cased name it was found by
/// contains the query.
pub open spec fn all_match(hits: Seq<(Seq<char>, Option<Seq<char>>, bool)>, q: Seq<char>) -> bool {
    forall|i: int| 0 <= i < hits.len() ==> has_sub(lowercase(matched_name(#[trigger] hits[i])), q)
}

proof fn lemma_class_hits_match(classes: Seq<String>, q: Seq<char>)
    ensures
        all_match(class_hits(classes, q), q),
    decreases classes.len(),
{
    if classes.len() > 0 {
        lemma_class_hits_match(classes.drop_last(), q);
    }
}

proof fn lemma_member_hits_match(class: Seq<char>, members: Seq<String>, q: Seq<char>, is_method: bool)
    ensures
        all_match(member_hits(class, members, q, is_method), q),
    decreases members.len(),
{
    if members.len() > 0 {
        lemma_member_hits_match(class, members.drop_last(), q, is_method);
    }
}

proof fn lemma_all_member_hits_match(lists: Seq<(String, Vec<String>)>, q: Seq<char>, is_method: bool)
    ensures
        all_match(all_member_hits(lists, q, is_method), q),
    decreases lists.len(),
{
    if lists.len() > 0 {
        lemma_all_member_hits_match(lists.drop_last(), q, is_method);
        lemma_member_hits_match(lists.last().0@, lists.last().1@, q, is_method);
        let a = all_member_hits(lists.drop_last(), q, is_method);
        let b = member_hits(lists.last().0@, lists.last().1@, q, is_method);
        assert forall|i: int| 0 <= i < (a + b).len() implies has_sub(
            lowercase(matched_name(#[trigger] (a + b)[i])),
            q,
        ) by {
            if i < a.len() {
                assert((a + b)[i] == a[i]);
            } else {
                assert((a + b)[i] == b[i - a.len()]);
            }
        }
    }
}

/// Every hit the search gathers matched the query: the class, property or
/// method it was found by contains the query once lower-cased.
pub proof fn lemma_every_hit_matches(idx: SearchIndex, q: Seq<char>)
    ensures
        all_match(gathered(idx, q), q),
{
    lemma_class_hits_match(idx.classes@, q);
    lemma_all_member_hits_match(idx.properties@, q, false);
    lemma_all_member_hits_match(idx.methods@, q, true);
    let a = class_hits(idx.classes@, q);
    let b = all_member_hits(idx.properties@, q, false);
    let c = if idx.has_methods { all_member_hits(idx.methods@, q, true) } else { Seq::empty() };
    assert forall|i: int| 0 <= i < (a + b + c).len() implies has_sub(
        lowercase(matched_name(#[trigger] (a + b + c)[i])),
        q,
    ) by {
        if i < a.len() {
            assert((a + b + c)[i] == a[i]);
        } else if i < a.len() + b.len() {
            assert((a + b + c)[i] == b[i - a.len()]);
        } else {
            assert((a + b + c)[i] == c[i - a.len() - b.len()]);
        }
    }
}

/// A hit with the same class, member and kind.
fn copy_hit(h: &SearchHit) -> (r: SearchHit)
    ensures
        hit_view(r) == hit_view(*h),
{
    SearchHit {
        class: h.class.clone(),
        member: match &h.member {
            Some(m) => Some(m.clone()),
            None => None,
        },
        is_method: h.is_method,
    }
}

proof fn lemma_views_push(hits: Seq<SearchHit>, h: SearchHit)
    ensures
        hit_views(hits.push(h)) == hit_views(hits).push(hit_view(h)),
{
    assert(hit_views(hits.push(h)) =~= hit_views(hits).push(hit_view(h)));
}

/// Appends a hit for each class whose lower-cased name contains `q`.
fn add_class_hits(hits: &mut Vec<SearchHit>, classes: &Vec<String>, q: &[char])
    ensures
        hit_views(final(hits)@) == hit_views(old(hits)@) + class_hits(classes@, q@),
{
    let mut i: usize = 0;
    while i < classes.len()
        invariant
            i <= classes@.len(),
            hit_views(hits@) == hit_views(old(hits)@) + class_hits(classes@.take(i as int), q@),
        decreases classes.len() - i,
    {
        let ghost before = hits@;
        assert(classes@.take(i + 1).drop_last() =~= classes@.take(i as int));
        let c = &classes[i];
        if lower_contains(c.as_str(), q) {
            let h = SearchHit { class: c.clone(), member: None, is_method: false };
            proof {
                lemma_views_push(before, h);
            }
            hits.push(h);
        }
        assert(hit_views(hits@) =~= hit_views(old(hits)@) + class_hits(classes@.take(i + 1), q@));
        i += 1;
    }
    assert(classes@.take(classes@.len() as int) =~= classes@);
}

/// Appends a hit for each member of `class` whose lower-cased name contains `q`.
fn add_member_hits(hits: &mut Vec<SearchHit>, class: &String, members: &Vec<String>, q: &[char], is_method: bool)
    ensures
        hit_views(final(hits)@) == hit_views(old(hits)@) + member_hits(class@, members@, q@, is_method),
{
    let mut i: usize = 0;
    while i < members.len()
        invariant
            i <= members@.len(),
            hit_views(hits@) == hit_views(old(hits)@) + member_hits(class@, members@.take(i as int), q@, is_method),
        decreases members.len() - i,
    {
        let ghost before = hits@;
        assert(members@.take(i + 1).drop_last() =~= members@.take(i as int));
        let m = &members[i];
        if lower_contains(m.as_str(), q) {
            let h = SearchHit { class: class.clone(), member: Some(m.clone()), is_method };
            proof {
                lemma_views_push(before, h);
            }
            hits.push(h);
        }
        assert(hit_views(hits@) =~= hit_views(old(hits)@) + member_hits(class@, members@.take(i + 1), q@, is_method));
        i += 1;
    }
    assert(members@.take(members@.len() as int) =~= members@);
}

/// Appends the member hits of every class in `lists`, class by class.
fn add_all_member_hits(hits: &mut Vec<SearchHit>, lists: &Vec<(String, Vec<String>)>, q: &[char], is_method: bool)
    ensures
        hit_views(final(hits)@) == hit_views(old(hits)@) + all_member_hits(lists@, q@, is_method),
{
    let mut i: usize = 0;
    while i < lists.len()
        invariant
            i <= lists@.len(),
            hit_views(hits@) == hit_views(old(hits)@) + all_member_hits(lists@.take(i as int), q@, is_method),
        decreases lists.len() - i,
    {
        assert(lists@.take(i + 1).drop_last() =~= lists@.take(i as int));
        let (class, members) = &lists[i];
        add_member_hits(hits, class, members, q, is_method);
        assert(hit_views(hits@) =~= hit_views(old(hits)@) + all_member_hits(lists@.take(i + 1), q@, is_method));
        i += 1;
    }
    assert(lists@.take(lists@.len() as int) =~= lists@);
}

impl VmiScopeApp {
    /// The search hits for `q` (already lower-cased by the caller): every
    /// class, property and, when indexed, method whose lower-cased name
    /// contains it, sorted stably by class name lower-cased and then by
    /// member, the first [`MAX_HITS`] of them. Nothing before the index is
    /// built.
    pub fn compute_hits(&self, q: &str) -> (r: Vec<SearchHit>)
        ensures
            self.search_index is None ==> r@.len() == 0,
            self.search_index matches Some(idx) ==> exists|order: Seq<usize>|
                hits_shown(gathered(idx, q@), order, r@),
    {
        match &self.search_index {
            None => Vec::new(),
            Some(idx) => {
                let qc = chars_of(q);
                let mut hits: Vec<SearchHit> = Vec::new();
                add_class_hits(&mut hits, &idx.classes, qc.as_slice());
                add_all_member_hits(&mut hits, &idx.properties, qc.as_slice(), false);
                if idx.has_methods {
                    add_all_member_hits(&mut hits, &idx.methods, qc.as_slice(), true);
                }
                let ghost g = gathered(*idx, q@);
                assert(hit_views(hits@) =~= g);
                let mut order: Vec<usize> = Vec::new();
                let mut i: usize = 0;
                while i < hits.len()
                    invariant
                        i <= hits@.len(),
                        order@ == identity(i as nat),
                    decreases hits.len() - i,
                {
                    order.push(i);
                    assert(order@ =~= identity((i + 1) as nat));
                    i += 1;
                }
                let keys = lowered_classes(&hits);
                sort_hit_order(&mut order, &keys, &hits);
                let n: usize = if order.len() > MAX_HITS { MAX_HITS } else { order.len() };
                let mut r: Vec<SearchHit> = Vec::new();
                let mut j: usize = 0;
                while j < n
                    invariant
                        j <= n,
                        n <= order@.len(),
                        is_permutation(order@, hits@.len() as nat),
                        r@.len() == j,
                        forall|k: int| 0 <= k < j ==> #[trigger] hit_view(r@[k]) == hit_views(hits@)[order@[k] as int],
                    decreases n - j,
                {
                    let h = copy_hit(&hits[order[j]]);
                    r.push(h);
                    j += 1;
                }
                assert(hits_shown(g, order@, r@));
                r
            },
        }
    }
}

/// What a clicked hit asks the caller to do once the state is updated.
pub enum HitAction {
    /// Select the class, as a click in the class list does.
    SelectClass(String),
    /// Run the query now in the editor.
    RunQuery,
    /// Run the query now in the editor, open the actions panel on `method`
    /// with no arguments and no outcome, and reflect `class`'s schema.
    RunForMethod { method: String, class: String },
}

/// The query a member hit puts in the editor: the property itself, or every
/// column for a method.
pub open spec fn hit_query(class: Seq<char>, member: Seq<char>, is_method: bool) -> Seq<char> {
    if is_method {
        "SELECT * FROM "@ + class
    } else {
        "SELECT "@ + member + " FROM "@ + class
    }
}

impl VmiScopeApp {
    /// Follow a clicked hit: the Instances tab, then the class itself, or
    /// the class selected with a query for the member in the editor.
    pub fn apply_search_hit(&mut self, h: SearchHit) -> (a: HitAction)
        ensures
            h.member is None ==> a == HitAction::SelectClass(h.class) && *final(self) == (VmiScopeApp {
                central_view: CentralView::Instances,
                ..*old(self)
            }),
            h.member matches Some(m) ==> {
                &&& final(self).query_text@ == hit_query(h.class@, m@, h.is_method)
                &&& *final(self) == (VmiScopeApp {
                    central_view: CentralView::Instances,
                    selected_class: Some(h.class),
                    query_text: final(self).query_text,
                    ..*old(self)
                })
                &&& if h.is_method {
                    a == HitAction::RunForMethod { method: m, class: h.class }
                } else {
                    a == HitAction::RunQuery
                }
            },
    {
        self.central_view = CentralView::Instances;
        match h.member {
            None => HitAction::SelectClass(h.class),
            Some(m) => {
                let mut q = if h.is_method {
                    crate::text::lit("SELECT * FROM ")
                } else {
                    let mut q = crate::text::lit("SELECT ");
                    let mc = chars_of(m.as_str());
                    crate::text::extend_chars(&mut q, mc.as_slice());
                    let from = crate::text::lit(" FROM ");
                    crate::text::extend_chars(&mut q, from.as_slice());
                    q
                };
                let cc = chars_of(h.class.as_str());
                crate::text::extend_chars(&mut q, cc.as_slice());
                self.query_text = crate::text::string_of(q.as_slice());
                let class = h.class.clone();
                self.selected_class = Some(h.class);
                if h.is_method {
                    HitAction::RunForMethod { method: m, class }
                } else {
                    HitAction::RunQuery
                }
            },
        }
    }
}

} // verus!
