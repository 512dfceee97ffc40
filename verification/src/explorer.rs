//! The Explorer tab's rules: the class-list facets, the kind badges, and the
//! Properties tab's icons, qualifier notes and instance lookups.

use vstd::prelude::*;
use crate::app::{ClassSchema, CentralView, ConnStatus, PropertySchema, VmiScopeApp};
use crate::compare::QueryResult;
use crate::text::{
    chars_of, contains, dec, decimal, extend_chars, has_sub, join, join_chars, lit, lowercase, starts,
    starts_with, str_eq, string_of, to_lowercase,
};

verus! {

// ---------------------------------------------------------------------------
// Class-list facets
// ---------------------------------------------------------------------------

/// What kind of class a row is: independent memberships, so a dynamic
/// association is both dynamic and an association.
#[derive(Clone, Copy, PartialEq, Eq, Debug, Structural)]
pub struct ClassKind {
    pub dynamic: bool,
    pub association: bool,
    pub event: bool,
    pub system: bool,
    pub is_abstract: bool,
    pub perf: bool,
}

impl ClassKind {
    /// No membership at all: a plain concrete class.
    pub fn none() -> (k: ClassKind)
        ensures
            !k.dynamic && !k.association && !k.event && !k.system && !k.is_abstract && !k.perf,
    {
        ClassKind { dynamic: false, association: false, event: false, system: false, is_abstract: false, perf: false }
    }
}

/// The class-list facet chips: All / Dynamic / Association / Event / System.
#[derive(Clone, Copy, PartialEq, Eq, Debug, Structural)]
pub enum ClassChip {
    All,
    Dynamic,
    Association,
    Event,
    System,
}

impl ClassChip {
    /// Every chip, in strip order.
    pub fn all() -> (r: [ClassChip; 5])
        ensures
            r@ == seq![ClassChip::All, ClassChip::Dynamic, ClassChip::Association, ClassChip::Event, ClassChip::System],
    {
        [ClassChip::All, ClassChip::Dynamic, ClassChip::Association, ClassChip::Event, ClassChip::System]
    }

    pub open spec fn label_spec(self) -> Seq<char> {
        match self {
            ClassChip::All => "All"@,
            ClassChip::Dynamic => "Dynamic"@,
            ClassChip::Association => "Assoc"@,
            ClassChip::Event => "Event"@,
            ClassChip::System => "System"@,
        }
    }

    pub fn label(self) -> (r: &'static str)
        ensures
            r@ == self.label_spec(),
    {
        match self {
            ClassChip::All => "All",
            ClassChip::Dynamic => "Dynamic",
            ClassChip::Association => "Assoc",
            ClassChip::Event => "Event",
            ClassChip::System => "System",
        }
    }

    pub open spec fn matches_spec(self, kind: ClassKind) -> bool {
        match self {
            ClassChip::All => true,
            ClassChip::Dynamic => kind.dynamic,
            ClassChip::Association => kind.association,
            ClassChip::Event => kind.event,
            ClassChip::System => kind.system,
        }
    }

    /// Does a class of `kind` pass this facet? `All` passes everything; the
    /// others are membership tests.
    pub fn matches(self, kind: ClassKind) -> (b: bool)
        ensures
            b == self.matches_spec(kind),
    {
        match self {
            ClassChip::All => true,
            ClassChip::Dynamic => kind.dynamic,
            ClassChip::Association => kind.association,
            ClassChip::Event => kind.event,
            ClassChip::System => kind.system,
        }
    }
}

/// Facets are memberships, not a partition: a class passes every chip whose
/// kind it has_sub, and `All` always.
pub proof fn lemma_chips_are_memberships(kind: ClassKind)
    ensures
        ClassChip::All.matches_spec(kind),
        ClassChip::Dynamic.matches_spec(kind) == kind.dynamic,
        ClassChip::Association.matches_spec(kind) == kind.association,
        ClassChip::Event.matches_spec(kind) == kind.event,
        ClassChip::System.matches_spec(kind) == kind.system,
        kind.dynamic && kind.association ==> ClassChip::Dynamic.matches_spec(kind)
            && ClassChip::Association.matches_spec(kind),
        kind.event && kind.system ==> ClassChip::Event.matches_spec(kind) && ClassChip::System.matches_spec(kind),
{
}

/// What a kind badge marks.
#[derive(Clone, Copy, PartialEq, Eq, Debug, Structural)]
pub enum Kind {
    /// An ordinary WMI class.
    Class,
    /// An association class -- one that only exists to join two others.
    Association,
    /// An event class, intrinsic or extrinsic.
    Event,
}

impl Kind {
    /// The single letter shown in the badge.
    pub fn letter(self) -> (r: &'static str)
        ensures
            r@ == match self {
                Kind::Class => "C"@,
                Kind::Association => "A"@,
                Kind::Event => "E"@,
            },
    {
        match self {
            Kind::Class => "C",
            Kind::Association => "A",
            Kind::Event => "E",
        }
    }
}

/// The single-letter badge a class shows: event outranks association
/// outranks everything else, so an abstract event still reads `E` and a
/// dynamic association still reads `A`.
pub open spec fn badge_kind_spec(kind: ClassKind) -> Kind {
    if kind.event {
        Kind::Event
    } else if kind.association {
        Kind::Association
    } else {
        Kind::Class
    }
}

pub fn badge_kind(kind: ClassKind) -> (k: Kind)
    ensures
        k == badge_kind_spec(kind),
{
    if kind.event {
        Kind::Event
    } else if kind.association {
        Kind::Association
    } else {
        Kind::Class
    }
}

// ---------------------------------------------------------------------------
// Methods and associations
// ---------------------------------------------------------------------------

/// One parameter of a method.
pub struct ParamSchema {
    pub name: String,
    pub cim_type: String,
}

/// A reflected method: its name and its in and out parameters.
pub struct MethodSchema {
    pub name: String,
    pub in_params: Vec<ParamSchema>,
    pub out_params: Vec<ParamSchema>,
}

/// `<type> <name>` for each in-parameter.
pub open spec fn param_parts(ps: Seq<ParamSchema>) -> Seq<Seq<char>> {
    ps.map_values(|p: ParamSchema| p.cim_type@ + " "@ + p.name@)
}

/// The type of the first out-parameter named `ReturnValue` (ASCII case
/// aside), looking from `k` on.
pub open spec fn return_type_from(ps: Seq<ParamSchema>, k: int) -> Option<Seq<char>>
    decreases ps.len() - k,
{
    if k < 0 || k >= ps.len() {
        None
    } else if crate::text::eq_ic(ps[k].name@, "ReturnValue"@) {
        Some(ps[k].cim_type@)
    } else {
        return_type_from(ps, k + 1)
    }
}

/// A method's one-line signature: `<return> Name(<in params>)`. The return
/// type is the `ReturnValue` out-parameter's, or `void`; no other
/// out-parameter is part of the call's surface.
pub open spec fn signature_spec(m: MethodSchema) -> Seq<char> {
    let ret = match return_type_from(m.out_params@, 0) {
        Some(t) => t,
        None => "void"@,
    };
    ret + " "@ + m.name@ + "("@ + join(param_parts(m.in_params@), ", "@) + ")"@
}

pub fn method_signature(m: &MethodSchema) -> (r: String)
    ensures
        r@ == signature_spec(*m),
{
    let mut ins: Vec<Vec<char>> = Vec::new();
    let mut i: usize = 0;
    while i < m.in_params.len()
        invariant
            i <= m.in_params@.len(),
            ins@.map_values(|v: Vec<char>| v@) == param_parts(m.in_params@).take(i as int),
        decreases m.in_params.len() - i,
    {
        let p = &m.in_params[i];
        let mut part = chars_of(p.cim_type.as_str());
        extend_chars(&mut part, lit(" ").as_slice());
        extend_chars(&mut part, chars_of(p.name.as_str()).as_slice());
        let ghost before = ins@;
        ins.push(part);
        proof {
            assert(ins@.map_values(|v: Vec<char>| v@) =~= before.map_values(|v: Vec<char>| v@).push(part@));
            assert(param_parts(m.in_params@).take(i + 1) =~= param_parts(m.in_params@).take(i as int).push(
                part@,
            ));
        }
        i += 1;
    }
    assert(param_parts(m.in_params@).take(m.in_params@.len() as int) =~= param_parts(m.in_params@));
    let mut k: usize = 0;
    let mut ret: Option<Vec<char>> = None;
    while k < m.out_params.len()
        invariant_except_break
            ret is None,
        invariant
            k <= m.out_params@.len(),
            return_type_from(m.out_params@, 0) == return_type_from(m.out_params@, k as int),
        ensures
            k <= m.out_params@.len(),
            match ret {
                Some(t) => return_type_from(m.out_params@, 0) == Some(t@),
                None => k == m.out_params@.len() && return_type_from(m.out_params@, 0) == return_type_from(
                    m.out_params@,
                    k as int,
                ),
            },
        decreases m.out_params.len() - k,
    {
        let p = &m.out_params[k];
        assert(m.out_params@[k as int] == *p);
        if crate::text::str_eq_ignore_case(p.name.as_str(), "ReturnValue") {
            let t = chars_of(p.cim_type.as_str());
            assert(return_type_from(m.out_params@, k as int) == Some(t@));
            ret = Some(t);
            break;
        }
        k += 1;
    }
    let mut out = match ret {
        Some(t) => t,
        None => lit("void"),
    };
    extend_chars(&mut out, lit(" ").as_slice());
    extend_chars(&mut out, chars_of(m.name.as_str()).as_slice());
    extend_chars(&mut out, lit("(").as_slice());
    extend_chars(&mut out, join_chars(&ins, lit(", ").as_slice()).as_slice());
    extend_chars(&mut out, lit(")").as_slice());
    string_of(out.as_slice())
}

/// How an association is reached.
pub struct AssocInfo {
    pub assoc_class: String,
    pub role: String,
    pub target_class: String,
    pub note: String,
}

/// The parts of an association's note: the class it is reached through, its
/// role, its caveat -- each only when present.
pub open spec fn assoc_parts(a: AssocInfo) -> Seq<Seq<char>> {
    let x: Seq<Seq<char>> = if a.assoc_class@.len() > 0 { seq!["via "@ + a.assoc_class@] } else { Seq::empty() };
    let y = if a.role@.len() > 0 { x.push("role "@ + a.role@) } else { x };
    if a.note@.len() > 0 { y.push(a.note@) } else { y }
}

/// The one-line note under an association, its present parts joined by a
/// middle dot.
pub fn assoc_subtext(a: &AssocInfo) -> (r: String)
    ensures
        r@ == join(assoc_parts(*a), " \u{00b7} "@),
{
    let mut parts: Vec<Vec<char>> = Vec::new();
    let ghost mut view: Seq<Seq<char>> = Seq::empty();
    if !a.assoc_class.as_str().is_empty() {
        let mut p = lit("via ");
        extend_chars(&mut p, chars_of(a.assoc_class.as_str()).as_slice());
        parts.push(p);
        proof { view = view.push(p@); }
    }
    if !a.role.as_str().is_empty() {
        let mut p = lit("role ");
        extend_chars(&mut p, chars_of(a.role.as_str()).as_slice());
        let ghost before = parts@;
        parts.push(p);
        proof {
            view = view.push(p@);
            assert(parts@.map_values(|v: Vec<char>| v@) =~= before.map_values(|v: Vec<char>| v@).push(p@));
        }
    }
    if !a.note.as_str().is_empty() {
        let p = chars_of(a.note.as_str());
        let ghost before = parts@;
        parts.push(p);
        proof {
            view = view.push(p@);
            assert(parts@.map_values(|v: Vec<char>| v@) =~= before.map_values(|v: Vec<char>| v@).push(p@));
        }
    }
    assert(parts@.map_values(|v: Vec<char>| v@) =~= view);
    assert(view =~= assoc_parts(*a));
    let out = join_chars(&parts, lit(" \u{00b7} ").as_slice());
    string_of(out.as_slice())
}

// ---------------------------------------------------------------------------
// Properties tab
// ---------------------------------------------------------------------------

/// The leading glyph of a property row.
#[derive(Clone, Copy, PartialEq, Eq, Debug, Structural)]
pub enum Glyph {
    Key,
    Clock,
    Hash,
    PencilSimple,
    TextAa,
}

/// The per-property icon, and whether it is drawn in the accent: key first,
/// then by type (datetime, numeric), then writability, else plain text.
pub open spec fn prop_icon_spec(is_key: bool, is_write: bool, cim: Seq<char>) -> (Glyph, bool) {
    let c = lowercase(cim);
    if is_key {
        (Glyph::Key, true)
    } else if has_sub(c, "datetime"@) {
        (Glyph::Clock, false)
    } else if has_sub(c, "int"@) || starts(c, "real"@) || starts(c, "byte"@) {
        (Glyph::Hash, false)
    } else if is_write {
        (Glyph::PencilSimple, false)
    } else {
        (Glyph::TextAa, false)
    }
}

pub fn prop_icon(is_key: bool, is_write: bool, cim: &str) -> (r: (Glyph, bool))
    ensures
        r == prop_icon_spec(is_key, is_write, cim@),
{
    if is_key {
        return (Glyph::Key, true);
    }
    let low = to_lowercase(cim);
    let c = chars_of(low.as_str());
    let s = c.as_slice();
    if contains(s, lit("datetime").as_slice()) {
        (Glyph::Clock, false)
    } else if contains(s, lit("int").as_slice()) || starts_with(s, lit("real").as_slice())
        || starts_with(s, lit("byte").as_slice()) {
        (Glyph::Hash, false)
    } else if is_write {
        (Glyph::PencilSimple, false)
    } else {
        (Glyph::TextAa, false)
    }
}

/// The parts of a qualifiers cell, in order.
pub open spec fn qualifier_parts(
    is_key: bool,
    is_read: bool,
    is_write: bool,
    units: Option<Seq<char>>,
    value_map_len: nat,
) -> Seq<Seq<char>> {
    let a: Seq<Seq<char>> = if is_key { seq!["key"@] } else { Seq::empty() };
    let b = if is_read { a.push("read"@) } else { a };
    let c = if is_write { b.push("write"@) } else { b };
    let d = match units {
        Some(u) => if u.len() > 0 { c.push("["@ + u + "]"@) } else { c },
        None => c,
    };
    if value_map_len > 0 {
        d.push("enum("@ + crate::text::dec(value_map_len) + ")"@)
    } else {
        d
    }
}

/// A compact qualifiers cell built from a property's flags, joined by a
/// middle dot.
pub fn qualifiers_note(
    is_key: bool,
    is_read: bool,
    is_write: bool,
    units: Option<&str>,
    value_map_len: usize,
) -> (r: String)
    ensures
        r@ == join(
            qualifier_parts(
                is_key,
                is_read,
                is_write,
                match units {
                    Some(u) => Some(u@),
                    None => None,
                },
                value_map_len as nat,
            ),
            " \u{00b7} "@,
        ),
{
    let ghost want = qualifier_parts(
        is_key,
        is_read,
        is_write,
        match units {
            Some(u) => Some(u@),
            None => None,
        },
        value_map_len as nat,
    );
    let mut parts: Vec<Vec<char>> = Vec::new();
    let ghost mut view: Seq<Seq<char>> = Seq::empty();
    if is_key {
        parts.push(lit("key"));
        proof { view = view.push("key"@); }
    }
    if is_read {
        parts.push(lit("read"));
        proof { view = view.push("read"@); }
    }
    if is_write {
        parts.push(lit("write"));
        proof { view = view.push("write"@); }
    }
    assert(parts@.map_values(|v: Vec<char>| v@) =~= view);
    if let Some(u) = units {
        if !u.is_empty() {
            let mut p = lit("[");
            let uc = chars_of(u);
            extend_chars(&mut p, uc.as_slice());
            extend_chars(&mut p, lit("]").as_slice());
            let ghost before = parts@;
            parts.push(p);
            proof {
                view = view.push("["@ + u@ + "]"@);
                assert(parts@.map_values(|v: Vec<char>| v@) =~= before.map_values(|v: Vec<char>| v@).push(p@));
            }
        }
    }
    if value_map_len > 0 {
        let mut p = lit("enum(");
        let d = decimal(value_map_len as u64);
        extend_chars(&mut p, d.as_slice());
        extend_chars(&mut p, lit(")").as_slice());
        let ghost before = parts@;
        parts.push(p);
        proof {
            view = view.push("enum("@ + crate::text::dec(value_map_len as nat) + ")"@);
            assert(parts@.map_values(|v: Vec<char>| v@) =~= before.map_values(|v: Vec<char>| v@).push(p@));
        }
    }
    assert(view =~= want);
    let out = join_chars(&parts, lit(" \u{00b7} ").as_slice());
    string_of(out.as_slice())
}

/// The first column at or after `k` named `name`.
pub open spec fn col_from(cols: Seq<String>, name: Seq<char>, k: int) -> Option<int>
    decreases cols.len() - k,
{
    if k >= cols.len() || k < 0 {
        None
    } else if cols[k]@ == name {
        Some(k)
    } else {
        col_from(cols, name, k + 1)
    }
}

/// The value of property `name` in result row `ri`: the cell under the first
/// column of that name, when the result has such a column, row and cell.
pub open spec fn value_of_spec(result: QueryResult, ri: int, name: Seq<char>) -> Option<Seq<char>> {
    match col_from(result.columns@, name, 0) {
        Some(c) => if 0 <= ri < result.rows@.len() && c < result.rows@[ri]@.len() {
            Some(result.rows@[ri]@[c]@)
        } else {
            None
        },
        None => None,
    }
}

/// The value of property `name` in result row `ri`, or `None` when the result
/// has no such column (system and projected-away properties).
pub fn value_of(result: &QueryResult, ri: usize, name: &str) -> (r: Option<String>)
    ensures
        match r {
            Some(v) => value_of_spec(*result, ri as int, name@) == Some(v@),
            None => value_of_spec(*result, ri as int, name@) is None,
        },
{
    let mut col: usize = 0;
    while col < result.columns.len()
        invariant
            col <= result.columns@.len(),
            col_from(result.columns@, name@, 0) == col_from(result.columns@, name@, col as int),
        ensures
            col <= result.columns@.len(),
            col_from(result.columns@, name@, 0) == col_from(result.columns@, name@, col as int),
            col < result.columns@.len() ==> result.columns@[col as int]@ == name@,
        decreases result.columns.len() - col,
    {
        if str_eq(result.columns[col].as_str(), name) {
            break;
        }
        col += 1;
    }
    if col == result.columns.len() {
        return None;
    }
    if ri >= result.rows.len() {
        return None;
    }
    let row = &result.rows[ri];
    if col >= row.len() {
        return None;
    }
    Some(row[col].clone())
}

// ---------------------------------------------------------------------------
// The detail pane's counts and headers
// ---------------------------------------------------------------------------

/// The reflected schema, but only when it belongs to the selected class: a
/// stale schema from the previous selection must not label this one.
pub open spec fn schema_selected(app: VmiScopeApp) -> Option<ClassSchema> {
    match app.selected_class {
        Some(c) => match app.schema {
            Some(s) => if app.schema_class@ == c@ { Some(s) } else { None },
            None => None,
        },
        None => None,
    }
}

/// The badge recorded for `class`, if a tally for it has arrived.
pub open spec fn badge_of(counts: Seq<(String, String)>, class: Seq<char>) -> Option<Seq<char>>
    decreases counts.len(),
{
    if counts.len() == 0 {
        None
    } else if counts[0].0@ == class {
        Some(counts[0].1@)
    } else {
        badge_of(counts.drop_first(), class)
    }
}

/// The Instances tab's count badge: the class's tally badge when there is
/// one, else the row count of the loaded result.
pub open spec fn instances_count_spec(app: VmiScopeApp) -> Option<Seq<char>> {
    let tallied = match app.selected_class {
        Some(c) => badge_of(app.instance_counts@, c@),
        None => None,
    };
    match tallied {
        Some(b) => Some(b),
        None => match app.result {
            Some(r) => Some(dec(r.rows@.len())),
            None => None,
        },
    }
}

/// The count shown beside a sub-tab, or `None` when there is nothing honest
/// to show yet -- never a `0` that would read as "none".
pub open spec fn subtab_count_spec(app: VmiScopeApp, tab: CentralView) -> Option<Seq<char>> {
    match tab {
        CentralView::Instances => instances_count_spec(app),
        CentralView::Properties => match schema_selected(app) {
            Some(s) => Some(dec(s.properties@.len())),
            None => None,
        },
        CentralView::Methods => match schema_selected(app) {
            Some(s) => Some(dec(s.methods@.len())),
            None => None,
        },
        CentralView::Schema => match app.selected_class {
            Some(c) => if app.assoc_class@ == c@ {
                match app.associations {
                    Some(a) => Some(dec(a@.len())),
                    None => None,
                }
            } else {
                None
            },
            None => None,
        },
        CentralView::Code => None,
    }
}

/// The `Name="value"` parts of an instance path: each key property, in
/// schema order, whose value the result carries.
pub open spec fn key_parts(props: Seq<PropertySchema>, result: QueryResult, ri: int) -> Seq<Seq<char>>
    decreases props.len(),
{
    if props.len() == 0 {
        Seq::empty()
    } else {
        let rest = key_parts(props.drop_last(), result, ri);
        let p = props.last();
        if p.is_key {
            match value_of_spec(result, ri, p.name@) {
                Some(v) => rest.push(p.name@ + "=\""@ + v + "\""@),
                None => rest,
            }
        } else {
            rest
        }
    }
}

/// The instance-path header of the Properties tab: `Class.Key="v",...`, or
/// the row's position when no key value is known, or just the class.
pub open spec fn instance_header_spec(app: VmiScopeApp, class: Seq<char>) -> Seq<char> {
    match (app.selected_row, schema_selected(app), app.result) {
        (Some(ri), Some(schema), Some(result)) => if ri < result.rows@.len() {
            let keys = key_parts(schema.properties@, result, ri as int);
            if keys.len() == 0 {
                class + " \u{00b7} instance "@ + dec(ri as nat + 1) + " of "@ + dec(result.rows@.len())
            } else {
                class + "."@ + join(keys, ","@)
            }
        } else {
            class
        },
        _ => class,
    }
}

/// Every namespace the tree knows: the root, plus every child of every
/// loaded parent.
pub open spec fn children_total(children: Seq<(String, Vec<String>)>) -> nat
    decreases children.len(),
{
    if children.len() == 0 {
        0
    } else {
        children_total(children.drop_last()) + children.last().1@.len()
    }
}

impl VmiScopeApp {
    pub fn schema_for_selected(&self) -> (r: Option<&ClassSchema>)
        ensures
            match r {
                Some(s) => schema_selected(*self) == Some(*s),
                None => schema_selected(*self) is None,
            },
    {
        let class = match &self.selected_class {
            Some(c) => c,
            None => return None,
        };
        match &self.schema {
            Some(schema) => if str_eq(self.schema_class.as_str(), class.as_str()) {
                Some(schema)
            } else {
                None
            },
            None => None,
        }
    }

    /// The host segment of the breadcrumb and of a copied object path: the
    /// remote host when connected to one, `.` for the local machine.
    pub fn breadcrumb_host(&self) -> (r: String)
        ensures
            r@ == match self.conn_status {
                ConnStatus::Remote(h) => h@,
                _ => "."@,
            },
    {
        match &self.conn_status {
            ConnStatus::Remote(h) => h.clone(),
            _ => ".".to_owned(),
        }
    }

    pub fn instances_tab_count(&self) -> (r: Option<String>)
        ensures
            match r {
                Some(s) => instances_count_spec(*self) == Some(s@),
                None => instances_count_spec(*self) is None,
            },
    {
        if let Some(class) = &self.selected_class {
            let mut i: usize = 0;
            assert(self.instance_counts@.skip(0) =~= self.instance_counts@);
            while i < self.instance_counts.len()
                invariant
                    i <= self.instance_counts@.len(),
                    self.selected_class == Some(*class),
                    badge_of(self.instance_counts@, class@) == badge_of(
                        self.instance_counts@.skip(i as int),
                        class@,
                    ),
                decreases self.instance_counts.len() - i,
            {
                let ghost rest = self.instance_counts@.skip(i as int);
                assert(rest[0] == self.instance_counts@[i as int]);
                assert(rest.drop_first() =~= self.instance_counts@.skip(i + 1));
                if str_eq(self.instance_counts[i].0.as_str(), class.as_str()) {
                    let b = self.instance_counts[i].1.clone();
                    assert(b@ == rest[0].1@);
                    assert(self.selected_class == Some(*class));
                    assert(badge_of(rest, class@) == Some(rest[0].1@));
                    return Some(b);
                }
                i += 1;
            }
        }
        match &self.result {
            Some(r) => Some(string_of(decimal(r.rows.len() as u64).as_slice())),
            None => None,
        }
    }

    pub fn subtab_count(&self, tab: CentralView) -> (r: Option<String>)
        ensures
            match r {
                Some(s) => subtab_count_spec(*self, tab) == Some(s@),
                None => subtab_count_spec(*self, tab) is None,
            },
    {
        match tab {
            CentralView::Instances => self.instances_tab_count(),
            CentralView::Properties => match self.schema_for_selected() {
                Some(s) => Some(string_of(decimal(s.properties.len() as u64).as_slice())),
                None => None,
            },
            CentralView::Methods => match self.schema_for_selected() {
                Some(s) => Some(string_of(decimal(s.methods.len() as u64).as_slice())),
                None => None,
            },
            CentralView::Schema => {
                let class = match &self.selected_class {
                    Some(c) => c,
                    None => return None,
                };
                if str_eq(self.assoc_class.as_str(), class.as_str()) {
                    match &self.associations {
                        Some(a) => Some(string_of(decimal(a.len() as u64).as_slice())),
                        None => None,
                    }
                } else {
                    None
                }
            },
            CentralView::Code => None,
        }
    }

    /// The instance-path header for the Properties tab.
    pub fn instance_header(&self, class: &str) -> (r: String)
        ensures
            r@ == instance_header_spec(*self, class@),
    {
        let ri = match self.selected_row {
            Some(ri) => ri,
            None => return class.to_owned(),
        };
        let schema = match self.schema_for_selected() {
            Some(s) => s,
            None => return class.to_owned(),
        };
        let result = match &self.result {
            Some(r) => r,
            None => return class.to_owned(),
        };
        if ri >= result.rows.len() {
            return class.to_owned();
        }
        let props = &schema.properties;
        let mut parts: Vec<Vec<char>> = Vec::new();
        let mut i: usize = 0;
        assert(props@.take(0) =~= Seq::<PropertySchema>::empty());
        while i < props.len()
            invariant
                i <= props@.len(),
                ri < result.rows@.len(),
                parts@.map_values(|v: Vec<char>| v@) == key_parts(props@.take(i as int), *result, ri as int),
            decreases props.len() - i,
        {
            let p = &props[i];
            assert(props@.take(i + 1).drop_last() =~= props@.take(i as int));
            assert(props@.take(i + 1).last() == *p);
            if p.is_key {
                match value_of(result, ri, p.name.as_str()) {
                    Some(v) => {
                        let mut part = chars_of(p.name.as_str());
                        extend_chars(&mut part, lit("=\"").as_slice());
                        extend_chars(&mut part, chars_of(v.as_str()).as_slice());
                        extend_chars(&mut part, lit("\"").as_slice());
                        let ghost before = parts@;
                        parts.push(part);
                        assert(parts@.map_values(|v: Vec<char>| v@) =~= before.map_values(|v: Vec<char>| v@).push(part@));
                    },
                    None => {},
                }
            }
            i += 1;
        }
        assert(props@.take(props@.len() as int) =~= props@);
        let mut out = chars_of(class);
        if parts.len() == 0 {
            extend_chars(&mut out, lit(" \u{00b7} instance ").as_slice());
            extend_chars(&mut out, decimal(ri as u64 + 1).as_slice());
            extend_chars(&mut out, lit(" of ").as_slice());
            extend_chars(&mut out, decimal(result.rows.len() as u64).as_slice());
        } else {
            extend_chars(&mut out, lit(".").as_slice());
            let joined = join_chars(&parts, lit(",").as_slice());
            extend_chars(&mut out, joined.as_slice());
        }
        string_of(out.as_slice())
    }

    /// How many namespaces the tree knows. Each non-root namespace is a child
    /// of exactly one parent, so this does not double-count.
    pub fn known_namespace_count(&self) -> (n: usize)
        requires
            1 + children_total(self.ns_children@) <= usize::MAX,
        ensures
            n == 1 + children_total(self.ns_children@),
    {
        let mut total: usize = 1;
        let mut i: usize = 0;
        while i < self.ns_children.len()
            invariant
                i <= self.ns_children@.len(),
                1 + children_total(self.ns_children@) <= usize::MAX,
                total == 1 + children_total(self.ns_children@.take(i as int)),
            decreases self.ns_children.len() - i,
        {
            proof {
                assert(self.ns_children@.take(i + 1).drop_last() =~= self.ns_children@.take(i as int));
                lemma_children_total_prefix(self.ns_children@, i + 1);
            }
            total = total + self.ns_children[i].1.len();
            i += 1;
        }
        assert(self.ns_children@.take(self.ns_children@.len() as int) =~= self.ns_children@);
        total
    }
}

/// A prefix of the parents holds no more children than all of them.
pub proof fn lemma_children_total_prefix(children: Seq<(String, Vec<String>)>, k: int)
    requires
        0 <= k <= children.len(),
    ensures
        children_total(children.take(k)) <= children_total(children),
    decreases children.len() - k,
{
    if k < children.len() {
        lemma_children_total_prefix(children, k + 1);
        assert(children.take(k + 1).drop_last() =~= children.take(k));
    } else {
        assert(children.take(k) =~= children);
    }
}

} // verus!
