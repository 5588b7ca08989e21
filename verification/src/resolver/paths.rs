//! Paths over the model: key paths, navigation partners, navigation property
//! binding paths and targets, import entity sets and operation entity set
//! paths, each resolved segment by segment against the effective members of
//! the structured types they go through.
//!
//! A segment names a member of the type reached so far: a structural
//! property (first match among the effective properties), then a navigation
//! property. A complex-typed property leads into its complex type, a
//! navigation property into its target entity type. A segment that names
//! nothing, and every segment after it, stays unresolved.

use vstd::prelude::*;

use crate::edm::{
    BindingPathSegment, EntitySetPathSegment, EntitySetSegmentView, KeyPathSegment,
    KeySegmentView, MemberRef, ResolvedType, SegmentView, StructuredTypeRef, TermType,
    entity_set_segment_views, key_segment_views, segment_views,
};
use crate::resolver::container::{Entry, EntryView, entries_view};
use crate::resolver::inherit::{
    Members, ResolvedMembers, find_first, find_first_str, lemma_find_first,
};
use crate::text::{chars_of, owned, path_segments, split_path, strs};

verus! {

/// Every table has as many names as references, types and targets.
pub open spec fn tables_ok(t: Seq<Members>) -> bool {
    forall|i: int|
        0 <= i < t.len() ==> {
            &&& (#[trigger] t[i]).props.len() == t[i].prop_names.len()
            &&& t[i].prop_types.len() == t[i].prop_names.len()
            &&& t[i].navs.len() == t[i].nav_names.len()
            &&& t[i].nav_targets.len() == t[i].nav_names.len()
        }
}

pub open spec fn tables_view(v: Seq<ResolvedMembers>) -> Seq<Members> {
    v.map_values(|m: ResolvedMembers| m.spec_view())
}

pub open spec fn members_in(
    ent: Seq<Members>,
    cpx: Seq<Members>,
    t: StructuredTypeRef,
) -> Option<Members> {
    match t {
        StructuredTypeRef::Entity(i) => if i < ent.len() {
            Some(ent[i as int])
        } else {
            None
        },
        StructuredTypeRef::Complex(i) => if i < cpx.len() {
            Some(cpx[i as int])
        } else {
            None
        },
    }
}

pub open spec fn complex_of(ty: ResolvedType) -> Option<StructuredTypeRef> {
    match ty {
        ResolvedType::Complex(c) => Some(StructuredTypeRef::Complex(c)),
        _ => None,
    }
}

/// One step of a walk: the segment `seg` resolved from `cur`, and the type
/// the walk goes on from. `mode` 1 looks at structural properties only (key
/// paths); `mode` 2 leaves a segment with a `.` unresolved (type casts in an
/// entity set path).
pub open spec fn walk_step(
    ent: Seq<Members>,
    cpx: Seq<Members>,
    cur: Option<StructuredTypeRef>,
    seg: Seq<char>,
    mode: u8,
) -> (SegmentView, Option<StructuredTypeRef>) {
    let none = (SegmentView::Unresolved(seg), None::<StructuredTypeRef>);
    match cur {
        None => none,
        Some(t) => match members_in(ent, cpx, t) {
            None => none,
            Some(m) => if mode == 2 && seg.contains('.') {
                none
            } else {
                match find_first(m.prop_names, seg) {
                    Some(j) => (SegmentView::Property(m.props[j]), complex_of(m.prop_types[j])),
                    None => if mode == 1 {
                        none
                    } else {
                        match find_first(m.nav_names, seg) {
                            Some(j) => (
                                SegmentView::NavigationProperty(m.navs[j]),
                                Some(StructuredTypeRef::Entity(m.nav_targets[j])),
                            ),
                            None => none,
                        }
                    },
                }
            },
        },
    }
}

/// The segments `segs` resolved one after the other from `cur`.
pub open spec fn walk(
    ent: Seq<Members>,
    cpx: Seq<Members>,
    cur: Option<StructuredTypeRef>,
    segs: Seq<Seq<char>>,
    mode: u8,
) -> Seq<SegmentView>
    decreases segs.len(),
{
    if segs.len() == 0 {
        Seq::empty()
    } else {
        let (step, next) = walk_step(ent, cpx, cur, segs[0], mode);
        seq![step] + walk(ent, cpx, next, segs.drop_first(), mode)
    }
}

/// Whether `s` holds a `.`.
pub fn has_dot(s: &str) -> (r: bool)
    ensures
        r == s@.contains('.'),
{
    let cs = chars_of(s);
    let mut i: usize = 0;
    while i < cs.len()
        invariant
            i <= cs@.len(),
            cs@ == s@,
            forall|j: int| 0 <= j < i ==> cs@[j] != '.',
        decreases cs.len() - i,
    {
        if cs[i] == '.' {
            return true;
        }
        i = i + 1;
    }
    false
}

fn table_of<'a>(
    ent: &'a Vec<ResolvedMembers>,
    cpx: &'a Vec<ResolvedMembers>,
    t: StructuredTypeRef,
) -> (r: Option<&'a ResolvedMembers>)
    ensures
        match r {
            Some(m) => members_in(tables_view(ent@), tables_view(cpx@), t) == Some(m.spec_view()),
            None => members_in(tables_view(ent@), tables_view(cpx@), t) is None,
        },
{
    match t {
        StructuredTypeRef::Entity(i) => if i < ent.len() {
            Some(&ent[i])
        } else {
            None
        },
        StructuredTypeRef::Complex(i) => if i < cpx.len() {
            Some(&cpx[i])
        } else {
            None
        },
    }
}

fn step_of(
    ent: &Vec<ResolvedMembers>,
    cpx: &Vec<ResolvedMembers>,
    cur: Option<StructuredTypeRef>,
    seg: &str,
    mode: u8,
) -> (r: (BindingPathSegment, Option<StructuredTypeRef>))
    requires
        tables_ok(tables_view(ent@)),
        tables_ok(tables_view(cpx@)),
    ensures
        (r.0@, r.1) == walk_step(tables_view(ent@), tables_view(cpx@), cur, seg@, mode),
{
    let none = (BindingPathSegment::Unresolved(owned(seg)), None);
    let t = match cur {
        None => return none,
        Some(t) => t,
    };
    let m = match table_of(ent, cpx, t) {
        None => return none,
        Some(m) => m,
    };
    proof {
        let mv = m.spec_view();
        match t {
            StructuredTypeRef::Entity(i) => {
                assert(tables_view(ent@)[i as int] == mv);
            },
            StructuredTypeRef::Complex(i) => {
                assert(tables_view(cpx@)[i as int] == mv);
            },
        }
        assert(mv.props.len() == mv.prop_names.len());
        assert(mv.prop_types.len() == mv.prop_names.len());
        assert(mv.navs.len() == mv.nav_names.len());
        assert(mv.nav_targets.len() == mv.nav_names.len());
    }
    if mode == 2 && has_dot(seg) {
        return none;
    }
    match find_first_str(&m.prop_names, seg) {
        Some(j) => {
            proof {
                lemma_find_first(strs(m.prop_names@), seg@);
            }
            let next = match m.prop_types[j] {
                ResolvedType::Complex(c) => Some(StructuredTypeRef::Complex(c)),
                _ => None,
            };
            (BindingPathSegment::Property(m.props[j]), next)
        },
        None => {
            if mode == 1 {
                return none;
            }
            match find_first_str(&m.nav_names, seg) {
                Some(j) => {
                    proof {
                        lemma_find_first(strs(m.nav_names@), seg@);
                    }
                    (
                        BindingPathSegment::NavigationProperty(m.navs[j]),
                        Some(StructuredTypeRef::Entity(m.nav_targets[j])),
                    )
                },
                None => none,
            }
        },
    }
}

/// Resolves `segs[from..]` from `start`.
pub fn walk_segments(
    ent: &Vec<ResolvedMembers>,
    cpx: &Vec<ResolvedMembers>,
    start: Option<StructuredTypeRef>,
    segs: &Vec<String>,
    from: usize,
    mode: u8,
) -> (r: Vec<BindingPathSegment>)
    requires
        from <= segs@.len(),
        tables_ok(tables_view(ent@)),
        tables_ok(tables_view(cpx@)),
    ensures
        segment_views(r@) == walk(
            tables_view(ent@),
            tables_view(cpx@),
            start,
            strs(segs@).skip(from as int),
            mode,
        ),
{
    let ghost e = tables_view(ent@);
    let ghost c = tables_view(cpx@);
    let ghost all = strs(segs@).skip(from as int);
    let mut out: Vec<BindingPathSegment> = Vec::new();
    let mut cur = start;
    let mut i: usize = from;
    proof {
        assert(segment_views(out@) + walk(e, c, cur, strs(segs@).skip(i as int), mode) =~= walk(
            e,
            c,
            start,
            all,
            mode,
        ));
    }
    while i < segs.len()
        invariant
            from <= i <= segs@.len(),
            e == tables_view(ent@),
            c == tables_view(cpx@),
            all == strs(segs@).skip(from as int),
            tables_ok(e),
            tables_ok(c),
            segment_views(out@) + walk(e, c, cur, strs(segs@).skip(i as int), mode) == walk(
                e,
                c,
                start,
                all,
                mode,
            ),
        decreases segs.len() - i,
    {
        let ghost rest = strs(segs@).skip(i as int);
        let ghost o = out@;
        let (seg, next) = step_of(ent, cpx, cur, segs[i].as_str(), mode);
        proof {
            assert(rest[0] == segs@[i as int]@);
            assert(rest.drop_first() =~= strs(segs@).skip(i + 1));
        }
        out.push(seg);
        proof {
            assert(segment_views(out@) =~= segment_views(o).push(seg@));
            assert(walk(e, c, cur, rest, mode) == seq![seg@] + walk(e, c, next, rest.drop_first(), mode));
            assert(segment_views(out@) + walk(e, c, next, strs(segs@).skip(i + 1), mode) =~= segment_views(o)
                + walk(e, c, cur, rest, mode));
        }
        cur = next;
        i = i + 1;
    }
    proof {
        assert(strs(segs@).skip(i as int) =~= Seq::<Seq<char>>::empty());
        assert(segment_views(out@) =~= segment_views(out@) + Seq::<SegmentView>::empty());
    }
    out
}

// ---------------------------------------------------------------------------
// The paths of the model
// ---------------------------------------------------------------------------

/// A navigation partner, resolved against the navigation's target type.
pub open spec fn partner_path(
    ent: Seq<Members>,
    cpx: Seq<Members>,
    target: usize,
    partner: Seq<char>,
) -> Seq<SegmentView> {
    walk(ent, cpx, Some(StructuredTypeRef::Entity(target)), path_segments(partner), 0)
}

/// A binding path, resolved against the entity type of the set or singleton
/// it belongs to.
pub open spec fn binding_path(
    ent: Seq<Members>,
    cpx: Seq<Members>,
    source_target: usize,
    path: Seq<char>,
) -> Seq<SegmentView> {
    walk(ent, cpx, Some(StructuredTypeRef::Entity(source_target)), path_segments(path), 0)
}

/// Position of the first entity set or singleton of the container named `n`.
pub open spec fn find_source(es: Seq<EntryView>, n: Seq<char>) -> Option<int>
    decreases es.len(),
{
    if es.len() == 0 {
        None
    } else {
        match find_source(es.drop_last(), n) {
            Some(j) => Some(j),
            None => if es.last().name == n && es.last().kind <= 1 {
                Some(es.len() - 1)
            } else {
                None
            },
        }
    }
}

pub proof fn lemma_find_source(es: Seq<EntryView>, n: Seq<char>)
    ensures
        find_source(es, n) matches Some(j) ==> 0 <= j < es.len() && es[j].name == n && es[j].kind
            <= 1,
    decreases es.len(),
{
    if es.len() > 0 {
        lemma_find_source(es.drop_last(), n);
    }
}

/// A container path (a binding target, an import's entity set): its first
/// segment names an entity set or singleton of the container, the rest is
/// resolved from that element's entity type.
pub open spec fn container_path(
    ent: Seq<Members>,
    cpx: Seq<Members>,
    es: Seq<EntryView>,
    path: Seq<char>,
) -> Seq<SegmentView> {
    let segs = path_segments(path);
    if segs.len() == 0 {
        Seq::empty()
    } else {
        match find_source(es, segs[0]) {
            Some(j) => seq![
                if es[j].kind == 0 {
                    SegmentView::EntitySet(j as usize)
                } else {
                    SegmentView::Singleton(j as usize)
                },
            ] + walk(
                ent,
                cpx,
                Some(StructuredTypeRef::Entity(es[j].target)),
                segs.drop_first(),
                0,
            ),
            None => seq![SegmentView::Unresolved(segs[0])] + walk(
                ent,
                cpx,
                None,
                segs.drop_first(),
                0,
            ),
        }
    }
}

pub open spec fn key_view_of(s: SegmentView) -> KeySegmentView {
    match s {
        SegmentView::Property(r) => KeySegmentView::Property(r),
        SegmentView::Unresolved(n) => KeySegmentView::Unresolved(n),
        _ => KeySegmentView::Unresolved(Seq::empty()),
    }
}

/// A key path, resolved against the effective properties of its entity type.
pub open spec fn key_path(ent: Seq<Members>, cpx: Seq<Members>, entity: usize, key: Seq<char>) -> Seq<
    KeySegmentView,
> {
    walk(ent, cpx, Some(StructuredTypeRef::Entity(entity)), path_segments(key), 1).map_values(
        |s: SegmentView| key_view_of(s),
    )
}

pub open spec fn set_view_of(s: SegmentView) -> EntitySetSegmentView {
    match s {
        SegmentView::Property(r) => EntitySetSegmentView::Property(r),
        SegmentView::NavigationProperty(r) => EntitySetSegmentView::NavigationProperty(r),
        SegmentView::Unresolved(n) => EntitySetSegmentView::Unresolved(n),
        _ => EntitySetSegmentView::Unresolved(Seq::empty()),
    }
}

pub open spec fn structured_of(t: TermType) -> Option<StructuredTypeRef> {
    match t {
        TermType::Entity(e) => Some(StructuredTypeRef::Entity(e)),
        TermType::Complex(c) => Some(StructuredTypeRef::Complex(c)),
        _ => None,
    }
}

/// An operation's entity set path: its head names the binding parameter, the
/// rest is resolved from that parameter's type.
pub open spec fn entity_set_path(
    ent: Seq<Members>,
    cpx: Seq<Members>,
    param_names: Seq<Seq<char>>,
    param_types: Seq<TermType>,
    path: Seq<char>,
) -> Seq<EntitySetSegmentView> {
    let segs = path_segments(path);
    if segs.len() == 0 {
        Seq::empty()
    } else {
        let start = match find_first(param_names, segs[0]) {
            Some(j) => structured_of(param_types[j]),
            None => None,
        };
        seq![EntitySetSegmentView::BindingParameter(segs[0])] + walk(
            ent,
            cpx,
            start,
            segs.drop_first(),
            2,
        ).map_values(|s: SegmentView| set_view_of(s))
    }
}

/// Resolves a navigation partner.
pub fn resolve_partner(
    ent: &Vec<ResolvedMembers>,
    cpx: &Vec<ResolvedMembers>,
    target: usize,
    partner: &str,
) -> (r: Vec<BindingPathSegment>)
    requires
        tables_ok(tables_view(ent@)),
        tables_ok(tables_view(cpx@)),
    ensures
        segment_views(r@) == partner_path(tables_view(ent@), tables_view(cpx@), target, partner@),
{
    let segs = split_path(partner);
    proof {
        assert(strs(segs@).skip(0) =~= strs(segs@));
    }
    walk_segments(ent, cpx, Some(StructuredTypeRef::Entity(target)), &segs, 0, 0)
}

/// Resolves a binding path from the entity type of its set or singleton.
pub fn resolve_binding_path(
    ent: &Vec<ResolvedMembers>,
    cpx: &Vec<ResolvedMembers>,
    source_target: usize,
    path: &str,
) -> (r: Vec<BindingPathSegment>)
    requires
        tables_ok(tables_view(ent@)),
        tables_ok(tables_view(cpx@)),
    ensures
        segment_views(r@) == binding_path(tables_view(ent@), tables_view(cpx@), source_target, path@),
{
    let segs = split_path(path);
    proof {
        assert(strs(segs@).skip(0) =~= strs(segs@));
    }
    walk_segments(ent, cpx, Some(StructuredTypeRef::Entity(source_target)), &segs, 0, 0)
}

fn find_source_of(es: &Vec<Entry>, n: &str) -> (r: Option<usize>)
    ensures
        match r {
            Some(j) => find_source(entries_view(es@), n@) == Some(j as int),
            None => find_source(entries_view(es@), n@) is None,
        },
{
    let ghost v = entries_view(es@);
    let mut i: usize = 0;
    while i < es.len()
        invariant
            i <= es@.len(),
            v == entries_view(es@),
            find_source(v.take(i as int), n@) is None,
        decreases es.len() - i,
    {
        proof {
            assert(v.take(i + 1).drop_last() =~= v.take(i as int));
        }
        if es[i].kind <= 1 && crate::text::str_eq(es[i].name.as_str(), n) {
            proof {
                lemma_find_source_prefix(v, n@, i + 1);
            }
            return Some(i);
        }
        i = i + 1;
    }
    proof {
        assert(v.take(v.len() as int) =~= v);
    }
    None
}

proof fn lemma_find_source_prefix(es: Seq<EntryView>, n: Seq<char>, i: int)
    requires
        0 <= i <= es.len(),
        find_source(es.take(i), n) is Some,
    ensures
        find_source(es, n) == find_source(es.take(i), n),
    decreases es.len() - i,
{
    if i < es.len() {
        assert(es.take(i + 1).drop_last() =~= es.take(i));
        lemma_find_source_prefix(es, n, i + 1);
    } else {
        assert(es.take(i) =~= es);
    }
}

/// Resolves a binding target or an import's entity set against the
/// container's elements.
pub fn resolve_container_path(
    ent: &Vec<ResolvedMembers>,
    cpx: &Vec<ResolvedMembers>,
    es: &Vec<Entry>,
    path: &str,
) -> (r: Vec<BindingPathSegment>)
    requires
        tables_ok(tables_view(ent@)),
        tables_ok(tables_view(cpx@)),
    ensures
        segment_views(r@) == container_path(
            tables_view(ent@),
            tables_view(cpx@),
            entries_view(es@),
            path@,
        ),
{
    let segs = split_path(path);
    if segs.len() == 0 {
        let r: Vec<BindingPathSegment> = Vec::new();
        proof {
            assert(segment_views(r@) =~= Seq::<SegmentView>::empty());
        }
        return r;
    }
    proof {
        assert(strs(segs@).skip(1) =~= strs(segs@).drop_first());
    }
    match find_source_of(es, segs[0].as_str()) {
        Some(j) => {
            proof {
                lemma_find_source(entries_view(es@), segs@[0]@);
            }
            let head = if es[j].kind == 0 {
                BindingPathSegment::EntitySet(j)
            } else {
                BindingPathSegment::Singleton(j)
            };
            let rest = walk_segments(ent, cpx, Some(StructuredTypeRef::Entity(es[j].target)), &segs, 1, 0);
            let mut out: Vec<BindingPathSegment> = Vec::new();
            out.push(head);
            let ghost o = out@;
            let mut rest = rest;
            out.append(&mut rest);
            proof {
                assert(segment_views(out@) =~= segment_views(o) + segment_views(out@.skip(1)));
            }
            out
        },
        None => {
            let rest = walk_segments(ent, cpx, None, &segs, 1, 0);
            let mut out: Vec<BindingPathSegment> = Vec::new();
            out.push(BindingPathSegment::Unresolved(owned(segs[0].as_str())));
            let ghost o = out@;
            let mut rest = rest;
            out.append(&mut rest);
            proof {
                assert(segment_views(out@) =~= segment_views(o) + segment_views(out@.skip(1)));
            }
            out
        },
    }
}

/// Resolves a key path against the entity type `entity`.
pub fn resolve_key_path(
    ent: &Vec<ResolvedMembers>,
    cpx: &Vec<ResolvedMembers>,
    entity: usize,
    key: &str,
) -> (r: Vec<KeyPathSegment>)
    requires
        tables_ok(tables_view(ent@)),
        tables_ok(tables_view(cpx@)),
    ensures
        key_segment_views(r@) == key_path(tables_view(ent@), tables_view(cpx@), entity, key@),
{
    let segs = split_path(key);
    proof {
        assert(strs(segs@).skip(0) =~= strs(segs@));
    }
    let w = walk_segments(ent, cpx, Some(StructuredTypeRef::Entity(entity)), &segs, 0, 1);
    let ghost wv = segment_views(w@);
    let mut out: Vec<KeyPathSegment> = Vec::new();
    let mut i: usize = 0;
    while i < w.len()
        invariant
            i <= w@.len(),
            wv == segment_views(w@),
            key_segment_views(out@) == wv.take(i as int).map_values(|s: SegmentView| key_view_of(s)),
        decreases w.len() - i,
    {
        let k = match &w[i] {
            BindingPathSegment::Property(r) => KeyPathSegment::Property(*r),
            BindingPathSegment::Unresolved(n) => KeyPathSegment::Unresolved(owned(n.as_str())),
            _ => KeyPathSegment::Unresolved(owned("")),
        };
        proof {
            reveal_strlit("");
            assert(""@ =~= Seq::<char>::empty());
            assert(wv[i as int] == w@[i as int]@);
        }
        let ghost o = out@;
        out.push(k);
        proof {
            assert(wv.take(i + 1) =~= wv.take(i as int).push(wv[i as int]));
            assert(key_segment_views(out@) =~= key_segment_views(o).push(k@));
            assert(k@ == key_view_of(wv[i as int]));
        }
        i = i + 1;
    }
    proof {
        assert(wv.take(wv.len() as int) =~= wv);
    }
    out
}

/// Resolves an operation's entity set path given its parameters' names and
/// types.
pub fn resolve_entity_set_path(
    ent: &Vec<ResolvedMembers>,
    cpx: &Vec<ResolvedMembers>,
    param_names: &Vec<String>,
    param_types: &Vec<TermType>,
    path: &str,
) -> (r: Vec<EntitySetPathSegment>)
    requires
        tables_ok(tables_view(ent@)),
        tables_ok(tables_view(cpx@)),
        param_types@.len() == param_names@.len(),
    ensures
        entity_set_segment_views(r@) == entity_set_path(
            tables_view(ent@),
            tables_view(cpx@),
            strs(param_names@),
            param_types@,
            path@,
        ),
{
    let segs = split_path(path);
    let mut out: Vec<EntitySetPathSegment> = Vec::new();
    if segs.len() == 0 {
        proof {
            assert(entity_set_segment_views(out@) =~= Seq::<EntitySetSegmentView>::empty());
        }
        return out;
    }
    let start = match find_first_str(param_names, segs[0].as_str()) {
        Some(j) => {
            proof {
                lemma_find_first(strs(param_names@), segs@[0]@);
            }
            match param_types[j] {
                TermType::Entity(e) => Some(StructuredTypeRef::Entity(e)),
                TermType::Complex(c) => Some(StructuredTypeRef::Complex(c)),
                _ => None,
            }
        },
        None => None,
    };
    proof {
        assert(strs(segs@).skip(1) =~= strs(segs@).drop_first());
    }
    let w = walk_segments(ent, cpx, start, &segs, 1, 2);
    let ghost wv = segment_views(w@);
    out.push(EntitySetPathSegment::BindingParameter(owned(segs[0].as_str())));
    let mut i: usize = 0;
    while i < w.len()
        invariant
            i <= w@.len(),
            wv == segment_views(w@),
            segs@.len() >= 1,
            out@.len() >= 1,
            entity_set_segment_views(out@) == seq![EntitySetSegmentView::BindingParameter(segs@[0]@)]
                + wv.take(i as int).map_values(|s: SegmentView| set_view_of(s)),
        decreases w.len() - i,
    {
        let x = match &w[i] {
            BindingPathSegment::Property(r) => EntitySetPathSegment::Property(*r),
            BindingPathSegment::NavigationProperty(r) => EntitySetPathSegment::NavigationProperty(*r),
            BindingPathSegment::Unresolved(n) => EntitySetPathSegment::Unresolved(owned(n.as_str())),
            _ => EntitySetPathSegment::Unresolved(owned("")),
        };
        proof {
            reveal_strlit("");
            assert(""@ =~= Seq::<char>::empty());
            assert(wv[i as int] == w@[i as int]@);
        }
        let ghost o = out@;
        out.push(x);
        proof {
            assert(wv.take(i + 1) =~= wv.take(i as int).push(wv[i as int]));
            assert(entity_set_segment_views(out@) =~= entity_set_segment_views(o).push(x@));
            assert(x@ == set_view_of(wv[i as int]));
        }
        i = i + 1;
    }
    proof {
        assert(wv.take(wv.len() as int) =~= wv);
    }
    out
}

} // verus!
