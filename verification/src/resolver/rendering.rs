//! Resolved paths rendered back: a navigation property's partner, a
//! binding's path and target, and an import's entity set, resolved segment
//! by segment, display as the text they were resolved from.

use vstd::prelude::*;

use crate::csdl;
use crate::edm::{
    navigation_name, property_name, segment_views, NavigationPropertyBinding, spec_binding_path_string, BindingPathSegment, MemberRef,
    Model, SegmentView, StructuredTypeRef,
};
use crate::resolver::assemble::{bindings_built, container_elements_built, complex_at, complex_built, entity_at, entity_built, model_built, table};
use crate::resolver::container::EntryView;
use crate::resolver::paths::{binding_path, container_path, find_source, lemma_find_source, members_in, partner_path, walk, walk_step};
use crate::text::{join, lemma_join_split, lemma_non_empty_all, path_segments, split_char};
use crate::resolver::inherit::{
    extend, find_first, lemma_find_first, no_members, own_refs, owner_ref, spec_members, st_navs, st_props,
    Members,
};
use crate::resolver::lookup::{last_index, lemma_last_index_bounds, lemma_ordinal_of_kind, of_kind, ordinal, spec_kind};

verus! {

/// The properties a structured type of kind `k` (0 entity, 1 complex)
/// declares, by its arena index.
pub open spec fn owner_props(s: Seq<csdl::SchemaElement>, owner: StructuredTypeRef) -> Seq<csdl::Property> {
    match owner {
        StructuredTypeRef::Entity(i) => if i < of_kind(s, 0).len() {
            st_props(of_kind(s, 0)[i as int])
        } else {
            Seq::empty()
        },
        StructuredTypeRef::Complex(i) => if i < of_kind(s, 1).len() {
            st_props(of_kind(s, 1)[i as int])
        } else {
            Seq::empty()
        },
    }
}

/// The navigation properties a structured type declares, by its arena index.
pub open spec fn owner_navs(s: Seq<csdl::SchemaElement>, owner: StructuredTypeRef) -> Seq<csdl::NavigationProperty> {
    match owner {
        StructuredTypeRef::Entity(i) => if i < of_kind(s, 0).len() {
            st_navs(of_kind(s, 0)[i as int])
        } else {
            Seq::empty()
        },
        StructuredTypeRef::Complex(i) => if i < of_kind(s, 1).len() {
            st_navs(of_kind(s, 1)[i as int])
        } else {
            Seq::empty()
        },
    }
}

/// Each member of a table refers to a declared member of the name the table
/// lists for it.
pub open spec fn members_faithful(s: Seq<csdl::SchemaElement>, ms: Members) -> bool {
    &&& ms.props.len() == ms.prop_names.len()
    &&& ms.navs.len() == ms.nav_names.len()
    &&& forall|j: int|
        0 <= j < ms.props.len() ==> (#[trigger] ms.props[j]).index < owner_props(s, ms.props[j].owner).len()
            && owner_props(s, ms.props[j].owner)[ms.props[j].index as int].name@ == ms.prop_names[j]
    &&& forall|j: int|
        0 <= j < ms.navs.len() ==> (#[trigger] ms.navs[j]).index < owner_navs(s, ms.navs[j].owner).len()
            && owner_navs(s, ms.navs[j].owner)[ms.navs[j].index as int].name@ == ms.nav_names[j]
}

/// The effective members of an entity or complex type are faithful.
pub proof fn lemma_members_faithful(
    s: Seq<csdl::SchemaElement>,
    ns: Seq<char>,
    al: Seq<(Seq<char>, Seq<char>)>,
    k: u8,
    name: Seq<char>,
    visiting: Seq<Seq<char>>,
    fuel: nat,
)
    requires
        k <= 1,
        s.len() <= usize::MAX,
    ensures
        spec_members(s, ns, al, k, name, visiting, fuel) matches Ok(ms) ==> members_faithful(s, ms),
    decreases fuel,
{
    if let Ok(ms) = spec_members(s, ns, al, k, name, visiting, fuel) {
        lemma_last_index_bounds(s, k, name);
        let i = last_index(s, k, name)->0;
        let e = s[i];
        lemma_ordinal_of_kind(s, k, i);
        let o = ordinal(s, k, i);
        let owner = owner_ref(k, o);
        crate::resolver::lookup::lemma_of_kind_kinds(s, k);
        assert(o < s.len());
        assert(owner_props(s, owner) == st_props(e));
        assert(owner_navs(s, owner) == st_navs(e));
        let props = st_props(e);
        let navs = st_navs(e);
        match e {
            csdl::SchemaElement::EntityType(x) => {
                assert(x.properties.len() == x.properties@.len());
                assert(x.navigation_properties.len() == x.navigation_properties@.len());
            },
            csdl::SchemaElement::ComplexType(x) => {
                assert(x.properties.len() == x.properties@.len());
                assert(x.navigation_properties.len() == x.navigation_properties@.len());
            },
            _ => {},
        }
        let bm = match crate::resolver::inherit::st_base(e) {
            None => no_members(),
            Some(b) => {
                let bn = crate::resolver::lookup::spec_unqualify(b@, ns, al)->0;
                lemma_members_faithful(s, ns, al, k, bn, visiting.push(name), (fuel - 1) as nat);
                spec_members(s, ns, al, k, bn, visiting.push(name), (fuel - 1) as nat)->Ok_0
            },
        };
        let tys = crate::resolver::types::spec_property_types(props, s, ns, al)->Ok_0;
        let ts = crate::resolver::types::spec_navigation_targets(navs, s, ns, al)->Ok_0;
        assert(ms == extend(bm, owner, props, tys, navs, ts));
        assert(members_faithful(s, bm));
        let np = own_refs(owner, props.len());
        let nn = own_refs(owner, navs.len());
        assert forall|j: int| 0 <= j < ms.props.len() implies (#[trigger] ms.props[j]).index < owner_props(
            s,
            ms.props[j].owner,
        ).len() && owner_props(s, ms.props[j].owner)[ms.props[j].index as int].name@ == ms.prop_names[j] by {
            if j >= bm.props.len() {
                let x = j - bm.props.len();
                assert(ms.props[j] == np[x]);
                assert(ms.prop_names[j] == props[x].name@);
            } else {
                assert(ms.props[j] == bm.props[j]);
                assert(ms.prop_names[j] == bm.prop_names[j]);
            }
        }
        assert forall|j: int| 0 <= j < ms.navs.len() implies (#[trigger] ms.navs[j]).index < owner_navs(
            s,
            ms.navs[j].owner,
        ).len() && owner_navs(s, ms.navs[j].owner)[ms.navs[j].index as int].name@ == ms.nav_names[j] by {
            if j >= bm.navs.len() {
                let x = j - bm.navs.len();
                assert(ms.navs[j] == nn[x]);
                assert(ms.nav_names[j] == navs[x].name@);
            } else {
                assert(ms.navs[j] == bm.navs[j]);
                assert(ms.nav_names[j] == bm.nav_names[j]);
            }
        }
    }
}

/// The model's members carry the names of the declarations they were built
/// from.
pub open spec fn model_linked(s: Seq<csdl::SchemaElement>, m: Model) -> bool {
    &&& forall|r: MemberRef|
        r.index < owner_props(s, r.owner).len() ==> #[trigger] property_name(m, r) == Some(
            owner_props(s, r.owner)[r.index as int].name@,
        )
    &&& forall|r: MemberRef|
        r.index < owner_navs(s, r.owner).len() ==> #[trigger] navigation_name(m, r) == Some(
            owner_navs(s, r.owner)[r.index as int].name@,
        )
}

proof fn lemma_model_linked(schema: csdl::Schema, al: Seq<(Seq<char>, Seq<char>)>, m: Model)
    requires
        model_built(schema, al, m),
    ensures
        model_linked(schema.elements@, m),
{
    let s = schema.elements@;
    let ns = schema.namespace@;
    crate::resolver::lookup::lemma_of_kind_kinds(s, 0);
    crate::resolver::lookup::lemma_of_kind_kinds(s, 1);
    assert forall|r: MemberRef| r.index < owner_props(s, r.owner).len() implies #[trigger] property_name(m, r) == Some(
        owner_props(s, r.owner)[r.index as int].name@,
    ) by {
        match r.owner {
            StructuredTypeRef::Entity(i) => {
                let id = i as int;
                assert(spec_kind(of_kind(s, 0)[id]) == 0);
                assert(entity_built(m.entity_types@[id], entity_at(of_kind(s, 0)[id]), id as nat, s, ns, al));
            },
            StructuredTypeRef::Complex(i) => {
                let id = i as int;
                assert(spec_kind(of_kind(s, 1)[id]) == 1);
                assert(complex_built(m.complex_types@[id], complex_at(of_kind(s, 1)[id]), id as nat, s, ns, al));
            },
        }
    }
    assert forall|r: MemberRef| r.index < owner_navs(s, r.owner).len() implies #[trigger] navigation_name(m, r) == Some(
        owner_navs(s, r.owner)[r.index as int].name@,
    ) by {
        match r.owner {
            StructuredTypeRef::Entity(i) => {
                let id = i as int;
                assert(spec_kind(of_kind(s, 0)[id]) == 0);
                assert(entity_built(m.entity_types@[id], entity_at(of_kind(s, 0)[id]), id as nat, s, ns, al));
            },
            StructuredTypeRef::Complex(i) => {
                let id = i as int;
                assert(spec_kind(of_kind(s, 1)[id]) == 1);
                assert(complex_built(m.complex_types@[id], complex_at(of_kind(s, 1)[id]), id as nat, s, ns, al));
            },
        }
    }
}

/// The name a resolved segment displays (as
/// [`BindingPathSegment::spec_display_name`] gives it).
pub open spec fn view_display(v: SegmentView, m: Model) -> Seq<char> {
    match v {
        SegmentView::Property(r) => BindingPathSegment::Property(r).spec_display_name(m),
        SegmentView::NavigationProperty(r) => BindingPathSegment::NavigationProperty(r).spec_display_name(m),
        SegmentView::EntityTypeCast(i) => BindingPathSegment::EntityTypeCast(i).spec_display_name(m),
        SegmentView::ComplexTypeCast(i) => BindingPathSegment::ComplexTypeCast(i).spec_display_name(m),
        SegmentView::EntitySet(i) => BindingPathSegment::EntitySet(i).spec_display_name(m),
        SegmentView::Singleton(i) => BindingPathSegment::Singleton(i).spec_display_name(m),
        SegmentView::EntityContainer => BindingPathSegment::EntityContainer.spec_display_name(m),
        SegmentView::Unresolved(n) => n,
    }
}

/// Every table of the schema is faithful.
pub open spec fn tables_faithful(s: Seq<csdl::SchemaElement>, ns: Seq<char>, al: Seq<(Seq<char>, Seq<char>)>) -> bool {
    &&& forall|i: int| 0 <= i < table(s, ns, al, 0).len() ==> members_faithful(s, #[trigger] table(s, ns, al, 0)[i])
    &&& forall|i: int| 0 <= i < table(s, ns, al, 1).len() ==> members_faithful(s, #[trigger] table(s, ns, al, 1)[i])
}

proof fn lemma_tables_faithful(s: Seq<csdl::SchemaElement>, ns: Seq<char>, al: Seq<(Seq<char>, Seq<char>)>)
    requires
        s.len() <= usize::MAX,
    ensures
        tables_faithful(s, ns, al),
{
    assert forall|i: int| 0 <= i < table(s, ns, al, 0).len() implies members_faithful(
        s,
        #[trigger] table(s, ns, al, 0)[i],
    ) by {
        let e = of_kind(s, 0)[i];
        lemma_members_faithful(s, ns, al, 0, crate::resolver::lookup::spec_name(e), Seq::empty(), s.len());
    }
    assert forall|i: int| 0 <= i < table(s, ns, al, 1).len() implies members_faithful(
        s,
        #[trigger] table(s, ns, al, 1)[i],
    ) by {
        let e = of_kind(s, 1)[i];
        lemma_members_faithful(s, ns, al, 1, crate::resolver::lookup::spec_name(e), Seq::empty(), s.len());
    }
}

/// Walking segments against faithful tables of a linked model gives
/// segments that display as the segments walked.
proof fn lemma_walk_display(
    s: Seq<csdl::SchemaElement>,
    ns: Seq<char>,
    al: Seq<(Seq<char>, Seq<char>)>,
    m: Model,
    cur: Option<StructuredTypeRef>,
    segs: Seq<Seq<char>>,
)
    requires
        tables_faithful(s, ns, al),
        model_linked(s, m),
    ensures
        walk(table(s, ns, al, 0), table(s, ns, al, 1), cur, segs, 0).map_values(|v: SegmentView| view_display(v, m))
            == segs,
    decreases segs.len(),
{
    let ent = table(s, ns, al, 0);
    let cpx = table(s, ns, al, 1);
    let f = |v: SegmentView| view_display(v, m);
    if segs.len() == 0 {
        assert(walk(ent, cpx, cur, segs, 0).map_values(f) =~= segs);
    } else {
        let seg = segs[0];
        let (step, next) = walk_step(ent, cpx, cur, seg, 0);
        lemma_walk_display(s, ns, al, m, next, segs.drop_first());
        let rest = walk(ent, cpx, next, segs.drop_first(), 0);
        assert(view_display(step, m) == seg) by {
            if let Some(t) = cur {
                if let Some(ms) = members_in(ent, cpx, t) {
                    assert(members_faithful(s, ms));
                    lemma_find_first(ms.prop_names, seg);
                    lemma_find_first(ms.nav_names, seg);
                    match find_first(ms.prop_names, seg) {
                        Some(j) => {
                            let r = ms.props[j];
                            assert(property_name(m, r) == Some(owner_props(s, r.owner)[r.index as int].name@));
                        },
                        None => {
                            match find_first(ms.nav_names, seg) {
                                Some(j) => {
                                    let r = ms.navs[j];
                                    assert(navigation_name(m, r) == Some(owner_navs(s, r.owner)[r.index as int].name@));
                                },
                                None => {},
                            }
                        },
                    }
                }
            }
        }
        assert(walk(ent, cpx, cur, segs, 0) == seq![step] + rest);
        assert((seq![step] + rest).map_values(f) =~= seq![view_display(step, m)] + rest.map_values(f));
        assert(segs =~= seq![seg] + segs.drop_first());
    }
}

/// No `/`-separated segment of the text is empty: it neither starts nor
/// ends with `/`, and holds no `//`.
pub open spec fn no_empty_segment(p: Seq<char>) -> bool {
    forall|x: int| 0 <= x < split_char(p, '/').len() ==> (#[trigger] split_char(p, '/')[x]).len() > 0
}

/// Segments resolved against the tables render as the text they were
/// resolved from, where no segment of it is empty.
proof fn lemma_rendered(
    s: Seq<csdl::SchemaElement>,
    ns: Seq<char>,
    al: Seq<(Seq<char>, Seq<char>)>,
    m: Model,
    cur: Option<StructuredTypeRef>,
    v: Seq<BindingPathSegment>,
    p: Seq<char>,
)
    requires
        tables_faithful(s, ns, al),
        model_linked(s, m),
        segment_views(v) == walk(table(s, ns, al, 0), table(s, ns, al, 1), cur, path_segments(p), 0),
    ensures
        v.map_values(|b: BindingPathSegment| b.spec_display_name(m)) == path_segments(p),
        no_empty_segment(p) ==> spec_binding_path_string(v, m) == p,
{
    lemma_walk_display(s, ns, al, m, cur, path_segments(p));
    let f = |v: SegmentView| view_display(v, m);
    let g = |b: BindingPathSegment| b.spec_display_name(m);
    assert(v.map_values(g) =~= segment_views(v).map_values(f)) by {
        assert forall|i: int| 0 <= i < v.len() implies v.map_values(g)[i] == segment_views(v).map_values(f)[i] by {
            let b = v[i];
            match b {
                BindingPathSegment::Unresolved(n) => {},
                _ => {},
            }
        }
    }
    if no_empty_segment(p) {
        lemma_non_empty_all(split_char(p, '/'));
        lemma_join_split(p, '/');
        reveal_strlit("/");
        assert("/"@ =~= seq!['/']);
    }
}

/// A navigation property's partner renders back as written: in the model a
/// schema resolves to, the navigation property declared with partner `p`
/// has a partner path whose segments display, one for one, as the non-empty
/// `/`-separated segments of `p` (a segment that names nothing stays as
/// written), so that the path renders as `p` where no segment of `p` is
/// empty; one declared without partner has none.
pub proof fn lemma_partner_renders(schema: csdl::Schema, al: Seq<(Seq<char>, Seq<char>)>, m: Model, r: MemberRef)
    requires
        model_built(schema, al, m),
        r.index < owner_navs(schema.elements@, r.owner).len(),
    ensures
        owner_navs(schema.elements@, r.owner)[r.index as int].partner is None ==> navigation_at_partner(m, r) is None,
        owner_navs(schema.elements@, r.owner)[r.index as int].partner matches Some(p) ==> (navigation_at_partner(m, r)
            matches Some(v) && v.map_values(|b: BindingPathSegment| b.spec_display_name(m)) == path_segments(p@)
            && (no_empty_segment(p@) ==> spec_binding_path_string(v, m) == p@)),
{
    let s = schema.elements@;
    let ns = schema.namespace@;
    assert(schema.elements.len() == schema.elements@.len());
    lemma_tables_faithful(s, ns, al);
    lemma_model_linked(schema, al, m);
    crate::resolver::lookup::lemma_of_kind_kinds(s, 0);
    crate::resolver::lookup::lemma_of_kind_kinds(s, 1);
    let ent = table(s, ns, al, 0);
    let cpx = table(s, ns, al, 1);
    let j = r.index as int;
    match r.owner {
        StructuredTypeRef::Entity(i) => {
            let id = i as int;
            assert(spec_kind(of_kind(s, 0)[id]) == 0);
            let d = entity_at(of_kind(s, 0)[id]);
            assert(entity_built(m.entity_types@[id], d, id as nat, s, ns, al));
            let ts = crate::resolver::types::spec_navigation_targets(d.navigation_properties@, s, ns, al)->Ok_0;
            let out = m.entity_types@[id].declared_navigation_properties@;
            assert(out[j].partner == crate::edm::navigation_at(m, r)->0.partner);
            if let Some(p) = d.navigation_properties@[j].partner {
                let v = out[j].partner->0;
                lemma_rendered(s, ns, al, m, Some(StructuredTypeRef::Entity(ts[j])), v@, p@);
            }
        },
        StructuredTypeRef::Complex(i) => {
            let id = i as int;
            assert(spec_kind(of_kind(s, 1)[id]) == 1);
            let d = complex_at(of_kind(s, 1)[id]);
            assert(complex_built(m.complex_types@[id], d, id as nat, s, ns, al));
            let ts = crate::resolver::types::spec_navigation_targets(d.navigation_properties@, s, ns, al)->Ok_0;
            let out = m.complex_types@[id].declared_navigation_properties@;
            assert(out[j].partner == crate::edm::navigation_at(m, r)->0.partner);
            if let Some(p) = d.navigation_properties@[j].partner {
                let v = out[j].partner->0;
                lemma_rendered(s, ns, al, m, Some(StructuredTypeRef::Entity(ts[j])), v@, p@);
            }
        },
    }
}

/// The partner path of the navigation property `r` names, as segments.
pub open spec fn navigation_at_partner(m: Model, r: MemberRef) -> Option<Seq<BindingPathSegment>> {
    match crate::edm::navigation_at(m, r) {
        Some(n) => match n.partner {
            Some(v) => Some(v@),
            None => None,
        },
        None => None,
    }
}

/// A navigation property binding's path renders back as written: in the
/// model a schema resolves to, the path of a binding of a container element
/// (built from the path text `t`) has segments that display, one for one,
/// as the non-empty `/`-separated segments of `t`, and renders as `t` where
/// no segment of `t` is empty.
pub proof fn lemma_binding_paths_render(
    schema: csdl::Schema,
    al: Seq<(Seq<char>, Seq<char>)>,
    m: Model,
    out: Seq<NavigationPropertyBinding>,
    e: EntryView,
    es: Seq<EntryView>,
)
    requires
        model_built(schema, al, m),
        bindings_built(
            out,
            e,
            es,
            table(schema.elements@, schema.namespace@, al, 0),
            table(schema.elements@, schema.namespace@, al, 1),
        ),
    ensures
        forall|j: int|
            0 <= j < out.len() ==> (#[trigger] out[j]).path@.map_values(
                |b: BindingPathSegment| b.spec_display_name(m),
            ) == path_segments(e.paths[j]) && (no_empty_segment(e.paths[j]) ==> spec_binding_path_string(
                out[j].path@,
                m,
            ) == e.paths[j]),
{
    let s = schema.elements@;
    let ns = schema.namespace@;
    assert(schema.elements.len() == schema.elements@.len());
    lemma_tables_faithful(s, ns, al);
    lemma_model_linked(schema, al, m);
    assert forall|j: int| 0 <= j < out.len() implies (#[trigger] out[j]).path@.map_values(
        |b: BindingPathSegment| b.spec_display_name(m),
    ) == path_segments(e.paths[j]) && (no_empty_segment(e.paths[j]) ==> spec_binding_path_string(out[j].path@, m)
        == e.paths[j]) by {
        lemma_rendered(s, ns, al, m, Some(StructuredTypeRef::Entity(e.target)), out[j].path@, e.paths[j]);
    }
}

/// A container path (a binding target or an import's entity set) renders
/// back as written: in the model a schema resolves to, a path resolved
/// against the container's elements from the text `t` has segments that
/// display, one for one, as the non-empty `/`-separated segments of `t` (a
/// head that names no entity set or singleton, and any segment that names
/// nothing, stays as written), and renders as `t` where no segment of `t` is
/// empty.
pub proof fn lemma_container_path_renders(
    schema: csdl::Schema,
    al: Seq<(Seq<char>, Seq<char>)>,
    m: Model,
    es: Seq<EntryView>,
    v: Seq<BindingPathSegment>,
    t: Seq<char>,
)
    requires
        model_built(schema, al, m),
        m.entity_container matches Some(c) && container_elements_built(
            c.elements@,
            es,
            table(schema.elements@, schema.namespace@, al, 0),
            table(schema.elements@, schema.namespace@, al, 1),
        ),
        segment_views(v) == container_path(
            table(schema.elements@, schema.namespace@, al, 0),
            table(schema.elements@, schema.namespace@, al, 1),
            es,
            t,
        ),
    ensures
        v.map_values(|b: BindingPathSegment| b.spec_display_name(m)) == path_segments(t),
        no_empty_segment(t) ==> spec_binding_path_string(v, m) == t,
{
    let s = schema.elements@;
    let ns = schema.namespace@;
    let ent = table(s, ns, al, 0);
    let cpx = table(s, ns, al, 1);
    let c = m.entity_container->0;
    assert(schema.elements.len() == schema.elements@.len());
    assert(c.elements.len() == c.elements@.len());
    lemma_tables_faithful(s, ns, al);
    lemma_model_linked(schema, al, m);
    let segs = path_segments(t);
    let f = |x: SegmentView| view_display(x, m);
    let g = |b: BindingPathSegment| b.spec_display_name(m);
    assert(v.map_values(g) =~= segment_views(v).map_values(f)) by {
        assert forall|i: int| 0 <= i < v.len() implies v.map_values(g)[i] == segment_views(v).map_values(f)[i] by {
            match v[i] {
                BindingPathSegment::Unresolved(n) => {},
                _ => {},
            }
        }
    }
    if segs.len() == 0 {
        assert(segment_views(v).map_values(f) =~= segs);
    } else {
        lemma_find_source(es, segs[0]);
        let (head, cur) = match find_source(es, segs[0]) {
            Some(j) => (
                if es[j].kind == 0 {
                    SegmentView::EntitySet(j as usize)
                } else {
                    SegmentView::Singleton(j as usize)
                },
                Some(StructuredTypeRef::Entity(es[j].target)),
            ),
            None => (SegmentView::Unresolved(segs[0]), None),
        };
        let rest = walk(ent, cpx, cur, segs.drop_first(), 0);
        lemma_walk_display(s, ns, al, m, cur, segs.drop_first());
        assert(segment_views(v) == seq![head] + rest);
        assert(view_display(head, m) == segs[0]) by {
            if let Some(j) = find_source(es, segs[0]) {
                assert(crate::resolver::assemble::container_element_built(c.elements@[j], es[j], es, ent, cpx));
            }
        }
        assert((seq![head] + rest).map_values(f) =~= seq![view_display(head, m)] + rest.map_values(f));
        assert(segs =~= seq![segs[0]] + segs.drop_first());
    }
    if no_empty_segment(t) {
        lemma_non_empty_all(split_char(t, '/'));
        lemma_join_split(t, '/');
        reveal_strlit("/");
        assert("/"@ =~= seq!['/']);
    }
}

} // verus!
