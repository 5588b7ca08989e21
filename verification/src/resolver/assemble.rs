//! Building the model of a schema that passed its checks: one arena per kind
//! of element, filled in document order, with every reference resolved.

use vstd::prelude::*;

use crate::csdl;
use crate::edm::{
    Action, ComplexType, EntityContainer, EntityContainerElement, EntitySet, EntityType, EnumMember,
    EnumType, Function, FunctionImport, ActionImport, KeyPathSegment, MemberRef, Model,
    NavigationProperty, NavigationPropertyBinding, ReferentialConstraint, SchemaElement, Singleton, Term,
    TermType, TypeDefinition, entity_set_segment_views, key_segment_views, segment_views,
};
use crate::resolver::container::{
    Entry, EntryView, container_at, entries_view, opt_str, resolve_entity_container, spec_container,
};
use crate::resolver::inherit::{
    Members, ResolvedMembers, lemma_members_lengths, no_members, resolve_effective_entity_keys,
    resolve_members, spec_effective_keys, spec_members, st_navs, st_props,
};
use crate::resolver::lookup::{aliases_view, 
    arena_id, element_kind, element_name, find_id, last_index, of_kind, resolve_primitive, spec_kind,
    spec_name, spec_primitive, spec_unqualify, unqualify_to_local, lemma_of_kind_kinds,
    lemma_ordinal_of_kind, ordinal,
};
use crate::resolver::operations::{
    action_built, function_built, resolve_action, resolve_function, spec_action_error,
    spec_function_error, spec_parameter_types,
};
use crate::resolver::paths::{
    binding_path, container_path, entity_set_path, key_path, partner_path, resolve_binding_path,
    resolve_container_path, resolve_entity_set_path, resolve_key_path, resolve_partner, tables_ok,
    tables_view,
};
use crate::resolver::phases::{
    duplicate_before, err_of, lemma_phase_passed, phase_error, phase_step, run_phase,
    term_type_name,
};
use crate::resolver::types::{
    constraints_copied, properties_built, resolve_navs, resolve_properties, resolve_term_type,
    spec_navigation_targets, spec_on_delete, spec_property_types, spec_resolve_term_type,
};
use crate::resolver::{ResolveError, ResolveErrorView};
use crate::text::{owned, strs};

verus! {

// ---------------------------------------------------------------------------
// What a schema resolves to
// ---------------------------------------------------------------------------

/// Position of the first element of kind `k`.
pub open spec fn first_of_kind(s: Seq<csdl::SchemaElement>, k: u8) -> Option<int>
    decreases s.len(),
{
    if s.len() == 0 {
        None
    } else {
        match first_of_kind(s.drop_last(), k) {
            Some(j) => Some(j),
            None => if spec_kind(s.last()) == k {
                Some(s.len() - 1)
            } else {
                None
            },
        }
    }
}

/// The first failure of the checks, in the order they run; the entity
/// container checked last is the schema's first one.
pub open spec fn spec_schema_error(
    s: Seq<csdl::SchemaElement>,
    ns: Seq<char>,
    al: Seq<(Seq<char>, Seq<char>)>,
) -> Option<ResolveErrorView> {
    let n = s.len() as int;
    match phase_error(0, s, ns, al, n) {
        Some(e) => Some(e),
        None => match phase_error(1, s, ns, al, n) {
            Some(e) => Some(e),
            None => match phase_error(2, s, ns, al, n) {
                Some(e) => Some(e),
                None => match phase_error(3, s, ns, al, n) {
                    Some(e) => Some(e),
                    None => match phase_error(4, s, ns, al, n) {
                        Some(e) => Some(e),
                        None => match first_of_kind(s, 7) {
                            None => None,
                            Some(j) => err_of(
                                spec_container(s, ns, al, container_at(s[j]), Seq::empty(), s.len()),
                            ),
                        },
                    },
                },
            },
        },
    }
}

/// The effective members of a structured type element (`k` 0 or 1).
pub open spec fn members_of(
    s: Seq<csdl::SchemaElement>,
    ns: Seq<char>,
    al: Seq<(Seq<char>, Seq<char>)>,
    k: u8,
    e: csdl::SchemaElement,
) -> Members {
    match spec_members(s, ns, al, k, spec_name(e), Seq::empty(), s.len()) {
        Ok(m) => m,
        Err(_) => no_members(),
    }
}

/// The effective members of every entity (`k == 0`) or complex (`k == 1`)
/// type, in arena order.
pub open spec fn table(
    s: Seq<csdl::SchemaElement>,
    ns: Seq<char>,
    al: Seq<(Seq<char>, Seq<char>)>,
    k: u8,
) -> Seq<Members> {
    of_kind(s, k).map_values(|e: csdl::SchemaElement| members_of(s, ns, al, k, e))
}

pub open spec fn entity_at(e: csdl::SchemaElement) -> csdl::EntityType {
    match e {
        csdl::SchemaElement::EntityType(x) => x,
        _ => arbitrary(),
    }
}

pub open spec fn complex_at(e: csdl::SchemaElement) -> csdl::ComplexType {
    match e {
        csdl::SchemaElement::ComplexType(x) => x,
        _ => arbitrary(),
    }
}

pub open spec fn enum_at(e: csdl::SchemaElement) -> csdl::EnumType {
    match e {
        csdl::SchemaElement::EnumType(x) => x,
        _ => arbitrary(),
    }
}

pub open spec fn type_definition_at(e: csdl::SchemaElement) -> csdl::TypeDefinition {
    match e {
        csdl::SchemaElement::TypeDefinition(x) => x,
        _ => arbitrary(),
    }
}

pub open spec fn term_at(e: csdl::SchemaElement) -> csdl::Term {
    match e {
        csdl::SchemaElement::Term(x) => x,
        _ => arbitrary(),
    }
}

pub open spec fn function_at(e: csdl::SchemaElement) -> csdl::Function {
    match e {
        csdl::SchemaElement::Function(x) => x,
        _ => arbitrary(),
    }
}

pub open spec fn action_at(e: csdl::SchemaElement) -> csdl::Action {
    match e {
        csdl::SchemaElement::Action(x) => x,
        _ => arbitrary(),
    }
}

pub open spec fn or_false(b: Option<bool>) -> bool {
    match b {
        Some(x) => x,
        None => false,
    }
}

/// The declared navigation properties with their targets, and their
/// partners resolved against those targets.
pub open spec fn navs_built(
    out: Seq<NavigationProperty>,
    src: Seq<csdl::NavigationProperty>,
    ts: Seq<usize>,
    ent: Seq<Members>,
    cpx: Seq<Members>,
) -> bool {
    &&& out.len() == src.len()
    &&& ts.len() == src.len()
    &&& forall|j: int|
        0 <= j < out.len() ==> {
            &&& (#[trigger] out[j]).name@ == src[j].name@
            &&& out[j].target == ts[j]
            &&& out[j].is_collection == src[j].is_collection
            &&& out[j].contains_target == src[j].contains_target
            &&& out[j].on_delete == match src[j].on_delete {
                Some(a) => Some(spec_on_delete(a)),
                None => None,
            }
            &&& constraints_copied(out[j].referential_constraints@, src[j].referential_constraints@)
            &&& match src[j].partner {
                None => out[j].partner is None,
                Some(p) => out[j].partner matches Some(v) && segment_views(v@) == partner_path(
                    ent,
                    cpx,
                    ts[j],
                    p@,
                ),
            }
        }
}

/// Every effective key name resolved as a path from the entity type `id`.
pub open spec fn keys_built(
    out: Seq<Vec<KeyPathSegment>>,
    keys: Seq<Seq<char>>,
    id: nat,
    ent: Seq<Members>,
    cpx: Seq<Members>,
) -> bool {
    &&& out.len() == keys.len()
    &&& forall|j: int|
        0 <= j < out.len() ==> key_segment_views((#[trigger] out[j])@) == key_path(
            ent,
            cpx,
            id as usize,
            keys[j],
        )
}

/// The entity type `id` built from its declaration `d`.
pub open spec fn entity_built(
    x: EntityType,
    d: csdl::EntityType,
    id: nat,
    s: Seq<csdl::SchemaElement>,
    ns: Seq<char>,
    al: Seq<(Seq<char>, Seq<char>)>,
) -> bool {
    let ent = table(s, ns, al, 0);
    let cpx = table(s, ns, al, 1);
    &&& x.name@ == d.name@
    &&& x.is_abstract == or_false(d.abstract_)
    &&& properties_built(
        x.declared_properties@,
        d.properties@,
        spec_property_types(d.properties@, s, ns, al)->Ok_0,
    )
    &&& navs_built(
        x.declared_navigation_properties@,
        d.navigation_properties@,
        spec_navigation_targets(d.navigation_properties@, s, ns, al)->Ok_0,
        ent,
        cpx,
    )
    &&& x.properties@ == ent[id as int].props
    &&& x.navigation_properties@ == ent[id as int].navs
    &&& keys_built(
        x.keys@,
        spec_effective_keys(s, ns, al, d.name@, Seq::empty(), s.len())->Ok_0,
        id,
        ent,
        cpx,
    )
}

/// The complex type `id` built from its declaration `d`.
pub open spec fn complex_built(
    x: ComplexType,
    d: csdl::ComplexType,
    id: nat,
    s: Seq<csdl::SchemaElement>,
    ns: Seq<char>,
    al: Seq<(Seq<char>, Seq<char>)>,
) -> bool {
    let ent = table(s, ns, al, 0);
    let cpx = table(s, ns, al, 1);
    &&& x.name@ == d.name@
    &&& x.is_abstract == or_false(d.abstract_)
    &&& properties_built(
        x.declared_properties@,
        d.properties@,
        spec_property_types(d.properties@, s, ns, al)->Ok_0,
    )
    &&& navs_built(
        x.declared_navigation_properties@,
        d.navigation_properties@,
        spec_navigation_targets(d.navigation_properties@, s, ns, al)->Ok_0,
        ent,
        cpx,
    )
    &&& x.properties@ == cpx[id as int].props
    &&& x.navigation_properties@ == cpx[id as int].navs
}

pub open spec fn enum_built(x: EnumType, d: csdl::EnumType) -> bool {
    &&& x.name@ == d.name@
    &&& x.members@.len() == d.members@.len()
    &&& forall|j: int|
        0 <= j < x.members@.len() ==> (#[trigger] x.members@[j]).name@ == d.members@[j].name@
            && x.members@[j].value == d.members@[j].value
}

pub open spec fn type_definition_built(x: TypeDefinition, d: csdl::TypeDefinition) -> bool {
    &&& x.name@ == d.name@
    &&& spec_primitive(d.underlying_type@) == Some(x.underlying_type)
}

pub open spec fn term_built(
    x: Term,
    d: csdl::Term,
    s: Seq<csdl::SchemaElement>,
    ns: Seq<char>,
    al: Seq<(Seq<char>, Seq<char>)>,
) -> bool {
    &&& x.name@ == d.name@
    &&& x.is_collection == d.is_collection
    &&& x.ty == Some(spec_resolve_term_type(term_type_name(d), s, ns, al)->Ok_0)
    &&& x.base_term == match d.base_term {
        None => None,
        Some(b) => Some(arena_id(s, 4, spec_unqualify(b@, ns, al)->Some_0)->Some_0 as usize),
    }
}

/// An operation's entity set path, resolved from its parameters.
pub open spec fn entity_set_path_built(
    out: Option<Vec<crate::edm::EntitySetPathSegment>>,
    raw: Option<String>,
    params: Seq<csdl::Parameter>,
    types: Seq<TermType>,
    s: Seq<csdl::SchemaElement>,
    ns: Seq<char>,
    al: Seq<(Seq<char>, Seq<char>)>,
) -> bool {
    match raw {
        None => out is None,
        Some(p) => out matches Some(v) && entity_set_segment_views(v@) == entity_set_path(
            table(s, ns, al, 0),
            table(s, ns, al, 1),
            params.map_values(|q: csdl::Parameter| q.name@),
            types,
            p@,
        ),
    }
}

pub open spec fn function_fully_built(
    x: Function,
    d: csdl::Function,
    s: Seq<csdl::SchemaElement>,
    ns: Seq<char>,
    al: Seq<(Seq<char>, Seq<char>)>,
) -> bool {
    &&& function_built(x, d, s, ns, al)
    &&& entity_set_path_built(
        x.entity_set_path,
        d.entity_set_path,
        d.parameters@,
        spec_parameter_types(d.parameters@, "Function"@, d.name@, s, ns, al)->Ok_0,
        s,
        ns,
        al,
    )
}

pub open spec fn action_fully_built(
    x: Action,
    d: csdl::Action,
    s: Seq<csdl::SchemaElement>,
    ns: Seq<char>,
    al: Seq<(Seq<char>, Seq<char>)>,
) -> bool {
    &&& action_built(x, d, s, ns, al)
    &&& entity_set_path_built(
        x.entity_set_path,
        d.entity_set_path,
        d.parameters@,
        spec_parameter_types(d.parameters@, "Action"@, d.name@, s, ns, al)->Ok_0,
        s,
        ns,
        al,
    )
}

/// The schema's elements in document order, each as the index it gets in
/// the arena of its kind; entity containers are left out.
pub open spec fn element_refs(s: Seq<csdl::SchemaElement>) -> Seq<SchemaElement>
    decreases s.len(),
{
    if s.len() == 0 {
        Seq::empty()
    } else {
        let r = element_refs(s.drop_last());
        let p = s.drop_last();
        let k = spec_kind(s.last());
        if k == 0 {
            r.push(SchemaElement::EntityType(of_kind(p, 0).len() as usize))
        } else if k == 1 {
            r.push(SchemaElement::ComplexType(of_kind(p, 1).len() as usize))
        } else if k == 2 {
            r.push(SchemaElement::EnumType(of_kind(p, 2).len() as usize))
        } else if k == 3 {
            r.push(SchemaElement::TypeDefinition(of_kind(p, 3).len() as usize))
        } else if k == 4 {
            r.push(SchemaElement::Term(of_kind(p, 4).len() as usize))
        } else if k == 5 {
            r.push(SchemaElement::Function(of_kind(p, 5).len() as usize))
        } else if k == 6 {
            r.push(SchemaElement::Action(of_kind(p, 6).len() as usize))
        } else {
            r
        }
    }
}

/// A binding of an entity set or singleton: its path resolved from the
/// element's entity type, its target against the container.
pub open spec fn bindings_built(
    out: Seq<NavigationPropertyBinding>,
    e: EntryView,
    es: Seq<EntryView>,
    ent: Seq<Members>,
    cpx: Seq<Members>,
) -> bool {
    &&& out.len() == e.paths.len()
    &&& e.targets.len() == e.paths.len()
    &&& forall|j: int|
        0 <= j < out.len() ==> {
            &&& segment_views((#[trigger] out[j]).path@) == binding_path(ent, cpx, e.target, e.paths[j])
            &&& segment_views(out[j].target@) == container_path(ent, cpx, es, e.targets[j])
        }
}

pub open spec fn import_set_built(
    out: Option<Vec<crate::edm::BindingPathSegment>>,
    raw: Option<Seq<char>>,
    es: Seq<EntryView>,
    ent: Seq<Members>,
    cpx: Seq<Members>,
) -> bool {
    match raw {
        None => out is None,
        Some(p) => out matches Some(v) && segment_views(v@) == container_path(ent, cpx, es, p),
    }
}

pub open spec fn container_element_built(
    x: EntityContainerElement,
    e: EntryView,
    es: Seq<EntryView>,
    ent: Seq<Members>,
    cpx: Seq<Members>,
) -> bool {
    match x {
        EntityContainerElement::EntitySet(v) => e.kind == 0 && v.name@ == e.name && v.target == e.target
            && bindings_built(v.navigation_property_bindings@, e, es, ent, cpx),
        EntityContainerElement::Singleton(v) => e.kind == 1 && v.name@ == e.name && v.target == e.target
            && bindings_built(v.navigation_property_bindings@, e, es, ent, cpx),
        EntityContainerElement::FunctionImport(v) => e.kind == 2 && v.name@ == e.name && v.function@
            == e.operation && import_set_built(v.entity_set, e.entity_set, es, ent, cpx),
        EntityContainerElement::ActionImport(v) => e.kind == 3 && v.name@ == e.name && v.action@
            == e.operation && import_set_built(v.entity_set, e.entity_set, es, ent, cpx),
    }
}

pub open spec fn container_elements_built(
    out: Seq<EntityContainerElement>,
    es: Seq<EntryView>,
    ent: Seq<Members>,
    cpx: Seq<Members>,
) -> bool {
    &&& out.len() == es.len()
    &&& forall|j: int|
        0 <= j < out.len() ==> container_element_built(#[trigger] out[j], es[j], es, ent, cpx)
}

/// The model's entity container: the schema's first one, resolved.
pub open spec fn container_built(
    c: Option<EntityContainer>,
    s: Seq<csdl::SchemaElement>,
    ns: Seq<char>,
    al: Seq<(Seq<char>, Seq<char>)>,
) -> bool {
    match first_of_kind(s, 7) {
        None => c is None,
        Some(j) => c matches Some(x) && x.name@ == container_at(s[j]).name@
            && container_elements_built(
            x.elements@,
            spec_container(s, ns, al, container_at(s[j]), Seq::empty(), s.len())->Ok_0,
            table(s, ns, al, 0),
            table(s, ns, al, 1),
        ),
    }
}

/// The model a schema that passes its checks resolves to.
pub open spec fn model_built(schema: csdl::Schema, al: Seq<(Seq<char>, Seq<char>)>, m: Model) -> bool {
    let s = schema.elements@;
    let ns = schema.namespace@;
    &&& m.namespace@ == ns
    &&& opt_str(m.alias) == opt_str(schema.alias)
    &&& m.elements@ == element_refs(s)
    &&& m.entity_types@.len() == of_kind(s, 0).len()
    &&& forall|id: int|
        0 <= id < m.entity_types@.len() ==> entity_built(
            #[trigger] m.entity_types@[id],
            entity_at(of_kind(s, 0)[id]),
            id as nat,
            s,
            ns,
            al,
        )
    &&& m.complex_types@.len() == of_kind(s, 1).len()
    &&& forall|id: int|
        0 <= id < m.complex_types@.len() ==> complex_built(
            #[trigger] m.complex_types@[id],
            complex_at(of_kind(s, 1)[id]),
            id as nat,
            s,
            ns,
            al,
        )
    &&& m.enum_types@.len() == of_kind(s, 2).len()
    &&& forall|id: int|
        0 <= id < m.enum_types@.len() ==> enum_built(
            #[trigger] m.enum_types@[id],
            enum_at(of_kind(s, 2)[id]),
        )
    &&& m.type_definitions@.len() == of_kind(s, 3).len()
    &&& forall|id: int|
        0 <= id < m.type_definitions@.len() ==> type_definition_built(
            #[trigger] m.type_definitions@[id],
            type_definition_at(of_kind(s, 3)[id]),
        )
    &&& m.terms@.len() == of_kind(s, 4).len()
    &&& forall|id: int|
        0 <= id < m.terms@.len() ==> term_built(
            #[trigger] m.terms@[id],
            term_at(of_kind(s, 4)[id]),
            s,
            ns,
            al,
        )
    &&& m.functions@.len() == of_kind(s, 5).len()
    &&& forall|id: int|
        0 <= id < m.functions@.len() ==> function_fully_built(
            #[trigger] m.functions@[id],
            function_at(of_kind(s, 5)[id]),
            s,
            ns,
            al,
        )
    &&& m.actions@.len() == of_kind(s, 6).len()
    &&& forall|id: int|
        0 <= id < m.actions@.len() ==> action_fully_built(
            #[trigger] m.actions@[id],
            action_at(of_kind(s, 6)[id]),
            s,
            ns,
            al,
        )
    &&& container_built(m.entity_container, s, ns, al)
}


/// The kind of the element an entry of a model's element list refers to,
/// numbered as [`spec_kind`] numbers a schema's.
pub open spec fn model_element_kind(r: SchemaElement) -> u8 {
    match r {
        SchemaElement::EntityType(_) => 0,
        SchemaElement::ComplexType(_) => 1,
        SchemaElement::EnumType(_) => 2,
        SchemaElement::TypeDefinition(_) => 3,
        SchemaElement::Term(_) => 4,
        SchemaElement::Function(_) => 5,
        SchemaElement::Action(_) => 6,
    }
}

/// The name of the element an entry of a model's element list refers to.
pub open spec fn model_element_name(m: Model, r: SchemaElement) -> Seq<char> {
    match r {
        SchemaElement::EntityType(id) => m.entity_types@[id as int].name@,
        SchemaElement::ComplexType(id) => m.complex_types@[id as int].name@,
        SchemaElement::EnumType(id) => m.enum_types@[id as int].name@,
        SchemaElement::TypeDefinition(id) => m.type_definitions@[id as int].name@,
        SchemaElement::Term(id) => m.terms@[id as int].name@,
        SchemaElement::Function(id) => m.functions@[id as int].name@,
        SchemaElement::Action(id) => m.actions@[id as int].name@,
    }
}

/// A model's element list as kinds and names.
pub open spec fn model_listing(m: Model) -> Seq<(u8, Seq<char>)> {
    m.elements@.map_values(|r: SchemaElement| (model_element_kind(r), model_element_name(m, r)))
}

/// The kinds and names of a schema's elements other than entity
/// containers, in document order.
pub open spec fn listed_elements(s: Seq<csdl::SchemaElement>) -> Seq<(u8, Seq<char>)>
    decreases s.len(),
{
    if s.len() == 0 {
        Seq::empty()
    } else if spec_kind(s.last()) == 7 {
        listed_elements(s.drop_last())
    } else {
        listed_elements(s.drop_last()).push((spec_kind(s.last()), spec_name(s.last())))
    }
}

proof fn lemma_listing_prefix(s: Seq<csdl::SchemaElement>, m: Model, n: int)
    requires
        0 <= n <= s.len(),
        m.entity_types@.len() == of_kind(s, 0).len(),
        m.complex_types@.len() == of_kind(s, 1).len(),
        m.enum_types@.len() == of_kind(s, 2).len(),
        m.type_definitions@.len() == of_kind(s, 3).len(),
        m.terms@.len() == of_kind(s, 4).len(),
        m.functions@.len() == of_kind(s, 5).len(),
        m.actions@.len() == of_kind(s, 6).len(),
        forall|i: int| 0 <= i < s.len() && spec_kind(s[i]) < 7 ==> {
            let id = ordinal(s, spec_kind(#[trigger] s[i]), i) as usize;
            model_element_name(
                m,
                match spec_kind(s[i]) {
                    0 => SchemaElement::EntityType(id),
                    1 => SchemaElement::ComplexType(id),
                    2 => SchemaElement::EnumType(id),
                    3 => SchemaElement::TypeDefinition(id),
                    4 => SchemaElement::Term(id),
                    5 => SchemaElement::Function(id),
                    _ => SchemaElement::Action(id),
                },
            ) == spec_name(s[i])
        },
    ensures
        element_refs(s.take(n)).map_values(|r: SchemaElement| (model_element_kind(r), model_element_name(m, r)))
            == listed_elements(s.take(n)),
    decreases n,
{
    let f = |r: SchemaElement| (model_element_kind(r), model_element_name(m, r));
    if n == 0 {
        assert(element_refs(s.take(0)).map_values(f) =~= Seq::<(u8, Seq<char>)>::empty());
    } else {
        lemma_listing_prefix(s, m, n - 1);
        let t = s.take(n);
        let p = s.take(n - 1);
        assert(t.drop_last() =~= p);
        assert(t.last() == s[n - 1]);
        let k = spec_kind(s[n - 1]);
        if k < 7 {
            lemma_ordinal_of_kind(s, k, n - 1);
            assert(ordinal(s, k, n - 1) == of_kind(p, k).len());
            let r = element_refs(p);
            assert(element_refs(t).map_values(f) =~= r.map_values(f).push(f(element_refs(t).last())));
        } else {
            assert(element_refs(t) == element_refs(p));
        }
    }
}

/// The model a schema resolves to keeps the schema's namespace and alias,
/// lists the schema's elements other than entity containers in document
/// order, each by its kind and under its name, and holds the schema's first
/// entity container, under its name (none without one).
pub proof fn lemma_model_elements(schema: csdl::Schema, al: Seq<(Seq<char>, Seq<char>)>, m: Model)
    requires
        model_built(schema, al, m),
    ensures
        m.namespace@ == schema.namespace@,
        opt_str(m.alias) == opt_str(schema.alias),
        model_listing(m) == listed_elements(schema.elements@),
        match first_of_kind(schema.elements@, 7) {
            None => m.entity_container is None,
            Some(j) => m.entity_container matches Some(c) && c.name@ == container_at(schema.elements@[j]).name@,
        },
{
    let s = schema.elements@;
    assert forall|i: int| 0 <= i < s.len() && spec_kind(s[i]) < 7 implies {
        let id = ordinal(s, spec_kind(#[trigger] s[i]), i) as usize;
        model_element_name(
            m,
            match spec_kind(s[i]) {
                0 => SchemaElement::EntityType(id),
                1 => SchemaElement::ComplexType(id),
                2 => SchemaElement::EnumType(id),
                3 => SchemaElement::TypeDefinition(id),
                4 => SchemaElement::Term(id),
                5 => SchemaElement::Function(id),
                _ => SchemaElement::Action(id),
            },
        ) == spec_name(s[i])
    } by {
        let k = spec_kind(s[i]);
        lemma_ordinal_of_kind(s, k, i);
        let o = ordinal(s, k, i) as int;
        assert(of_kind(s, k)[o] == s[i]);
        if k == 0 {
            assert(m.entity_types.len() == m.entity_types@.len());
            assert(entity_built(m.entity_types@[o], entity_at(of_kind(s, 0)[o]), o as nat, s, schema.namespace@, al));
        } else if k == 1 {
            assert(m.complex_types.len() == m.complex_types@.len());
            assert(complex_built(m.complex_types@[o], complex_at(of_kind(s, 1)[o]), o as nat, s, schema.namespace@, al));
        } else if k == 2 {
            assert(m.enum_types.len() == m.enum_types@.len());
            assert(enum_built(m.enum_types@[o], enum_at(of_kind(s, 2)[o])));
        } else if k == 3 {
            assert(m.type_definitions.len() == m.type_definitions@.len());
            assert(type_definition_built(m.type_definitions@[o], type_definition_at(of_kind(s, 3)[o])));
        } else if k == 4 {
            assert(m.terms.len() == m.terms@.len());
            assert(term_built(m.terms@[o], term_at(of_kind(s, 4)[o]), s, schema.namespace@, al));
        } else if k == 5 {
            assert(m.functions.len() == m.functions@.len());
            assert(function_fully_built(m.functions@[o], function_at(of_kind(s, 5)[o]), s, schema.namespace@, al));
        } else {
            assert(m.actions.len() == m.actions@.len());
            assert(action_fully_built(m.actions@[o], action_at(of_kind(s, 6)[o]), s, schema.namespace@, al));
        }
    }
    lemma_listing_prefix(s, m, s.len() as int);
    assert(s.take(s.len() as int) =~= s);
}

// ---------------------------------------------------------------------------
// Facts the checks leave behind
// ---------------------------------------------------------------------------

/// Every check up to the members of structured types passed.
pub open spec fn checks_passed(
    s: Seq<csdl::SchemaElement>,
    ns: Seq<char>,
    al: Seq<(Seq<char>, Seq<char>)>,
) -> bool {
    &&& phase_error(0, s, ns, al, s.len() as int) is None
    &&& phase_error(1, s, ns, al, s.len() as int) is None
    &&& phase_error(3, s, ns, al, s.len() as int) is None
    &&& phase_error(4, s, ns, al, s.len() as int) is None
}

proof fn lemma_last_is_self(s: Seq<csdl::SchemaElement>, i: int)
    requires
        0 <= i < s.len(),
        spec_kind(s[i]) <= 4,
        forall|j: int| 0 <= j < s.len() && spec_kind(s[j]) <= 4 ==> !duplicate_before(s, j),
    ensures
        last_index(s, spec_kind(s[i]), spec_name(s[i])) == Some(i),
    decreases s.len(),
{
    let k = spec_kind(s[i]);
    let n = spec_name(s[i]);
    if i < s.len() - 1 {
        let l = s.len() - 1;
        if spec_kind(s.last()) == k && spec_name(s.last()) == n {
            assert(spec_kind(s[l]) <= 4);
            assert(duplicate_before(s, l)) by {
                assert(spec_kind(s[i]) == spec_kind(s[l]) && spec_name(s[i]) == spec_name(s[l]));
            }
        }
        let d = s.drop_last();
        assert forall|j: int| 0 <= j < d.len() && spec_kind(d[j]) <= 4 implies !duplicate_before(d, j) by {
            assert(spec_kind(s[j]) <= 4);
            if duplicate_before(d, j) {
                let w = choose|w: int| 0 <= w < j && spec_kind(#[trigger] d[w]) == spec_kind(d[j]) && spec_name(d[w]) == spec_name(d[j]);
                assert(s[w] == d[w]);
                assert(duplicate_before(s, j));
            }
        }
        lemma_last_is_self(d, i);
    }
}

/// After the checks, an element of a registered kind is the one its name
/// looks up.
pub proof fn lemma_unique(
    s: Seq<csdl::SchemaElement>,
    ns: Seq<char>,
    al: Seq<(Seq<char>, Seq<char>)>,
    i: int,
)
    requires
        0 <= i < s.len(),
        spec_kind(s[i]) <= 4,
        phase_error(1, s, ns, al, s.len() as int) is None,
    ensures
        last_index(s, spec_kind(s[i]), spec_name(s[i])) == Some(i),
{
    lemma_phase_passed(1, s, ns, al, s.len() as int);
    assert forall|j: int| 0 <= j < s.len() && spec_kind(s[j]) <= 4 implies !duplicate_before(s, j) by {
        assert(phase_step(1, s, ns, al, j) is None);
    }
    lemma_last_is_self(s, i);
}

/// The effective members of every entity (`k == 0`) or complex (`k == 1`)
/// type, in arena order.
pub fn build_table(
    elems: &Vec<csdl::SchemaElement>,
    ns: &str,
    al: &Vec<(String, String)>,
    k: u8,
) -> (r: Vec<ResolvedMembers>)
    requires
        k == 0 || k == 1,
        phase_error(3, elems@, ns@, aliases_view(al@), elems@.len() as int) is None,
    ensures
        tables_view(r@) == table(elems@, ns@, aliases_view(al@), k),
        tables_ok(tables_view(r@)),
{
    let ghost s = elems@;
    proof {
        lemma_phase_passed(3, s, ns@, aliases_view(al@), s.len() as int);
    }
    let mut out: Vec<ResolvedMembers> = Vec::new();
    let mut i: usize = 0;
    while i < elems.len()
        invariant
            k == 0 || k == 1,
            s == elems@,
            i <= s.len(),
            forall|x: int| 0 <= x < s.len() ==> (#[trigger] phase_step(3, s, ns@, aliases_view(al@), x)) is None,
            tables_view(out@) == of_kind(s.take(i as int), k).map_values(
                |e: csdl::SchemaElement| members_of(s, ns@, aliases_view(al@), k, e),
            ),
            tables_ok(tables_view(out@)),
        decreases elems.len() - i,
    {
        proof {
            assert(s.take(i + 1).drop_last() =~= s.take(i as int));
            assert(s.take(i + 1).last() == s[i as int]);
        }
        if element_kind(&elems[i]) == k {
            let name = element_name(&elems[i]);
            let mut visiting: Vec<String> = Vec::new();
            proof {
                assert(strs(visiting@) =~= Seq::<Seq<char>>::empty());
                assert(phase_step(3, s, ns@, aliases_view(al@), i as int) is None);
                lemma_members_lengths(s, ns@, aliases_view(al@), k, name@, Seq::empty(), s.len());
            }
            match resolve_members(elems, ns, al, k, name.as_str(), &mut visiting, elems.len()) {
                Ok(m) => {
                    let ghost o = tables_view(out@);
                    out.push(m);
                    proof {
                        assert(tables_view(out@) =~= o.push(m.spec_view()));
                        assert(tables_view(out@) =~= of_kind(s.take(i + 1), k).map_values(
                            |e: csdl::SchemaElement| members_of(s, ns@, aliases_view(al@), k, e),
                        ));
                    }
                },
                Err(_) => {
                    assert(false);
                },
            }
        } else {
            proof {
                assert(of_kind(s.take(i + 1), k) == of_kind(s.take(i as int), k));
            }
        }
        i = i + 1;
    }
    proof {
        assert(s.take(s.len() as int) =~= s);
    }
    out
}


// ---------------------------------------------------------------------------
// Building the elements
// ---------------------------------------------------------------------------

fn copy_refs(v: &Vec<MemberRef>) -> (r: Vec<MemberRef>)
    ensures
        r@ == v@,
{
    let mut out: Vec<MemberRef> = Vec::new();
    let mut i: usize = 0;
    while i < v.len()
        invariant
            i <= v@.len(),
            out@ == v@.take(i as int),
        decreases v.len() - i,
    {
        out.push(v[i]);
        proof {
            assert(v@.take(i + 1) =~= v@.take(i as int).push(v@[i as int]));
        }
        i = i + 1;
    }
    proof {
        assert(v@.take(v@.len() as int) =~= v@);
    }
    out
}

fn copy_constraint_list(v: &Vec<ReferentialConstraint>) -> (r: Vec<ReferentialConstraint>)
    ensures
        r@.len() == v@.len(),
        forall|j: int|
            0 <= j < v@.len() ==> (#[trigger] r@[j]).property@ == v@[j].property@
                && r@[j].referenced_property@ == v@[j].referenced_property@,
{
    let mut out: Vec<ReferentialConstraint> = Vec::new();
    let mut i: usize = 0;
    while i < v.len()
        invariant
            i <= v@.len(),
            out@.len() == i,
            forall|j: int|
                0 <= j < i ==> (#[trigger] out@[j]).property@ == v@[j].property@
                    && out@[j].referenced_property@ == v@[j].referenced_property@,
        decreases v.len() - i,
    {
        out.push(
            ReferentialConstraint {
                property: owned(v[i].property.as_str()),
                referenced_property: owned(v[i].referenced_property.as_str()),
            },
        );
        i = i + 1;
    }
    out
}

/// The declared navigation properties with their partners resolved.
fn build_navs(
    src: &Vec<csdl::NavigationProperty>,
    elems: &Vec<csdl::SchemaElement>,
    ns: &str,
    al: &Vec<(String, String)>,
    ent: &Vec<ResolvedMembers>,
    cpx: &Vec<ResolvedMembers>,
) -> (r: Vec<NavigationProperty>)
    requires
        spec_navigation_targets(src@, elems@, ns@, aliases_view(al@)) is Ok,
        tables_ok(tables_view(ent@)),
        tables_ok(tables_view(cpx@)),
    ensures
        navs_built(
            r@,
            src@,
            spec_navigation_targets(src@, elems@, ns@, aliases_view(al@))->Ok_0,
            tables_view(ent@),
            tables_view(cpx@),
        ),
{
    let ghost ts = spec_navigation_targets(src@, elems@, ns@, aliases_view(al@))->Ok_0;
    let v = match resolve_navs(src, elems, ns, al) {
        Ok(v) => v,
        Err(_) => {
            assert(false);
            unreached()
        },
    };
    let mut out: Vec<NavigationProperty> = Vec::new();
    let mut j: usize = 0;
    while j < v.len()
        invariant
            j <= v@.len(),
            crate::resolver::types::navigations_built(v@, src@, ts),
            tables_ok(tables_view(ent@)),
            tables_ok(tables_view(cpx@)),
            out@.len() == j,
            forall|x: int|
                0 <= x < j ==> {
                    &&& (#[trigger] out@[x]).name@ == src@[x].name@
                    &&& out@[x].target == ts[x]
                    &&& out@[x].is_collection == src@[x].is_collection
                    &&& out@[x].contains_target == src@[x].contains_target
                    &&& out@[x].on_delete == match src@[x].on_delete {
                        Some(a) => Some(spec_on_delete(a)),
                        None => None,
                    }
                    &&& constraints_copied(
                        out@[x].referential_constraints@,
                        src@[x].referential_constraints@,
                    )
                    &&& match src@[x].partner {
                        None => out@[x].partner is None,
                        Some(p) => out@[x].partner matches Some(pv) && segment_views(pv@)
                            == partner_path(tables_view(ent@), tables_view(cpx@), ts[x], p@),
                    }
                },
        decreases v.len() - j,
    {
        let n = &v[j];
        let partner = match &src[j].partner {
            None => None,
            Some(p) => Some(resolve_partner(ent, cpx, n.target, p.as_str())),
        };
        out.push(
            NavigationProperty {
                name: owned(n.name.as_str()),
                target: n.target,
                is_collection: n.is_collection,
                partner,
                contains_target: n.contains_target,
                on_delete: n.on_delete,
                referential_constraints: copy_constraint_list(&n.referential_constraints),
            },
        );
        j = j + 1;
    }
    out
}

/// The effective keys of an entity type, each resolved as a path.
fn build_keys(
    name: &str,
    id: usize,
    elems: &Vec<csdl::SchemaElement>,
    ns: &str,
    al: &Vec<(String, String)>,
    ent: &Vec<ResolvedMembers>,
    cpx: &Vec<ResolvedMembers>,
) -> (r: Vec<Vec<KeyPathSegment>>)
    requires
        spec_effective_keys(elems@, ns@, aliases_view(al@), name@, Seq::empty(), elems@.len()) is Ok,
        tables_ok(tables_view(ent@)),
        tables_ok(tables_view(cpx@)),
    ensures
        keys_built(
            r@,
            spec_effective_keys(elems@, ns@, aliases_view(al@), name@, Seq::empty(), elems@.len())->Ok_0,
            id as nat,
            tables_view(ent@),
            tables_view(cpx@),
        ),
{
    let mut visiting: Vec<String> = Vec::new();
    proof {
        assert(strs(visiting@) =~= Seq::<Seq<char>>::empty());
    }
    let keys = match resolve_effective_entity_keys(elems, ns, al, name, &mut visiting, elems.len()) {
        Ok(k) => k,
        Err(_) => {
            assert(false);
            unreached()
        },
    };
    let ghost kv = strs(keys@);
    let mut out: Vec<Vec<KeyPathSegment>> = Vec::new();
    let mut j: usize = 0;
    while j < keys.len()
        invariant
            j <= keys@.len(),
            kv == strs(keys@),
            tables_ok(tables_view(ent@)),
            tables_ok(tables_view(cpx@)),
            out@.len() == j,
            forall|x: int|
                0 <= x < j ==> key_segment_views((#[trigger] out@[x])@) == key_path(
                    tables_view(ent@),
                    tables_view(cpx@),
                    id,
                    kv[x],
                ),
        decreases keys.len() - j,
    {
        out.push(resolve_key_path(ent, cpx, id, keys[j].as_str()));
        j = j + 1;
    }
    out
}

/// Facts the tables of a built schema satisfy.
pub open spec fn tables_fit(
    ent: Seq<ResolvedMembers>,
    cpx: Seq<ResolvedMembers>,
    s: Seq<csdl::SchemaElement>,
    ns: Seq<char>,
    al: Seq<(Seq<char>, Seq<char>)>,
) -> bool {
    &&& tables_view(ent) == table(s, ns, al, 0)
    &&& tables_view(cpx) == table(s, ns, al, 1)
    &&& tables_ok(tables_view(ent))
    &&& tables_ok(tables_view(cpx))
}

fn build_entity(
    d: &csdl::EntityType,
    id: usize,
    elems: &Vec<csdl::SchemaElement>,
    ns: &str,
    al: &Vec<(String, String)>,
    ent: &Vec<ResolvedMembers>,
    cpx: &Vec<ResolvedMembers>,
) -> (x: EntityType)
    requires
        id < ent@.len(),
        tables_fit(ent@, cpx@, elems@, ns@, aliases_view(al@)),
        spec_property_types(d.properties@, elems@, ns@, aliases_view(al@)) is Ok,
        spec_navigation_targets(d.navigation_properties@, elems@, ns@, aliases_view(al@)) is Ok,
        spec_effective_keys(elems@, ns@, aliases_view(al@), d.name@, Seq::empty(), elems@.len()) is Ok,
    ensures
        entity_built(x, *d, id as nat, elems@, ns@, aliases_view(al@)),
{
    let declared_properties = match resolve_properties(&d.properties, elems, ns, al) {
        Ok(p) => p,
        Err(_) => {
            assert(false);
            unreached()
        },
    };
    let declared_navigation_properties = build_navs(&d.navigation_properties, elems, ns, al, ent, cpx);
    let keys = build_keys(d.name.as_str(), id, elems, ns, al, ent, cpx);
    let is_abstract = match d.abstract_ {
        Some(b) => b,
        None => false,
    };
    proof {
        assert(tables_view(ent@)[id as int] == ent@[id as int].spec_view());
    }
    EntityType {
        name: owned(d.name.as_str()),
        is_abstract,
        keys,
        declared_properties,
        declared_navigation_properties,
        properties: copy_refs(&ent[id].props),
        navigation_properties: copy_refs(&ent[id].navs),
    }
}

fn build_complex(
    d: &csdl::ComplexType,
    id: usize,
    elems: &Vec<csdl::SchemaElement>,
    ns: &str,
    al: &Vec<(String, String)>,
    ent: &Vec<ResolvedMembers>,
    cpx: &Vec<ResolvedMembers>,
) -> (x: ComplexType)
    requires
        id < cpx@.len(),
        tables_fit(ent@, cpx@, elems@, ns@, aliases_view(al@)),
        spec_property_types(d.properties@, elems@, ns@, aliases_view(al@)) is Ok,
        spec_navigation_targets(d.navigation_properties@, elems@, ns@, aliases_view(al@)) is Ok,
    ensures
        complex_built(x, *d, id as nat, elems@, ns@, aliases_view(al@)),
{
    let declared_properties = match resolve_properties(&d.properties, elems, ns, al) {
        Ok(p) => p,
        Err(_) => {
            assert(false);
            unreached()
        },
    };
    let declared_navigation_properties = build_navs(&d.navigation_properties, elems, ns, al, ent, cpx);
    let is_abstract = match d.abstract_ {
        Some(b) => b,
        None => false,
    };
    proof {
        assert(tables_view(cpx@)[id as int] == cpx@[id as int].spec_view());
    }
    ComplexType {
        name: owned(d.name.as_str()),
        is_abstract,
        declared_properties,
        declared_navigation_properties,
        properties: copy_refs(&cpx[id].props),
        navigation_properties: copy_refs(&cpx[id].navs),
    }
}

fn build_enum(d: &csdl::EnumType) -> (x: EnumType)
    ensures
        enum_built(x, *d),
{
    let mut members: Vec<EnumMember> = Vec::new();
    let mut j: usize = 0;
    while j < d.members.len()
        invariant
            j <= d.members@.len(),
            members@.len() == j,
            forall|x: int|
                0 <= x < j ==> (#[trigger] members@[x]).name@ == d.members@[x].name@
                    && members@[x].value == d.members@[x].value,
        decreases d.members.len() - j,
    {
        members.push(EnumMember { name: owned(d.members[j].name.as_str()), value: d.members[j].value });
        j = j + 1;
    }
    EnumType { name: owned(d.name.as_str()), members }
}

fn build_type_definition(d: &csdl::TypeDefinition) -> (x: TypeDefinition)
    requires
        spec_primitive(d.underlying_type@) is Some,
    ensures
        type_definition_built(x, *d),
{
    let underlying_type = match resolve_primitive(d.underlying_type.as_str()) {
        Some(p) => p,
        None => {
            assert(false);
            unreached()
        },
    };
    TypeDefinition { name: owned(d.name.as_str()), underlying_type }
}

fn build_term(
    d: &csdl::Term,
    elems: &Vec<csdl::SchemaElement>,
    ns: &str,
    al: &Vec<(String, String)>,
) -> (x: Term)
    requires
        spec_resolve_term_type(term_type_name(*d), elems@, ns@, aliases_view(al@)) is Ok,
        crate::resolver::phases::spec_base_term_error(*d, elems@, ns@, aliases_view(al@)) is None,
    ensures
        term_built(x, *d, elems@, ns@, aliases_view(al@)),
{
    let ty_name: &str = match &d.type_ref {
        Some(t) => t.as_str(),
        None => "Edm.String",
    };
    proof {
        reveal_strlit("Edm.String");
    }
    let ty = match resolve_term_type(ty_name, elems, ns, al) {
        Ok(t) => t,
        Err(_) => {
            assert(false);
            unreached()
        },
    };
    let base_term = match &d.base_term {
        None => None,
        Some(b) => match unqualify_to_local(b.as_str(), ns, al) {
            None => {
                assert(false);
                unreached()
            },
            Some(short) => match find_id(elems, 4, short.as_str()) {
                Some(id) => Some(id),
                None => {
                    assert(false);
                    unreached()
                },
            },
        },
    };
    Term { name: owned(d.name.as_str()), is_collection: d.is_collection, ty: Some(ty), base_term }
}

fn parameter_names_and_types(ps: &Vec<crate::edm::OperationParameter>) -> (r: (Vec<String>, Vec<TermType>))
    ensures
        strs(r.0@) == ps@.map_values(|p: crate::edm::OperationParameter| p.name@),
        r.1@ == ps@.map_values(|p: crate::edm::OperationParameter| p.ty),
        r.0@.len() == r.1@.len(),
{
    let mut names: Vec<String> = Vec::new();
    let mut types: Vec<TermType> = Vec::new();
    let mut i: usize = 0;
    while i < ps.len()
        invariant
            i <= ps@.len(),
            strs(names@) == ps@.take(i as int).map_values(|p: crate::edm::OperationParameter| p.name@),
            types@ == ps@.take(i as int).map_values(|p: crate::edm::OperationParameter| p.ty),
            names@.len() == i,
            types@.len() == i,
        decreases ps.len() - i,
    {
        let ghost n0 = names@;
        let n = owned(ps[i].name.as_str());
        names.push(n);
        types.push(ps[i].ty);
        proof {
            crate::text::lemma_strs_push(n0, n);
            assert(ps@.take(i + 1) =~= ps@.take(i as int).push(ps@[i as int]));
            assert(strs(names@) =~= ps@.take(i + 1).map_values(|p: crate::edm::OperationParameter| p.name@));
            assert(types@ =~= ps@.take(i + 1).map_values(|p: crate::edm::OperationParameter| p.ty));
        }
        i = i + 1;
    }
    proof {
        assert(ps@.take(ps@.len() as int) =~= ps@);
    }
    (names, types)
}

proof fn lemma_parameter_views(
    out: Seq<crate::edm::OperationParameter>,
    src: Seq<csdl::Parameter>,
    tys: Seq<TermType>,
)
    requires
        crate::resolver::operations::parameters_built(out, src, tys),
    ensures
        out.map_values(|p: crate::edm::OperationParameter| p.name@) == src.map_values(
            |q: csdl::Parameter| q.name@,
        ),
        out.map_values(|p: crate::edm::OperationParameter| p.ty) == tys,
{
    assert(out.map_values(|p: crate::edm::OperationParameter| p.name@) =~= src.map_values(
        |q: csdl::Parameter| q.name@,
    ));
    assert(out.map_values(|p: crate::edm::OperationParameter| p.ty) =~= tys);
}

fn build_function(
    d: &csdl::Function,
    elems: &Vec<csdl::SchemaElement>,
    ns: &str,
    al: &Vec<(String, String)>,
    ent: &Vec<ResolvedMembers>,
    cpx: &Vec<ResolvedMembers>,
) -> (x: Function)
    requires
        spec_function_error(*d, elems@, ns@, aliases_view(al@)) is None,
        tables_fit(ent@, cpx@, elems@, ns@, aliases_view(al@)),
    ensures
        function_fully_built(x, *d, elems@, ns@, aliases_view(al@)),
{
    let mut f = match resolve_function(d, elems, ns, al) {
        Ok(f) => f,
        Err(_) => {
            assert(false);
            unreached()
        },
    };
    let ghost tys = spec_parameter_types(d.parameters@, "Function"@, d.name@, elems@, ns@, aliases_view(al@))->Ok_0;
    match &d.entity_set_path {
        None => {},
        Some(p) => {
            let (names, types) = parameter_names_and_types(&f.parameters);
            proof {
                lemma_parameter_views(f.parameters@, d.parameters@, tys);
            }
            f.entity_set_path = Some(resolve_entity_set_path(ent, cpx, &names, &types, p.as_str()));
        },
    }
    f
}

fn build_action(
    d: &csdl::Action,
    elems: &Vec<csdl::SchemaElement>,
    ns: &str,
    al: &Vec<(String, String)>,
    ent: &Vec<ResolvedMembers>,
    cpx: &Vec<ResolvedMembers>,
) -> (x: Action)
    requires
        spec_action_error(*d, elems@, ns@, aliases_view(al@)) is None,
        tables_fit(ent@, cpx@, elems@, ns@, aliases_view(al@)),
    ensures
        action_fully_built(x, *d, elems@, ns@, aliases_view(al@)),
{
    let mut a = match resolve_action(d, elems, ns, al) {
        Ok(a) => a,
        Err(_) => {
            assert(false);
            unreached()
        },
    };
    let ghost tys = spec_parameter_types(d.parameters@, "Action"@, d.name@, elems@, ns@, aliases_view(al@))->Ok_0;
    match &d.entity_set_path {
        None => {},
        Some(p) => {
            let (names, types) = parameter_names_and_types(&a.parameters);
            proof {
                lemma_parameter_views(a.parameters@, d.parameters@, tys);
            }
            a.entity_set_path = Some(resolve_entity_set_path(ent, cpx, &names, &types, p.as_str()));
        },
    }
    a
}


// ---------------------------------------------------------------------------
// The arenas
// ---------------------------------------------------------------------------

pub fn build_entities(
    elems: &Vec<csdl::SchemaElement>,
    ns: &str,
    al: &Vec<(String, String)>,
    ent: &Vec<ResolvedMembers>,
    cpx: &Vec<ResolvedMembers>,
) -> (r: Vec<EntityType>)
    requires
        checks_passed(elems@, ns@, aliases_view(al@)),
        tables_fit(ent@, cpx@, elems@, ns@, aliases_view(al@)),
    ensures
        r@.len() == of_kind(elems@, 0).len(),
        forall|id: int|
            0 <= id < r@.len() ==> entity_built(
                #[trigger] r@[id],
                entity_at(of_kind(elems@, 0)[id]),
                id as nat,
                elems@,
                ns@,
                aliases_view(al@),
            ),
{
    let ghost s = elems@;
    proof {
        lemma_phase_passed(0, s, ns@, aliases_view(al@), s.len() as int);
        lemma_phase_passed(3, s, ns@, aliases_view(al@), s.len() as int);
    }
    let mut out: Vec<EntityType> = Vec::new();
    let mut i: usize = 0;
    while i < elems.len()
        invariant
            s == elems@,
            i <= s.len(),
            checks_passed(s, ns@, aliases_view(al@)),
            tables_fit(ent@, cpx@, s, ns@, aliases_view(al@)),
            forall|x: int| 0 <= x < s.len() ==> (#[trigger] phase_step(0, s, ns@, aliases_view(al@), x)) is None,
            forall|x: int| 0 <= x < s.len() ==> (#[trigger] phase_step(3, s, ns@, aliases_view(al@), x)) is None,
            out@.len() == of_kind(s.take(i as int), 0).len(),
            forall|id: int|
                0 <= id < out@.len() ==> entity_built(
                    #[trigger] out@[id],
                    entity_at(of_kind(s.take(i as int), 0)[id]),
                    id as nat,
                    s,
                    ns@,
                    aliases_view(al@),
                ),
        decreases elems.len() - i,
    {
        proof {
            assert(s.take(i + 1).drop_last() =~= s.take(i as int));
            assert(s.take(i + 1).last() == s[i as int]);
            crate::resolver::lookup::lemma_of_kind_prefix(s, 0, i + 1);
        }
        match &elems[i] {
            csdl::SchemaElement::EntityType(d) => {
                proof {
                    assert(phase_step(0, s, ns@, aliases_view(al@), i as int) is None);
                    assert(phase_step(3, s, ns@, aliases_view(al@), i as int) is None);
                    lemma_unique(s, ns@, aliases_view(al@), i as int);
                    assert(of_kind(s, 0).len() == ent@.len()) by {
                        assert(tables_view(ent@).len() == table(s, ns@, aliases_view(al@), 0).len());
                    }
                }
                let id = out.len();
                let x = build_entity(d, id, elems, ns, al, ent, cpx);
                out.push(x);
            },
            _ => {},
        }
        i = i + 1;
    }
    proof {
        assert(s.take(s.len() as int) =~= s);
    }
    out
}

pub fn build_complexes(
    elems: &Vec<csdl::SchemaElement>,
    ns: &str,
    al: &Vec<(String, String)>,
    ent: &Vec<ResolvedMembers>,
    cpx: &Vec<ResolvedMembers>,
) -> (r: Vec<ComplexType>)
    requires
        checks_passed(elems@, ns@, aliases_view(al@)),
        tables_fit(ent@, cpx@, elems@, ns@, aliases_view(al@)),
    ensures
        r@.len() == of_kind(elems@, 1).len(),
        forall|id: int|
            0 <= id < r@.len() ==> complex_built(
                #[trigger] r@[id],
                complex_at(of_kind(elems@, 1)[id]),
                id as nat,
                elems@,
                ns@,
                aliases_view(al@),
            ),
{
    let ghost s = elems@;
    proof {
        lemma_phase_passed(3, s, ns@, aliases_view(al@), s.len() as int);
    }
    let mut out: Vec<ComplexType> = Vec::new();
    let mut i: usize = 0;
    while i < elems.len()
        invariant
            s == elems@,
            i <= s.len(),
            checks_passed(s, ns@, aliases_view(al@)),
            tables_fit(ent@, cpx@, s, ns@, aliases_view(al@)),
            forall|x: int| 0 <= x < s.len() ==> (#[trigger] phase_step(3, s, ns@, aliases_view(al@), x)) is None,
            out@.len() == of_kind(s.take(i as int), 1).len(),
            forall|id: int|
                0 <= id < out@.len() ==> complex_built(
                    #[trigger] out@[id],
                    complex_at(of_kind(s.take(i as int), 1)[id]),
                    id as nat,
                    s,
                    ns@,
                    aliases_view(al@),
                ),
        decreases elems.len() - i,
    {
        proof {
            assert(s.take(i + 1).drop_last() =~= s.take(i as int));
            assert(s.take(i + 1).last() == s[i as int]);
            crate::resolver::lookup::lemma_of_kind_prefix(s, 1, i + 1);
        }
        match &elems[i] {
            csdl::SchemaElement::ComplexType(d) => {
                proof {
                    assert(phase_step(3, s, ns@, aliases_view(al@), i as int) is None);
                    lemma_unique(s, ns@, aliases_view(al@), i as int);
                    assert(of_kind(s, 1).len() == cpx@.len()) by {
                        assert(tables_view(cpx@).len() == table(s, ns@, aliases_view(al@), 1).len());
                    }
                }
                let id = out.len();
                let x = build_complex(d, id, elems, ns, al, ent, cpx);
                out.push(x);
            },
            _ => {},
        }
        i = i + 1;
    }
    proof {
        assert(s.take(s.len() as int) =~= s);
    }
    out
}

pub fn build_enums(elems: &Vec<csdl::SchemaElement>) -> (r: Vec<EnumType>)
    ensures
        r@.len() == of_kind(elems@, 2).len(),
        forall|id: int| 0 <= id < r@.len() ==> enum_built(#[trigger] r@[id], enum_at(of_kind(elems@, 2)[id])),
{
    let ghost s = elems@;
    let mut out: Vec<EnumType> = Vec::new();
    let mut i: usize = 0;
    while i < elems.len()
        invariant
            s == elems@,
            i <= s.len(),
            out@.len() == of_kind(s.take(i as int), 2).len(),
            forall|id: int|
                0 <= id < out@.len() ==> enum_built(#[trigger] out@[id], enum_at(of_kind(s.take(i as int), 2)[id])),
        decreases elems.len() - i,
    {
        proof {
            assert(s.take(i + 1).drop_last() =~= s.take(i as int));
            assert(s.take(i + 1).last() == s[i as int]);
        }
        match &elems[i] {
            csdl::SchemaElement::EnumType(d) => {
                out.push(build_enum(d));
            },
            _ => {},
        }
        i = i + 1;
    }
    proof {
        assert(s.take(s.len() as int) =~= s);
    }
    out
}

pub fn build_type_definitions(
    elems: &Vec<csdl::SchemaElement>,
    ns: &str,
    al: &Vec<(String, String)>,
) -> (r: Vec<TypeDefinition>)
    requires
        phase_error(1, elems@, ns@, aliases_view(al@), elems@.len() as int) is None,
    ensures
        r@.len() == of_kind(elems@, 3).len(),
        forall|id: int|
            0 <= id < r@.len() ==> type_definition_built(
                #[trigger] r@[id],
                type_definition_at(of_kind(elems@, 3)[id]),
            ),
{
    let ghost s = elems@;
    proof {
        lemma_phase_passed(1, s, ns@, aliases_view(al@), s.len() as int);
    }
    let mut out: Vec<TypeDefinition> = Vec::new();
    let mut i: usize = 0;
    while i < elems.len()
        invariant
            s == elems@,
            i <= s.len(),
            forall|x: int| 0 <= x < s.len() ==> (#[trigger] phase_step(1, s, ns@, aliases_view(al@), x)) is None,
            out@.len() == of_kind(s.take(i as int), 3).len(),
            forall|id: int|
                0 <= id < out@.len() ==> type_definition_built(
                    #[trigger] out@[id],
                    type_definition_at(of_kind(s.take(i as int), 3)[id]),
                ),
        decreases elems.len() - i,
    {
        proof {
            assert(s.take(i + 1).drop_last() =~= s.take(i as int));
            assert(s.take(i + 1).last() == s[i as int]);
        }
        match &elems[i] {
            csdl::SchemaElement::TypeDefinition(d) => {
                proof {
                    assert(phase_step(1, s, ns@, aliases_view(al@), i as int) is None);
                }
                out.push(build_type_definition(d));
            },
            _ => {},
        }
        i = i + 1;
    }
    proof {
        assert(s.take(s.len() as int) =~= s);
    }
    out
}

pub fn build_terms(
    elems: &Vec<csdl::SchemaElement>,
    ns: &str,
    al: &Vec<(String, String)>,
) -> (r: Vec<Term>)
    requires
        phase_error(3, elems@, ns@, aliases_view(al@), elems@.len() as int) is None,
    ensures
        r@.len() == of_kind(elems@, 4).len(),
        forall|id: int|
            0 <= id < r@.len() ==> term_built(#[trigger] r@[id], term_at(of_kind(elems@, 4)[id]), elems@, ns@, aliases_view(al@)),
{
    let ghost s = elems@;
    proof {
        lemma_phase_passed(3, s, ns@, aliases_view(al@), s.len() as int);
    }
    let mut out: Vec<Term> = Vec::new();
    let mut i: usize = 0;
    while i < elems.len()
        invariant
            s == elems@,
            i <= s.len(),
            forall|x: int| 0 <= x < s.len() ==> (#[trigger] phase_step(3, s, ns@, aliases_view(al@), x)) is None,
            out@.len() == of_kind(s.take(i as int), 4).len(),
            forall|id: int|
                0 <= id < out@.len() ==> term_built(
                    #[trigger] out@[id],
                    term_at(of_kind(s.take(i as int), 4)[id]),
                    s,
                    ns@,
                    aliases_view(al@),
                ),
        decreases elems.len() - i,
    {
        proof {
            assert(s.take(i + 1).drop_last() =~= s.take(i as int));
            assert(s.take(i + 1).last() == s[i as int]);
        }
        match &elems[i] {
            csdl::SchemaElement::Term(d) => {
                proof {
                    assert(phase_step(3, s, ns@, aliases_view(al@), i as int) is None);
                }
                out.push(build_term(d, elems, ns, al));
            },
            _ => {},
        }
        i = i + 1;
    }
    proof {
        assert(s.take(s.len() as int) =~= s);
    }
    out
}

pub fn build_functions(
    elems: &Vec<csdl::SchemaElement>,
    ns: &str,
    al: &Vec<(String, String)>,
    ent: &Vec<ResolvedMembers>,
    cpx: &Vec<ResolvedMembers>,
) -> (r: Vec<Function>)
    requires
        phase_error(4, elems@, ns@, aliases_view(al@), elems@.len() as int) is None,
        tables_fit(ent@, cpx@, elems@, ns@, aliases_view(al@)),
    ensures
        r@.len() == of_kind(elems@, 5).len(),
        forall|id: int|
            0 <= id < r@.len() ==> function_fully_built(
                #[trigger] r@[id],
                function_at(of_kind(elems@, 5)[id]),
                elems@,
                ns@,
                aliases_view(al@),
            ),
{
    let ghost s = elems@;
    proof {
        lemma_phase_passed(4, s, ns@, aliases_view(al@), s.len() as int);
    }
    let mut out: Vec<Function> = Vec::new();
    let mut i: usize = 0;
    while i < elems.len()
        invariant
            s == elems@,
            i <= s.len(),
            tables_fit(ent@, cpx@, s, ns@, aliases_view(al@)),
            forall|x: int| 0 <= x < s.len() ==> (#[trigger] phase_step(4, s, ns@, aliases_view(al@), x)) is None,
            out@.len() == of_kind(s.take(i as int), 5).len(),
            forall|id: int|
                0 <= id < out@.len() ==> function_fully_built(
                    #[trigger] out@[id],
                    function_at(of_kind(s.take(i as int), 5)[id]),
                    s,
                    ns@,
                    aliases_view(al@),
                ),
        decreases elems.len() - i,
    {
        proof {
            assert(s.take(i + 1).drop_last() =~= s.take(i as int));
            assert(s.take(i + 1).last() == s[i as int]);
        }
        match &elems[i] {
            csdl::SchemaElement::Function(d) => {
                proof {
                    assert(phase_step(4, s, ns@, aliases_view(al@), i as int) is None);
                }
                out.push(build_function(d, elems, ns, al, ent, cpx));
            },
            _ => {},
        }
        i = i + 1;
    }
    proof {
        assert(s.take(s.len() as int) =~= s);
    }
    out
}

pub fn build_actions(
    elems: &Vec<csdl::SchemaElement>,
    ns: &str,
    al: &Vec<(String, String)>,
    ent: &Vec<ResolvedMembers>,
    cpx: &Vec<ResolvedMembers>,
) -> (r: Vec<Action>)
    requires
        phase_error(4, elems@, ns@, aliases_view(al@), elems@.len() as int) is None,
        tables_fit(ent@, cpx@, elems@, ns@, aliases_view(al@)),
    ensures
        r@.len() == of_kind(elems@, 6).len(),
        forall|id: int|
            0 <= id < r@.len() ==> action_fully_built(
                #[trigger] r@[id],
                action_at(of_kind(elems@, 6)[id]),
                elems@,
                ns@,
                aliases_view(al@),
            ),
{
    let ghost s = elems@;
    proof {
        lemma_phase_passed(4, s, ns@, aliases_view(al@), s.len() as int);
    }
    let mut out: Vec<Action> = Vec::new();
    let mut i: usize = 0;
    while i < elems.len()
        invariant
            s == elems@,
            i <= s.len(),
            tables_fit(ent@, cpx@, s, ns@, aliases_view(al@)),
            forall|x: int| 0 <= x < s.len() ==> (#[trigger] phase_step(4, s, ns@, aliases_view(al@), x)) is None,
            out@.len() == of_kind(s.take(i as int), 6).len(),
            forall|id: int|
                0 <= id < out@.len() ==> action_fully_built(
                    #[trigger] out@[id],
                    action_at(of_kind(s.take(i as int), 6)[id]),
                    s,
                    ns@,
                    aliases_view(al@),
                ),
        decreases elems.len() - i,
    {
        proof {
            assert(s.take(i + 1).drop_last() =~= s.take(i as int));
            assert(s.take(i + 1).last() == s[i as int]);
        }
        match &elems[i] {
            csdl::SchemaElement::Action(d) => {
                proof {
                    assert(phase_step(4, s, ns@, aliases_view(al@), i as int) is None);
                }
                out.push(build_action(d, elems, ns, al, ent, cpx));
            },
            _ => {},
        }
        i = i + 1;
    }
    proof {
        assert(s.take(s.len() as int) =~= s);
    }
    out
}

/// The schema's elements as arena references, in document order.
pub fn build_element_refs(elems: &Vec<csdl::SchemaElement>) -> (r: Vec<SchemaElement>)
    ensures
        r@ == element_refs(elems@),
{
    let ghost s = elems@;
    let mut out: Vec<SchemaElement> = Vec::new();
    let mut counts: [usize; 7] = [0, 0, 0, 0, 0, 0, 0];
    let mut i: usize = 0;
    while i < elems.len()
        invariant
            s == elems@,
            i <= s.len(),
            out@ == element_refs(s.take(i as int)),
            forall|k: int| 0 <= k < 7 ==> #[trigger] counts@[k] == of_kind(s.take(i as int), k as u8).len(),
            forall|k: int| 0 <= k < 7 ==> #[trigger] counts@[k] <= i,
        decreases elems.len() - i,
    {
        proof {
            assert(s.take(i + 1).drop_last() =~= s.take(i as int));
            assert(s.take(i + 1).last() == s[i as int]);
        }
        let k = element_kind(&elems[i]);
        if k < 7 {
            let id = counts[k as usize];
            let r = if k == 0 {
                SchemaElement::EntityType(id)
            } else if k == 1 {
                SchemaElement::ComplexType(id)
            } else if k == 2 {
                SchemaElement::EnumType(id)
            } else if k == 3 {
                SchemaElement::TypeDefinition(id)
            } else if k == 4 {
                SchemaElement::Term(id)
            } else if k == 5 {
                SchemaElement::Function(id)
            } else {
                SchemaElement::Action(id)
            };
            out.push(r);
            counts.set(k as usize, id + 1);
        }
        proof {
            assert forall|kk: int| 0 <= kk < 7 implies #[trigger] counts@[kk] == of_kind(s.take(i + 1), kk as u8).len() by {
            }
        }
        i = i + 1;
    }
    proof {
        assert(s.take(s.len() as int) =~= s);
    }
    out
}


// ---------------------------------------------------------------------------
// The entity container
// ---------------------------------------------------------------------------

fn build_bindings(
    e: &Entry,
    es: &Vec<Entry>,
    ent: &Vec<ResolvedMembers>,
    cpx: &Vec<ResolvedMembers>,
) -> (r: Vec<NavigationPropertyBinding>)
    requires
        tables_ok(tables_view(ent@)),
        tables_ok(tables_view(cpx@)),
        e.spec_view().targets.len() == e.spec_view().paths.len(),
    ensures
        bindings_built(r@, e.spec_view(), entries_view(es@), tables_view(ent@), tables_view(cpx@)),
{
    let ghost ev = e.spec_view();
    let mut out: Vec<NavigationPropertyBinding> = Vec::new();
    let mut j: usize = 0;
    while j < e.paths.len()
        invariant
            j <= e.paths@.len(),
            ev == e.spec_view(),
            ev.targets.len() == ev.paths.len(),
            tables_ok(tables_view(ent@)),
            tables_ok(tables_view(cpx@)),
            out@.len() == j,
            forall|x: int|
                0 <= x < j ==> {
                    &&& segment_views((#[trigger] out@[x]).path@) == binding_path(
                        tables_view(ent@),
                        tables_view(cpx@),
                        ev.target,
                        ev.paths[x],
                    )
                    &&& segment_views(out@[x].target@) == container_path(
                        tables_view(ent@),
                        tables_view(cpx@),
                        entries_view(es@),
                        ev.targets[x],
                    )
                },
        decreases e.paths.len() - j,
    {
        proof {
            assert(ev.paths[j as int] == e.paths@[j as int]@);
            assert(ev.targets[j as int] == e.targets@[j as int]@);
        }
        let path = resolve_binding_path(ent, cpx, e.target, e.paths[j].as_str());
        let target = resolve_container_path(ent, cpx, es, e.targets[j].as_str());
        out.push(NavigationPropertyBinding { path, target });
        j = j + 1;
    }
    out
}

fn build_import_set(
    raw: &Option<String>,
    es: &Vec<Entry>,
    ent: &Vec<ResolvedMembers>,
    cpx: &Vec<ResolvedMembers>,
) -> (r: Option<Vec<crate::edm::BindingPathSegment>>)
    requires
        tables_ok(tables_view(ent@)),
        tables_ok(tables_view(cpx@)),
    ensures
        import_set_built(r, opt_str(*raw), entries_view(es@), tables_view(ent@), tables_view(cpx@)),
{
    match raw {
        None => None,
        Some(p) => Some(resolve_container_path(ent, cpx, es, p.as_str())),
    }
}

/// The container's elements with their bindings and entity sets resolved.
pub fn build_container_elements(
    es: &Vec<Entry>,
    ent: &Vec<ResolvedMembers>,
    cpx: &Vec<ResolvedMembers>,
) -> (r: Vec<EntityContainerElement>)
    requires
        tables_ok(tables_view(ent@)),
        tables_ok(tables_view(cpx@)),
        crate::resolver::container::entries_wf(entries_view(es@)),
    ensures
        container_elements_built(r@, entries_view(es@), tables_view(ent@), tables_view(cpx@)),
{
    let ghost ev = entries_view(es@);
    let mut out: Vec<EntityContainerElement> = Vec::new();
    let mut j: usize = 0;
    while j < es.len()
        invariant
            j <= es@.len(),
            ev == entries_view(es@),
            crate::resolver::container::entries_wf(ev),
            tables_ok(tables_view(ent@)),
            tables_ok(tables_view(cpx@)),
            out@.len() == j,
            forall|x: int|
                0 <= x < j ==> container_element_built(
                    #[trigger] out@[x],
                    ev[x],
                    ev,
                    tables_view(ent@),
                    tables_view(cpx@),
                ),
        decreases es.len() - j,
    {
        let e = &es[j];
        proof {
            assert(ev[j as int] == e.spec_view());
        }
        let x = if e.kind == 0 {
            EntityContainerElement::EntitySet(
                EntitySet {
                    name: owned(e.name.as_str()),
                    target: e.target,
                    navigation_property_bindings: build_bindings(e, es, ent, cpx),
                },
            )
        } else if e.kind == 1 {
            EntityContainerElement::Singleton(
                Singleton {
                    name: owned(e.name.as_str()),
                    target: e.target,
                    navigation_property_bindings: build_bindings(e, es, ent, cpx),
                },
            )
        } else if e.kind == 2 {
            EntityContainerElement::FunctionImport(
                FunctionImport {
                    name: owned(e.name.as_str()),
                    function: owned(e.operation.as_str()),
                    entity_set: build_import_set(&e.entity_set, es, ent, cpx),
                },
            )
        } else {
            EntityContainerElement::ActionImport(
                ActionImport {
                    name: owned(e.name.as_str()),
                    action: owned(e.operation.as_str()),
                    entity_set: build_import_set(&e.entity_set, es, ent, cpx),
                },
            )
        };
        out.push(x);
        j = j + 1;
    }
    out
}

fn find_first_container(elems: &Vec<csdl::SchemaElement>) -> (r: Option<usize>)
    ensures
        match r {
            Some(j) => first_of_kind(elems@, 7) == Some(j as int) && j < elems@.len() && spec_kind(
                elems@[j as int],
            ) == 7,
            None => first_of_kind(elems@, 7) is None,
        },
{
    let ghost s = elems@;
    let mut i: usize = 0;
    while i < elems.len()
        invariant
            s == elems@,
            i <= s.len(),
            first_of_kind(s.take(i as int), 7) is None,
        decreases elems.len() - i,
    {
        proof {
            assert(s.take(i + 1).drop_last() =~= s.take(i as int));
            assert(s.take(i + 1).last() == s[i as int]);
        }
        if element_kind(&elems[i]) == 7 {
            proof {
                lemma_first_of_kind_prefix(s, 7, i + 1);
            }
            return Some(i);
        }
        i = i + 1;
    }
    proof {
        assert(s.take(s.len() as int) =~= s);
    }
    None
}

proof fn lemma_first_of_kind_prefix(s: Seq<csdl::SchemaElement>, k: u8, i: int)
    requires
        0 <= i <= s.len(),
        first_of_kind(s.take(i), k) is Some,
    ensures
        first_of_kind(s, k) == first_of_kind(s.take(i), k),
    decreases s.len() - i,
{
    if i < s.len() {
        assert(s.take(i + 1).drop_last() =~= s.take(i));
        lemma_first_of_kind_prefix(s, k, i + 1);
    } else {
        assert(s.take(i) =~= s);
    }
}

fn container_element(e: &csdl::SchemaElement) -> (r: &csdl::EntityContainer)
    requires
        spec_kind(*e) == 7,
    ensures
        *r == container_at(*e),
{
    match e {
        csdl::SchemaElement::EntityContainer(c) => c,
        _ => {
            assert(false);
            unreached()
        },
    }
}

// ---------------------------------------------------------------------------
// A schema
// ---------------------------------------------------------------------------

/// Resolves a schema under the given aliases (an alias maps to the namespace
/// of its last entry).
pub fn resolve_schema(schema: &csdl::Schema, al: &Vec<(String, String)>) -> (r: Result<
    Model,
    ResolveError,
>)
    ensures
        match spec_schema_error(schema.elements@, schema.namespace@, aliases_view(al@)) {
            Some(e) => r is Err && r->Err_0@ == e,
            None => r is Ok && model_built(*schema, aliases_view(al@), r->Ok_0),
        },
{
    let elems = &schema.elements;
    let ns = schema.namespace.as_str();
    match run_phase(0, elems, ns, al) {
        Err(e) => return Err(e),
        Ok(()) => {},
    }
    match run_phase(1, elems, ns, al) {
        Err(e) => return Err(e),
        Ok(()) => {},
    }
    match run_phase(2, elems, ns, al) {
        Err(e) => return Err(e),
        Ok(()) => {},
    }
    match run_phase(3, elems, ns, al) {
        Err(e) => return Err(e),
        Ok(()) => {},
    }
    match run_phase(4, elems, ns, al) {
        Err(e) => return Err(e),
        Ok(()) => {},
    }
    let entries = match find_first_container(elems) {
        None => None,
        Some(j) => {
            let c = container_element(&elems[j]);
            let mut visiting: Vec<String> = Vec::new();
            proof {
                assert(strs(visiting@) =~= Seq::<Seq<char>>::empty());
            }
            match resolve_entity_container(c, elems, ns, al, &mut visiting, elems.len()) {
                Err(e) => return Err(e),
                Ok(v) => {
                    proof {
                        crate::resolver::container::lemma_container_wf(
                            elems@,
                            ns@,
                            aliases_view(al@),
                            *c,
                            Seq::empty(),
                            elems@.len(),
                        );
                    }
                    Some((owned(c.name.as_str()), v))
                },
            }
        },
    };
    let ent = build_table(elems, ns, al, 0);
    let cpx = build_table(elems, ns, al, 1);
    let entity_container = match entries {
        None => None,
        Some((name, v)) => Some(
            EntityContainer { name, elements: build_container_elements(&v, &ent, &cpx) },
        ),
    };
    let alias = match &schema.alias {
        Some(a) => Some(owned(a.as_str())),
        None => None,
    };
    Ok(
        Model {
            namespace: owned(ns),
            alias,
            elements: build_element_refs(elems),
            entity_container,
            entity_types: build_entities(elems, ns, al, &ent, &cpx),
            complex_types: build_complexes(elems, ns, al, &ent, &cpx),
            enum_types: build_enums(elems),
            type_definitions: build_type_definitions(elems, ns, al),
            terms: build_terms(elems, ns, al),
            functions: build_functions(elems, ns, al, &ent, &cpx),
            actions: build_actions(elems, ns, al, &ent, &cpx),
        },
    )
}

} // verus!
