//! Resolution of type references and of the members a structured type
//! declares.

use vstd::prelude::*;

use crate::csdl;
use crate::edm::{
    NavigationProperty, OnDeleteAction, Property, ReferentialConstraint, ResolvedType, TermType,
};
use crate::resolver::lookup::{aliases_view, 
    arena_id, find_id, kind_complex, kind_entity, kind_enum, kind_type_definition, resolve_primitive,
    spec_primitive, spec_unqualify, unqualify_to_local,
};
use crate::resolver::{ResolveError, ResolveErrorView};
use crate::text::owned;

verus! {

/// A result with its error seen as character sequences.
pub open spec fn rv<T>(r: Result<T, ResolveError>) -> Result<T, ResolveErrorView> {
    match r {
        Ok(t) => Ok(t),
        Err(e) => Err(e@),
    }
}

pub fn clone_error(e: &ResolveError) -> (r: ResolveError)
    ensures
        r@ == e@,
{
    match e {
        ResolveError::UnknownType(s) => ResolveError::UnknownType(owned(s.as_str())),
        ResolveError::UnknownEntity(s) => ResolveError::UnknownEntity(owned(s.as_str())),
        ResolveError::DuplicateName(s) => ResolveError::DuplicateName(owned(s.as_str())),
        ResolveError::NoSchemaInDocument => ResolveError::NoSchemaInDocument,
        ResolveError::MissingTypeName { element_kind, element_name } => ResolveError::MissingTypeName {
            element_kind,
            element_name: owned(element_name.as_str()),
        },
        ResolveError::UnknownPropertyPath { entity, key_path } => ResolveError::UnknownPropertyPath {
            entity: owned(entity.as_str()),
            key_path: owned(key_path.as_str()),
        },
        ResolveError::UnsupportedCsdlFeature { feature, location } => ResolveError::UnsupportedCsdlFeature {
            feature,
            location: owned(location.as_str()),
        },
    }
}

/// Type of a structural property: a primitive, or a complex, enum or type
/// definition of this schema, looked up in that order.
pub open spec fn spec_resolve_type(
    t: Seq<char>,
    s: Seq<csdl::SchemaElement>,
    ns: Seq<char>,
    al: Seq<(Seq<char>, Seq<char>)>,
) -> Result<ResolvedType, ResolveErrorView> {
    match spec_primitive(t) {
        Some(p) => Ok(ResolvedType::Primitive(p)),
        None => match spec_unqualify(t, ns, al) {
            None => Err(ResolveErrorView::UnknownType(t)),
            Some(short) => match arena_id(s, kind_complex(), short) {
                Some(id) => Ok(ResolvedType::Complex(id as usize)),
                None => match arena_id(s, kind_enum(), short) {
                    Some(id) => Ok(ResolvedType::Enum(id as usize)),
                    None => match arena_id(s, kind_type_definition(), short) {
                        Some(id) => Ok(ResolvedType::TypeDefinition(id as usize)),
                        None => Err(ResolveErrorView::UnknownType(t)),
                    },
                },
            },
        },
    }
}

pub fn resolve_type(
    t: &str,
    elems: &Vec<csdl::SchemaElement>,
    ns: &str,
    al: &Vec<(String, String)>,
) -> (r: Result<ResolvedType, ResolveError>)
    ensures
        rv(r) == spec_resolve_type(t@, elems@, ns@, aliases_view(al@)),
{
    if let Some(p) = resolve_primitive(t) {
        return Ok(ResolvedType::Primitive(p));
    }
    let short = match unqualify_to_local(t, ns, al) {
        Some(x) => x,
        None => return Err(ResolveError::UnknownType(owned(t))),
    };
    if let Some(id) = find_id(elems, 1, short.as_str()) {
        return Ok(ResolvedType::Complex(id));
    }
    if let Some(id) = find_id(elems, 2, short.as_str()) {
        return Ok(ResolvedType::Enum(id));
    }
    if let Some(id) = find_id(elems, 3, short.as_str()) {
        return Ok(ResolvedType::TypeDefinition(id));
    }
    Err(ResolveError::UnknownType(owned(t)))
}

/// Type of a term, parameter or return type: a primitive, or a type
/// definition, enum, complex or entity type of this schema, looked up in that
/// order.
pub open spec fn spec_resolve_term_type(
    t: Seq<char>,
    s: Seq<csdl::SchemaElement>,
    ns: Seq<char>,
    al: Seq<(Seq<char>, Seq<char>)>,
) -> Result<TermType, ResolveErrorView> {
    match spec_primitive(t) {
        Some(p) => Ok(TermType::Primitive(p)),
        None => match spec_unqualify(t, ns, al) {
            None => Err(ResolveErrorView::UnknownType(t)),
            Some(short) => match arena_id(s, kind_type_definition(), short) {
                Some(id) => Ok(TermType::TypeDefinition(id as usize)),
                None => match arena_id(s, kind_enum(), short) {
                    Some(id) => Ok(TermType::Enum(id as usize)),
                    None => match arena_id(s, kind_complex(), short) {
                        Some(id) => Ok(TermType::Complex(id as usize)),
                        None => match arena_id(s, kind_entity(), short) {
                            Some(id) => Ok(TermType::Entity(id as usize)),
                            None => Err(ResolveErrorView::UnknownType(t)),
                        },
                    },
                },
            },
        },
    }
}

pub fn resolve_term_type(
    t: &str,
    elems: &Vec<csdl::SchemaElement>,
    ns: &str,
    al: &Vec<(String, String)>,
) -> (r: Result<TermType, ResolveError>)
    ensures
        rv(r) == spec_resolve_term_type(t@, elems@, ns@, aliases_view(al@)),
{
    if let Some(p) = resolve_primitive(t) {
        return Ok(TermType::Primitive(p));
    }
    let short = match unqualify_to_local(t, ns, al) {
        Some(x) => x,
        None => return Err(ResolveError::UnknownType(owned(t))),
    };
    if let Some(id) = find_id(elems, 3, short.as_str()) {
        return Ok(TermType::TypeDefinition(id));
    }
    if let Some(id) = find_id(elems, 2, short.as_str()) {
        return Ok(TermType::Enum(id));
    }
    if let Some(id) = find_id(elems, 1, short.as_str()) {
        return Ok(TermType::Complex(id));
    }
    if let Some(id) = find_id(elems, 0, short.as_str()) {
        return Ok(TermType::Entity(id));
    }
    Err(ResolveError::UnknownType(owned(t)))
}

/// Type of one declared structural property.
pub open spec fn spec_property_type(
    p: csdl::Property,
    s: Seq<csdl::SchemaElement>,
    ns: Seq<char>,
    al: Seq<(Seq<char>, Seq<char>)>,
) -> Result<ResolvedType, ResolveErrorView> {
    match p.type_ref {
        None => Err(
            ResolveErrorView::MissingTypeName { element_kind: "Property"@, element_name: p.name@ },
        ),
        Some(t) => spec_resolve_type(t@, s, ns, al),
    }
}

/// Types of the declared structural properties, or the first error.
pub open spec fn spec_property_types(
    props: Seq<csdl::Property>,
    s: Seq<csdl::SchemaElement>,
    ns: Seq<char>,
    al: Seq<(Seq<char>, Seq<char>)>,
) -> Result<Seq<ResolvedType>, ResolveErrorView>
    decreases props.len(),
{
    if props.len() == 0 {
        Ok(Seq::<ResolvedType>::empty())
    } else {
        match spec_property_types(props.drop_last(), s, ns, al) {
            Err(e) => Err(e),
            Ok(ts) => match spec_property_type(props.last(), s, ns, al) {
                Err(e) => Err(e),
                Ok(t) => Ok(ts.push(t)),
            },
        }
    }
}

proof fn lemma_property_types_err(
    props: Seq<csdl::Property>,
    i: int,
    s: Seq<csdl::SchemaElement>,
    ns: Seq<char>,
    al: Seq<(Seq<char>, Seq<char>)>,
)
    requires
        0 <= i <= props.len(),
        spec_property_types(props.take(i), s, ns, al) is Err,
    ensures
        spec_property_types(props, s, ns, al) == spec_property_types(props.take(i), s, ns, al),
    decreases props.len() - i,
{
    if i < props.len() {
        assert(props.take(i + 1).drop_last() =~= props.take(i));
        lemma_property_types_err(props, i + 1, s, ns, al);
    } else {
        assert(props.take(i) =~= props);
    }
}

proof fn lemma_navigation_targets_err(
    navs: Seq<csdl::NavigationProperty>,
    i: int,
    s: Seq<csdl::SchemaElement>,
    ns: Seq<char>,
    al: Seq<(Seq<char>, Seq<char>)>,
)
    requires
        0 <= i <= navs.len(),
        spec_navigation_targets(navs.take(i), s, ns, al) is Err,
    ensures
        spec_navigation_targets(navs, s, ns, al) == spec_navigation_targets(navs.take(i), s, ns, al),
    decreases navs.len() - i,
{
    if i < navs.len() {
        assert(navs.take(i + 1).drop_last() =~= navs.take(i));
        lemma_navigation_targets_err(navs, i + 1, s, ns, al);
    } else {
        assert(navs.take(i) =~= navs);
    }
}

/// `out` holds the declared properties `src` with the types `tys`.
pub open spec fn properties_built(
    out: Seq<Property>,
    src: Seq<csdl::Property>,
    tys: Seq<ResolvedType>,
) -> bool {
    &&& out.len() == src.len()
    &&& tys.len() == src.len()
    &&& forall|j: int|
        0 <= j < out.len() ==> {
            &&& (#[trigger] out[j]).name@ == src[j].name@
            &&& out[j].ty == tys[j]
            &&& out[j].is_collection == src[j].is_collection
        }
}

pub fn resolve_properties(
    props: &Vec<csdl::Property>,
    elems: &Vec<csdl::SchemaElement>,
    ns: &str,
    al: &Vec<(String, String)>,
) -> (r: Result<Vec<Property>, ResolveError>)
    ensures
        match spec_property_types(props@, elems@, ns@, aliases_view(al@)) {
            Ok(tys) => r is Ok && properties_built(r->Ok_0@, props@, tys),
            Err(e) => r is Err && r->Err_0@ == e,
        },
{
    let mut out: Vec<Property> = Vec::new();
    let ghost mut tys: Seq<ResolvedType> = Seq::empty();
    let mut i: usize = 0;
    while i < props.len()
        invariant
            i <= props@.len(),
            spec_property_types(props@.take(i as int), elems@, ns@, aliases_view(al@)) == Ok::<
                Seq<ResolvedType>,
                ResolveErrorView,
            >(tys),
            properties_built(out@, props@.take(i as int), tys),
        decreases props.len() - i,
    {
        let p = &props[i];
        proof {
            assert(props@.take(i + 1).drop_last() =~= props@.take(i as int));
            assert(props@.take(i + 1).last() == props@[i as int]);
        }
        let ty = match &p.type_ref {
            None => {
                proof {
                    lemma_property_types_err(props@, i + 1, elems@, ns@, aliases_view(al@));
                }
                return Err(
                    ResolveError::MissingTypeName {
                        element_kind: "Property",
                        element_name: owned(p.name.as_str()),
                    },
                );
            },
            Some(t) => match resolve_type(t.as_str(), elems, ns, al) {
                Ok(ty) => ty,
                Err(e) => {
                    proof {
                        lemma_property_types_err(props@, i + 1, elems@, ns@, aliases_view(al@));
                    }
                    return Err(e);
                },
            },
        };
        out.push(Property { name: owned(p.name.as_str()), ty, is_collection: p.is_collection });
        proof {
            tys = tys.push(ty);
        }
        i = i + 1;
    }
    proof {
        assert(props@.take(props@.len() as int) =~= props@);
    }
    Ok(out)
}

pub open spec fn spec_on_delete(a: csdl::OnDeleteAction) -> OnDeleteAction {
    match a {
        csdl::OnDeleteAction::Cascade => OnDeleteAction::Cascade,
        csdl::OnDeleteAction::NoAction => OnDeleteAction::NoAction,
        csdl::OnDeleteAction::SetNull => OnDeleteAction::SetNull,
        csdl::OnDeleteAction::SetDefault => OnDeleteAction::SetDefault,
    }
}

/// Target entity type of one declared navigation property.
pub open spec fn spec_navigation_target(
    n: csdl::NavigationProperty,
    s: Seq<csdl::SchemaElement>,
    ns: Seq<char>,
    al: Seq<(Seq<char>, Seq<char>)>,
) -> Result<usize, ResolveErrorView> {
    match n.type_ref {
        None => Err(
            ResolveErrorView::MissingTypeName {
                element_kind: "NavigationProperty"@,
                element_name: n.name@,
            },
        ),
        Some(t) => match spec_unqualify(t@, ns, al) {
            None => Err(ResolveErrorView::UnknownEntity(t@)),
            Some(short) => match arena_id(s, kind_entity(), short) {
                Some(id) => Ok(id as usize),
                None => Err(ResolveErrorView::UnknownEntity(t@)),
            },
        },
    }
}

/// Target entity types of the declared navigation properties, or the first
/// error.
pub open spec fn spec_navigation_targets(
    navs: Seq<csdl::NavigationProperty>,
    s: Seq<csdl::SchemaElement>,
    ns: Seq<char>,
    al: Seq<(Seq<char>, Seq<char>)>,
) -> Result<Seq<usize>, ResolveErrorView>
    decreases navs.len(),
{
    if navs.len() == 0 {
        Ok(Seq::<usize>::empty())
    } else {
        match spec_navigation_targets(navs.drop_last(), s, ns, al) {
            Err(e) => Err(e),
            Ok(ts) => match spec_navigation_target(navs.last(), s, ns, al) {
                Err(e) => Err(e),
                Ok(t) => Ok(ts.push(t)),
            },
        }
    }
}

pub open spec fn constraints_copied(
    out: Seq<ReferentialConstraint>,
    src: Seq<csdl::ReferentialConstraint>,
) -> bool {
    &&& out.len() == src.len()
    &&& forall|j: int|
        0 <= j < out.len() ==> (#[trigger] out[j]).property@ == src[j].property@
            && out[j].referenced_property@ == src[j].referenced_property@
}

/// `out` holds the declared navigation properties `src` with the targets
/// `targets`; partners are not yet resolved.
pub open spec fn navigations_built(
    out: Seq<NavigationProperty>,
    src: Seq<csdl::NavigationProperty>,
    targets: Seq<usize>,
) -> bool {
    &&& out.len() == src.len()
    &&& targets.len() == src.len()
    &&& forall|j: int|
        0 <= j < out.len() ==> {
            &&& (#[trigger] out[j]).name@ == src[j].name@
            &&& out[j].target == targets[j]
            &&& out[j].is_collection == src[j].is_collection
            &&& out[j].partner is None
            &&& out[j].contains_target == src[j].contains_target
            &&& out[j].on_delete == match src[j].on_delete {
                Some(a) => Some(spec_on_delete(a)),
                None => None::<OnDeleteAction>,
            }
            &&& constraints_copied(out[j].referential_constraints@, src[j].referential_constraints@)
        }
}

pub fn copy_constraints(src: &Vec<csdl::ReferentialConstraint>) -> (r: Vec<ReferentialConstraint>)
    ensures
        constraints_copied(r@, src@),
{
    let mut out: Vec<ReferentialConstraint> = Vec::new();
    let mut i: usize = 0;
    while i < src.len()
        invariant
            i <= src@.len(),
            constraints_copied(out@, src@.take(i as int)),
        decreases src.len() - i,
    {
        out.push(
            ReferentialConstraint {
                property: owned(src[i].property.as_str()),
                referenced_property: owned(src[i].referenced_property.as_str()),
            },
        );
        i = i + 1;
    }
    proof {
        assert(src@.take(src@.len() as int) =~= src@);
    }
    out
}

fn map_on_delete(a: &Option<csdl::OnDeleteAction>) -> (r: Option<OnDeleteAction>)
    ensures
        r == match *a {
            Some(x) => Some(spec_on_delete(x)),
            None => None::<OnDeleteAction>,
        },
{
    match a {
        Some(csdl::OnDeleteAction::Cascade) => Some(OnDeleteAction::Cascade),
        Some(csdl::OnDeleteAction::NoAction) => Some(OnDeleteAction::NoAction),
        Some(csdl::OnDeleteAction::SetNull) => Some(OnDeleteAction::SetNull),
        Some(csdl::OnDeleteAction::SetDefault) => Some(OnDeleteAction::SetDefault),
        None => None,
    }
}

pub fn resolve_navs(
    navs: &Vec<csdl::NavigationProperty>,
    elems: &Vec<csdl::SchemaElement>,
    ns: &str,
    al: &Vec<(String, String)>,
) -> (r: Result<Vec<NavigationProperty>, ResolveError>)
    ensures
        match spec_navigation_targets(navs@, elems@, ns@, aliases_view(al@)) {
            Ok(ts) => r is Ok && navigations_built(r->Ok_0@, navs@, ts),
            Err(e) => r is Err && r->Err_0@ == e,
        },
{
    let mut out: Vec<NavigationProperty> = Vec::new();
    let ghost mut ts: Seq<usize> = Seq::empty();
    let mut i: usize = 0;
    while i < navs.len()
        invariant
            i <= navs@.len(),
            spec_navigation_targets(navs@.take(i as int), elems@, ns@, aliases_view(al@)) == Ok::<
                Seq<usize>,
                ResolveErrorView,
            >(ts),
            navigations_built(out@, navs@.take(i as int), ts),
        decreases navs.len() - i,
    {
        let n = &navs[i];
        proof {
            assert(navs@.take(i + 1).drop_last() =~= navs@.take(i as int));
            assert(navs@.take(i + 1).last() == navs@[i as int]);
        }
        let t = match &n.type_ref {
            None => {
                proof {
                    lemma_navigation_targets_err(navs@, i + 1, elems@, ns@, aliases_view(al@));
                }
                return Err(
                    ResolveError::MissingTypeName {
                        element_kind: "NavigationProperty",
                        element_name: owned(n.name.as_str()),
                    },
                );
            },
            Some(t) => t,
        };
        let short = match unqualify_to_local(t.as_str(), ns, al) {
            Some(x) => x,
            None => {
                proof {
                    lemma_navigation_targets_err(navs@, i + 1, elems@, ns@, aliases_view(al@));
                }
                return Err(ResolveError::UnknownEntity(owned(t.as_str())));
            },
        };
        let target = match find_id(elems, 0, short.as_str()) {
            Some(id) => id,
            None => {
                proof {
                    lemma_navigation_targets_err(navs@, i + 1, elems@, ns@, aliases_view(al@));
                }
                return Err(ResolveError::UnknownEntity(owned(t.as_str())));
            },
        };
        out.push(
            NavigationProperty {
                name: owned(n.name.as_str()),
                target,
                is_collection: n.is_collection,
                partner: None,
                contains_target: n.contains_target,
                on_delete: map_on_delete(&n.on_delete),
                referential_constraints: copy_constraints(&n.referential_constraints),
            },
        );
        proof {
            ts = ts.push(target);
        }
        i = i + 1;
    }
    proof {
        assert(navs@.take(navs@.len() as int) =~= navs@);
    }
    Ok(out)
}

} // verus!
