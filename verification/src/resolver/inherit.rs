//! Inheritance: effective keys and effective members of structured types,
//! following `BaseType` chains, and the check of declared key paths.
//!
//! A chain is followed at most `fuel` steps, `fuel` being the number of schema
//! elements. A chain of distinct types is never longer than that, and a
//! repeated type is reported as a cycle before the steps run out; the
//! exhausted case reports the cycle it would have had to contain.

use vstd::prelude::*;

use crate::csdl;
use crate::edm::{MemberRef, ResolvedType, StructuredTypeRef};
use crate::resolver::lookup::{aliases_view, 
    element_name, find_last, last_index, lemma_last_index_bounds, nth_of_kind, of_kind, ordinal,
    ordinal_of, spec_kind, spec_name, spec_unqualify, unqualify_to_local,
};
use crate::resolver::types::{
    clone_error, properties_built, navigations_built, resolve_navs, resolve_properties, rv,
    spec_navigation_targets, spec_property_types,
};
use crate::resolver::{ResolveError, ResolveErrorView};
use crate::text::{clone_strings, concat3, lemma_strs_push, owned, path_segments, split_path, str_eq, strs};

verus! {

pub open spec fn st_base(e: csdl::SchemaElement) -> Option<String> {
    match e {
        csdl::SchemaElement::EntityType(x) => x.base_type,
        csdl::SchemaElement::ComplexType(x) => x.base_type,
        _ => None,
    }
}

pub open spec fn st_props(e: csdl::SchemaElement) -> Seq<csdl::Property> {
    match e {
        csdl::SchemaElement::EntityType(x) => x.properties@,
        csdl::SchemaElement::ComplexType(x) => x.properties@,
        _ => Seq::<csdl::Property>::empty(),
    }
}

pub open spec fn st_navs(e: csdl::SchemaElement) -> Seq<csdl::NavigationProperty> {
    match e {
        csdl::SchemaElement::EntityType(x) => x.navigation_properties@,
        csdl::SchemaElement::ComplexType(x) => x.navigation_properties@,
        _ => Seq::<csdl::NavigationProperty>::empty(),
    }
}

pub open spec fn qualified(ns: Seq<char>, name: Seq<char>) -> Seq<char> {
    ns + "."@ + name
}

/// The effective members of a structured type: references to them, with the
/// names, property types and navigation targets they were declared with.
pub struct Members {
    pub props: Seq<MemberRef>,
    pub prop_names: Seq<Seq<char>>,
    pub prop_types: Seq<ResolvedType>,
    pub navs: Seq<MemberRef>,
    pub nav_names: Seq<Seq<char>>,
    pub nav_targets: Seq<usize>,
}

pub open spec fn no_members() -> Members {
    Members {
        props: Seq::empty(),
        prop_names: Seq::empty(),
        prop_types: Seq::empty(),
        navs: Seq::empty(),
        nav_names: Seq::empty(),
        nav_targets: Seq::empty(),
    }
}

pub open spec fn own_refs(owner: StructuredTypeRef, n: nat) -> Seq<MemberRef> {
    Seq::new(n, |j: int| MemberRef { owner, index: j as usize })
}

pub open spec fn owner_ref(k: u8, id: nat) -> StructuredTypeRef {
    if k == 0 {
        StructuredTypeRef::Entity(id as usize)
    } else {
        StructuredTypeRef::Complex(id as usize)
    }
}

/// The base members followed by those the type declares.
pub open spec fn extend(
    base: Members,
    owner: StructuredTypeRef,
    props: Seq<csdl::Property>,
    tys: Seq<ResolvedType>,
    navs: Seq<csdl::NavigationProperty>,
    targets: Seq<usize>,
) -> Members {
    Members {
        props: base.props + own_refs(owner, props.len()),
        prop_names: base.prop_names + props.map_values(|p: csdl::Property| p.name@),
        prop_types: base.prop_types + tys,
        navs: base.navs + own_refs(owner, navs.len()),
        nav_names: base.nav_names + navs.map_values(|n: csdl::NavigationProperty| n.name@),
        nav_targets: base.nav_targets + targets,
    }
}

/// A declared member reuses the name of an inherited one.
pub open spec fn redeclares(
    base: Members,
    props: Seq<csdl::Property>,
    navs: Seq<csdl::NavigationProperty>,
) -> bool {
    ||| exists|j: int|
        0 <= j < props.len() && (base.prop_names + base.nav_names).contains(
            (#[trigger] props[j]).name@,
        )
    ||| exists|j: int|
        0 <= j < navs.len() && (base.prop_names + base.nav_names).contains(
            (#[trigger] navs[j]).name@,
        )
}

pub open spec fn cycle_feature(k: u8) -> Seq<char> {
    if k == 0 {
        "Cyclic EntityType.BaseType"@
    } else {
        "Cyclic ComplexType.BaseType"@
    }
}

pub open spec fn redeclaration_feature(k: u8) -> Seq<char> {
    if k == 0 {
        "Derived EntityType member redeclaration"@
    } else {
        "Derived ComplexType member redeclaration"@
    }
}

pub open spec fn unsupported(feature: Seq<char>, location: Seq<char>) -> ResolveErrorView {
    ResolveErrorView::UnsupportedCsdlFeature { feature, location }
}

/// Effective members of the entity (`k == 0`) or complex (`k == 1`) type
/// `name`: those of its base type, then its own; or the first error met on
/// the way down the chain.
pub open spec fn spec_members(
    s: Seq<csdl::SchemaElement>,
    ns: Seq<char>,
    al: Seq<(Seq<char>, Seq<char>)>,
    k: u8,
    name: Seq<char>,
    visiting: Seq<Seq<char>>,
    fuel: nat,
) -> Result<Members, ResolveErrorView>
    decreases fuel,
{
    if visiting.contains(name) {
        Err(unsupported(cycle_feature(k), qualified(ns, name)))
    } else {
        match last_index(s, k, name) {
            None => Err(ResolveErrorView::UnknownType(name)),
            Some(i) => {
                let e = s[i];
                let base = match st_base(e) {
                    None => Ok(no_members()),
                    Some(b) => match spec_unqualify(b@, ns, al) {
                        None => Err(ResolveErrorView::UnknownType(b@)),
                        Some(bn) => if fuel == 0 {
                            Err(unsupported(cycle_feature(k), qualified(ns, name)))
                        } else {
                            spec_members(s, ns, al, k, bn, visiting.push(name), (fuel - 1) as nat)
                        },
                    },
                };
                match base {
                    Err(x) => Err(x),
                    Ok(bm) => match spec_property_types(st_props(e), s, ns, al) {
                        Err(x) => Err(x),
                        Ok(tys) => match spec_navigation_targets(st_navs(e), s, ns, al) {
                            Err(x) => Err(x),
                            Ok(ts) => if redeclares(bm, st_props(e), st_navs(e)) {
                                Err(unsupported(redeclaration_feature(k), qualified(ns, name)))
                            } else {
                                Ok(
                                    extend(
                                        bm,
                                        owner_ref(k, ordinal(s, k, i)),
                                        st_props(e),
                                        tys,
                                        st_navs(e),
                                        ts,
                                    ),
                                )
                            },
                        },
                    },
                }
            },
        }
    }
}

/// Executable counterpart of [`Members`].
pub struct ResolvedMembers {
    pub props: Vec<MemberRef>,
    pub prop_names: Vec<String>,
    pub prop_types: Vec<ResolvedType>,
    pub navs: Vec<MemberRef>,
    pub nav_names: Vec<String>,
    pub nav_targets: Vec<usize>,
}

impl ResolvedMembers {
    pub open spec fn spec_view(&self) -> Members {
        Members {
            props: self.props@,
            prop_names: strs(self.prop_names@),
            prop_types: self.prop_types@,
            navs: self.navs@,
            nav_names: strs(self.nav_names@),
            nav_targets: self.nav_targets@,
        }
    }
}

pub open spec fn members_rv(r: Result<ResolvedMembers, ResolveError>) -> Result<
    Members,
    ResolveErrorView,
> {
    match r {
        Ok(m) => Ok(m.spec_view()),
        Err(e) => Err(e@),
    }
}

/// Whether `v` holds `s`.
pub fn contains_str(v: &Vec<String>, s: &str) -> (r: bool)
    ensures
        r == strs(v@).contains(s@),
{
    let mut i: usize = 0;
    while i < v.len()
        invariant
            i <= v@.len(),
            forall|j: int| 0 <= j < i ==> v@[j]@ != s@,
        decreases v.len() - i,
    {
        if str_eq(v[i].as_str(), s) {
            proof {
                assert(strs(v@)[i as int] == s@);
            }
            return true;
        }
        i = i + 1;
    }
    proof {
        if strs(v@).contains(s@) {
            let j = choose|j: int| 0 <= j < strs(v@).len() && strs(v@)[j] == s@;
            assert(v@[j]@ == s@);
        }
    }
    false
}


fn redeclared(
    base: &ResolvedMembers,
    props: &Vec<csdl::Property>,
    navs: &Vec<csdl::NavigationProperty>,
) -> (r: bool)
    ensures
        r == redeclares(base.spec_view(), props@, navs@),
{
    let mut inherited = clone_strings(&base.prop_names);
    let mut i: usize = 0;
    while i < base.nav_names.len()
        invariant
            i <= base.nav_names@.len(),
            strs(inherited@) == strs(base.prop_names@) + strs(base.nav_names@.take(i as int)),
        decreases base.nav_names.len() - i,
    {
        let ghost old_inh = inherited@;
        let x = owned(base.nav_names[i].as_str());
        inherited.push(x);
        proof {
            lemma_strs_push(old_inh, x);
            assert(base.nav_names@.take(i + 1) =~= base.nav_names@.take(i as int).push(base.nav_names@[i as int]));
            lemma_strs_push(base.nav_names@.take(i as int), base.nav_names@[i as int]);
            assert(strs(inherited@) =~= strs(base.prop_names@) + strs(base.nav_names@.take(i + 1)));
        }
        i = i + 1;
    }
    proof {
        assert(base.nav_names@.take(base.nav_names@.len() as int) =~= base.nav_names@);
        assert(strs(inherited@) == base.spec_view().prop_names + base.spec_view().nav_names);
    }
    let mut j: usize = 0;
    while j < props.len()
        invariant
            j <= props@.len(),
            strs(inherited@) == base.spec_view().prop_names + base.spec_view().nav_names,
            forall|x: int| 0 <= x < j ==> !strs(inherited@).contains(#[trigger] props@[x].name@),
        decreases props.len() - j,
    {
        if contains_str(&inherited, props[j].name.as_str()) {
            return true;
        }
        j = j + 1;
    }
    let mut j: usize = 0;
    while j < navs.len()
        invariant
            j <= navs@.len(),
            strs(inherited@) == base.spec_view().prop_names + base.spec_view().nav_names,
            forall|x: int| 0 <= x < props@.len() ==> !strs(inherited@).contains(#[trigger] props@[x].name@),
            forall|x: int| 0 <= x < j ==> !strs(inherited@).contains(#[trigger] navs@[x].name@),
        decreases navs.len() - j,
    {
        if contains_str(&inherited, navs[j].name.as_str()) {
            return true;
        }
        j = j + 1;
    }
    false
}

fn element_base(e: &csdl::SchemaElement) -> (r: &Option<String>)
    requires
        spec_kind(*e) == 0 || spec_kind(*e) == 1,
    ensures
        *r == st_base(*e),
{
    match e {
        csdl::SchemaElement::EntityType(x) => &x.base_type,
        csdl::SchemaElement::ComplexType(x) => &x.base_type,
        _ => {
            assert(false);
            &None
        },
    }
}

fn element_props(e: &csdl::SchemaElement) -> (r: &Vec<csdl::Property>)
    requires
        spec_kind(*e) == 0 || spec_kind(*e) == 1,
    ensures
        r@ == st_props(*e),
{
    match e {
        csdl::SchemaElement::EntityType(x) => &x.properties,
        csdl::SchemaElement::ComplexType(x) => &x.properties,
        _ => {
            assert(false);
            unreached()
        },
    }
}

fn element_navs(e: &csdl::SchemaElement) -> (r: &Vec<csdl::NavigationProperty>)
    requires
        spec_kind(*e) == 0 || spec_kind(*e) == 1,
    ensures
        r@ == st_navs(*e),
{
    match e {
        csdl::SchemaElement::EntityType(x) => &x.navigation_properties,
        csdl::SchemaElement::ComplexType(x) => &x.navigation_properties,
        _ => {
            assert(false);
            unreached()
        },
    }
}

fn cycle_error(k: u8, ns: &str, name: &str) -> (r: ResolveError)
    requires
        k == 0 || k == 1,
    ensures
        r@ == unsupported(cycle_feature(k), qualified(ns@, name@)),
{
    let location = concat3(ns, ".", name);
    if k == 0 {
        ResolveError::UnsupportedCsdlFeature { feature: "Cyclic EntityType.BaseType", location }
    } else {
        ResolveError::UnsupportedCsdlFeature { feature: "Cyclic ComplexType.BaseType", location }
    }
}

fn redeclaration_error(k: u8, ns: &str, name: &str) -> (r: ResolveError)
    requires
        k == 0 || k == 1,
    ensures
        r@ == unsupported(redeclaration_feature(k), qualified(ns@, name@)),
{
    let location = concat3(ns, ".", name);
    if k == 0 {
        ResolveError::UnsupportedCsdlFeature {
            feature: "Derived EntityType member redeclaration",
            location,
        }
    } else {
        ResolveError::UnsupportedCsdlFeature {
            feature: "Derived ComplexType member redeclaration",
            location,
        }
    }
}

/// Effective members of the entity (`k == 0`) or complex (`k == 1`) type
/// `name`. `visiting` holds the types below which `name` is being resolved.
pub fn resolve_members(
    elems: &Vec<csdl::SchemaElement>,
    ns: &str,
    al: &Vec<(String, String)>,
    k: u8,
    name: &str,
    visiting: &mut Vec<String>,
    fuel: usize,
) -> (r: Result<ResolvedMembers, ResolveError>)
    requires
        k == 0 || k == 1,
    ensures
        members_rv(r) == spec_members(elems@, ns@, aliases_view(al@), k, name@, strs(old(visiting)@), fuel as nat),
        strs(final(visiting)@) == strs(old(visiting)@),
    decreases fuel,
{
    if contains_str(visiting, name) {
        return Err(cycle_error(k, ns, name));
    }
    let i = match find_last(elems, k, name) {
        Some(i) => i,
        None => return Err(ResolveError::UnknownType(owned(name))),
    };
    proof {
        lemma_last_index_bounds(elems@, k, name@);
    }
    let e = &elems[i];
    let base = match element_base(e) {
        None => ResolvedMembers {
            props: Vec::new(),
            prop_names: Vec::new(),
            prop_types: Vec::new(),
            navs: Vec::new(),
            nav_names: Vec::new(),
            nav_targets: Vec::new(),
        },
        Some(b) => {
            let bn = match unqualify_to_local(b.as_str(), ns, al) {
                Some(x) => x,
                None => return Err(ResolveError::UnknownType(owned(b.as_str()))),
            };
            if fuel == 0 {
                return Err(cycle_error(k, ns, name));
            }
            let ghost before = strs(visiting@);
            visiting.push(owned(name));
            proof {
                assert(strs(visiting@) =~= before.push(name@));
            }
            let res = resolve_members(elems, ns, al, k, bn.as_str(), visiting, fuel - 1);
            let ghost mid = visiting@;
            visiting.pop();
            proof {
                assert(strs(visiting@) =~= strs(mid).drop_last());
                assert(strs(visiting@) =~= before);
            }
            match res {
                Ok(m) => m,
                Err(x) => return Err(x),
            }
        },
    };
    let ghost bm = base.spec_view();
    let props = element_props(e);
    let navs = element_navs(e);
    let own_props = match resolve_properties(props, elems, ns, al) {
        Ok(v) => v,
        Err(x) => return Err(x),
    };
    let own_navs = match resolve_navs(navs, elems, ns, al) {
        Ok(v) => v,
        Err(x) => return Err(x),
    };
    if redeclared(&base, props, navs) {
        return Err(redeclaration_error(k, ns, name));
    }
    let id = ordinal_of(elems, k, i);
    let owner = if k == 0 {
        StructuredTypeRef::Entity(id)
    } else {
        StructuredTypeRef::Complex(id)
    };
    let ghost tys = spec_property_types(st_props(elems@[i as int]), elems@, ns@, aliases_view(al@))->Ok_0;
    let ghost ts = spec_navigation_targets(st_navs(elems@[i as int]), elems@, ns@, aliases_view(al@))->Ok_0;
    let mut out = base;
    let mut j: usize = 0;
    while j < own_props.len()
        invariant
            j <= own_props@.len(),
            properties_built(own_props@, props@, tys),
            out.props@ == bm.props + own_refs(owner, j as nat),
            strs(out.prop_names@) == bm.prop_names + props@.take(j as int).map_values(
                |p: csdl::Property| p.name@,
            ),
            out.prop_types@ == bm.prop_types + tys.take(j as int),
            out.navs@ == bm.navs,
            strs(out.nav_names@) == bm.nav_names,
            out.nav_targets@ == bm.nav_targets,
        decreases own_props.len() - j,
    {
        out.props.push(MemberRef { owner, index: j });
        let ghost old_names = out.prop_names@;
        let x = owned(own_props[j].name.as_str());
        out.prop_names.push(x);
        out.prop_types.push(own_props[j].ty);
        proof {
            lemma_strs_push(old_names, x);
            assert(props@.take(j + 1) =~= props@.take(j as int).push(props@[j as int]));
        }
        j = j + 1;
        proof {
            assert(out.props@ =~= bm.props + own_refs(owner, j as nat));
            assert(strs(out.prop_names@) =~= bm.prop_names + props@.take(j as int).map_values(
                |p: csdl::Property| p.name@,
            ));
            assert(out.prop_types@ =~= bm.prop_types + tys.take(j as int));
        }
    }
    let mut j: usize = 0;
    while j < own_navs.len()
        invariant
            j <= own_navs@.len(),
            properties_built(own_props@, props@, tys),
            navigations_built(own_navs@, navs@, ts),
            out.props@ == bm.props + own_refs(owner, props@.len()),
            strs(out.prop_names@) == bm.prop_names + props@.map_values(|p: csdl::Property| p.name@),
            out.prop_types@ == bm.prop_types + tys,
            out.navs@ == bm.navs + own_refs(owner, j as nat),
            strs(out.nav_names@) == bm.nav_names + navs@.take(j as int).map_values(
                |n: csdl::NavigationProperty| n.name@,
            ),
            out.nav_targets@ == bm.nav_targets + ts.take(j as int),
        decreases own_navs.len() - j,
    {
        out.navs.push(MemberRef { owner, index: j });
        let ghost old_names = out.nav_names@;
        let x = owned(own_navs[j].name.as_str());
        out.nav_names.push(x);
        out.nav_targets.push(own_navs[j].target);
        proof {
            lemma_strs_push(old_names, x);
            assert(navs@.take(j + 1) =~= navs@.take(j as int).push(navs@[j as int]));
        }
        j = j + 1;
        proof {
            assert(out.navs@ =~= bm.navs + own_refs(owner, j as nat));
            assert(strs(out.nav_names@) =~= bm.nav_names + navs@.take(j as int).map_values(
                |n: csdl::NavigationProperty| n.name@,
            ));
            assert(out.nav_targets@ =~= bm.nav_targets + ts.take(j as int));
        }
    }
    proof {
        assert(props@.take(props@.len() as int) =~= props@);
        assert(navs@.take(navs@.len() as int) =~= navs@);
        assert(tys.take(tys.len() as int) =~= tys);
        assert(ts.take(ts.len() as int) =~= ts);
    }
    Ok(out)
}

} // verus!

verus! {

pub open spec fn st_keys(e: csdl::SchemaElement) -> Seq<Seq<char>> {
    match e {
        csdl::SchemaElement::EntityType(x) => match x.key {
            Some(k) => k.property_refs@.map_values(|r: csdl::PropertyRef| r.name@),
            None => Seq::<Seq<char>>::empty(),
        },
        _ => Seq::<Seq<char>>::empty(),
    }
}

/// Effective key of the entity type `name`: its own key, or else its base
/// type's; declaring a key below a keyed base type is refused.
pub open spec fn spec_effective_keys(
    s: Seq<csdl::SchemaElement>,
    ns: Seq<char>,
    al: Seq<(Seq<char>, Seq<char>)>,
    name: Seq<char>,
    visiting: Seq<Seq<char>>,
    fuel: nat,
) -> Result<Seq<Seq<char>>, ResolveErrorView>
    decreases fuel,
{
    if visiting.contains(name) {
        Err(unsupported(cycle_feature(0), qualified(ns, name)))
    } else {
        match last_index(s, 0, name) {
            None => Err(ResolveErrorView::UnknownType(name)),
            Some(i) => {
                let own = st_keys(s[i]);
                match st_base(s[i]) {
                    None => Ok(own),
                    Some(b) => match spec_unqualify(b@, ns, al) {
                        None => Err(ResolveErrorView::UnknownType(b@)),
                        Some(bn) => if fuel == 0 {
                            Err(unsupported(cycle_feature(0), qualified(ns, name)))
                        } else {
                            match spec_effective_keys(
                                s,
                                ns,
                                al,
                                bn,
                                visiting.push(name),
                                (fuel - 1) as nat,
                            ) {
                                Err(x) => Err(x),
                                Ok(bk) => if bk.len() > 0 && own.len() > 0 {
                                    Err(
                                        unsupported(
                                            "Derived EntityType.Key"@,
                                            qualified(ns, name),
                                        ),
                                    )
                                } else if own.len() == 0 {
                                    Ok(bk)
                                } else {
                                    Ok(own)
                                },
                            }
                        },
                    },
                }
            },
        }
    }
}

/// `bm` is what the structured type `e` (named `name`, kind `k`) inherits:
/// nothing without a base type, else the effective members of its base.
pub open spec fn inherited(
    s: Seq<csdl::SchemaElement>,
    ns: Seq<char>,
    al: Seq<(Seq<char>, Seq<char>)>,
    k: u8,
    name: Seq<char>,
    visiting: Seq<Seq<char>>,
    fuel: nat,
    e: csdl::SchemaElement,
    bm: Members,
) -> bool {
    match st_base(e) {
        None => bm == no_members(),
        Some(b) => spec_unqualify(b@, ns, al) matches Some(bn) && fuel > 0 && spec_members(
            s,
            ns,
            al,
            k,
            bn,
            visiting.push(name),
            (fuel - 1) as nat,
        ) == Ok::<_, ResolveErrorView>(bm),
    }
}

/// The effective members of a structured type: those it inherits (base
/// type first, down the chain), then its own in declaration order, with no
/// own member named like an inherited one. A member so named is refused,
/// as is a type met again on its own base-type chain.
pub proof fn lemma_members_rule(
    s: Seq<csdl::SchemaElement>,
    ns: Seq<char>,
    al: Seq<(Seq<char>, Seq<char>)>,
    k: u8,
    name: Seq<char>,
    visiting: Seq<Seq<char>>,
    fuel: nat,
)
    ensures
        visiting.contains(name) ==> spec_members(s, ns, al, k, name, visiting, fuel) == Err::<Members, _>(
            unsupported(cycle_feature(k), qualified(ns, name)),
        ),
        spec_members(s, ns, al, k, name, visiting, fuel) matches Ok(ms) ==> (last_index(s, k, name) matches Some(i)
            && exists|bm: Members|
            #[trigger] inherited(s, ns, al, k, name, visiting, fuel, s[i], bm)
                && ms.prop_names == bm.prop_names + st_props(s[i]).map_values(|p: csdl::Property| p.name@)
                && ms.nav_names == bm.nav_names + st_navs(s[i]).map_values(|n: csdl::NavigationProperty| n.name@)
                && !redeclares(bm, st_props(s[i]), st_navs(s[i]))),
        forall|i: int, bm: Members|
            !visiting.contains(name) && last_index(s, k, name) == Some(i) && #[trigger] inherited(
                s,
                ns,
                al,
                k,
                name,
                visiting,
                fuel,
                s[i],
                bm,
            ) && spec_property_types(st_props(s[i]), s, ns, al) is Ok && spec_navigation_targets(
                st_navs(s[i]),
                s,
                ns,
                al,
            ) is Ok && redeclares(bm, st_props(s[i]), st_navs(s[i])) ==> spec_members(
                s,
                ns,
                al,
                k,
                name,
                visiting,
                fuel,
            ) == Err::<Members, _>(unsupported(redeclaration_feature(k), qualified(ns, name))),
{
    if !visiting.contains(name) {
        if let Some(i) = last_index(s, k, name) {
            let e = s[i];
            let base = match st_base(e) {
                None => Ok(no_members()),
                Some(b) => match spec_unqualify(b@, ns, al) {
                    None => Err(ResolveErrorView::UnknownType(b@)),
                    Some(bn) => if fuel == 0 {
                        Err(unsupported(cycle_feature(k), qualified(ns, name)))
                    } else {
                        spec_members(s, ns, al, k, bn, visiting.push(name), (fuel - 1) as nat)
                    },
                },
            };
            if let Ok(bm) = base {
                assert(inherited(s, ns, al, k, name, visiting, fuel, e, bm));
            }
        }
    }
}

/// The base type a structured type names, resolved to a local name.
pub open spec fn base_name(e: csdl::SchemaElement, ns: Seq<char>, al: Seq<(Seq<char>, Seq<char>)>) -> Option<Seq<char>> {
    match st_base(e) {
        Some(b) => spec_unqualify(b@, ns, al),
        None => None,
    }
}

/// An entity type's effective key: its own when it declares one or has no
/// base type, else that of its base type; declaring a key over a base type
/// that has one is refused, as is a type met again on its own base-type
/// chain.
pub proof fn lemma_effective_keys_rule(
    s: Seq<csdl::SchemaElement>,
    ns: Seq<char>,
    al: Seq<(Seq<char>, Seq<char>)>,
    name: Seq<char>,
    visiting: Seq<Seq<char>>,
    fuel: nat,
)
    ensures
        visiting.contains(name) ==> spec_effective_keys(s, ns, al, name, visiting, fuel) == Err::<Seq<Seq<char>>, _>(
            unsupported(cycle_feature(0), qualified(ns, name)),
        ),
        forall|i: int|
            !visiting.contains(name) && last_index(s, 0, name) == Some(i) && st_base(#[trigger] s[i]) is None
                ==> spec_effective_keys(s, ns, al, name, visiting, fuel) == Ok::<_, ResolveErrorView>(st_keys(s[i])),
        forall|i: int, bn: Seq<char>|
            !visiting.contains(name) && last_index(s, 0, name) == Some(i) && base_name(#[trigger] s[i], ns, al)
                == Some(bn) && fuel > 0 && (#[trigger] spec_effective_keys(
                s,
                ns,
                al,
                bn,
                visiting.push(name),
                (fuel - 1) as nat,
            )) is Ok ==> spec_effective_keys(s, ns, al, name, visiting, fuel) == {
                let bk = spec_effective_keys(s, ns, al, bn, visiting.push(name), (fuel - 1) as nat)->Ok_0;
                if bk.len() > 0 && st_keys(s[i]).len() > 0 {
                    Err(unsupported("Derived EntityType.Key"@, qualified(ns, name)))
                } else if st_keys(s[i]).len() == 0 {
                    Ok(bk)
                } else {
                    Ok(st_keys(s[i]))
                }
            },
{
}

pub open spec fn strings_rv(r: Result<Vec<String>, ResolveError>) -> Result<
    Seq<Seq<char>>,
    ResolveErrorView,
> {
    match r {
        Ok(v) => Ok(strs(v@)),
        Err(e) => Err(e@),
    }
}

fn own_keys(e: &csdl::SchemaElement) -> (r: Vec<String>)
    ensures
        strs(r@) == st_keys(*e),
{
    let mut out: Vec<String> = Vec::new();
    if let csdl::SchemaElement::EntityType(x) = e {
        if let Some(k) = &x.key {
            let mut i: usize = 0;
            while i < k.property_refs.len()
                invariant
                    i <= k.property_refs@.len(),
                    strs(out@) == k.property_refs@.take(i as int).map_values(
                        |r: csdl::PropertyRef| r.name@,
                    ),
                decreases k.property_refs.len() - i,
            {
                let ghost old_out = out@;
                let n = owned(k.property_refs[i].name.as_str());
                out.push(n);
                proof {
                    lemma_strs_push(old_out, n);
                    assert(k.property_refs@.take(i + 1) =~= k.property_refs@.take(i as int).push(
                        k.property_refs@[i as int],
                    ));
                    assert(strs(out@) =~= k.property_refs@.take(i + 1).map_values(
                        |r: csdl::PropertyRef| r.name@,
                    ));
                }
                i = i + 1;
            }
            proof {
                assert(k.property_refs@.take(k.property_refs@.len() as int) =~= k.property_refs@);
            }
        }
    }
    proof {
        assert(strs(out@) =~= st_keys(*e));
    }
    out
}

/// Effective key of the entity type `name`.
pub fn resolve_effective_entity_keys(
    elems: &Vec<csdl::SchemaElement>,
    ns: &str,
    al: &Vec<(String, String)>,
    name: &str,
    visiting: &mut Vec<String>,
    fuel: usize,
) -> (r: Result<Vec<String>, ResolveError>)
    ensures
        strings_rv(r) == spec_effective_keys(elems@, ns@, aliases_view(al@), name@, strs(old(visiting)@), fuel as nat),
        strs(final(visiting)@) == strs(old(visiting)@),
    decreases fuel,
{
    if contains_str(visiting, name) {
        return Err(cycle_error(0, ns, name));
    }
    let i = match find_last(elems, 0, name) {
        Some(i) => i,
        None => return Err(ResolveError::UnknownType(owned(name))),
    };
    proof {
        lemma_last_index_bounds(elems@, 0, name@);
    }
    let own = own_keys(&elems[i]);
    match element_base(&elems[i]) {
        None => Ok(own),
        Some(b) => {
            let bn = match unqualify_to_local(b.as_str(), ns, al) {
                Some(x) => x,
                None => return Err(ResolveError::UnknownType(owned(b.as_str()))),
            };
            if fuel == 0 {
                return Err(cycle_error(0, ns, name));
            }
            let ghost before = strs(visiting@);
            visiting.push(owned(name));
            proof {
                assert(strs(visiting@) =~= before.push(name@));
            }
            let res = resolve_effective_entity_keys(elems, ns, al, bn.as_str(), visiting, fuel - 1);
            let ghost mid = visiting@;
            visiting.pop();
            proof {
                assert(strs(visiting@) =~= strs(mid).drop_last());
            }
            match res {
                Err(x) => Err(x),
                Ok(bk) => {
                    if bk.len() > 0 && own.len() > 0 {
                        Err(
                            ResolveError::UnsupportedCsdlFeature {
                                feature: "Derived EntityType.Key",
                                location: concat3(ns, ".", name),
                            },
                        )
                    } else if own.len() == 0 {
                        Ok(bk)
                    } else {
                        Ok(own)
                    }
                },
            }
        },
    }
}

/// First position of `n` in `names`.
pub open spec fn find_first(names: Seq<Seq<char>>, n: Seq<char>) -> Option<int>
    decreases names.len(),
{
    if names.len() == 0 {
        None
    } else {
        match find_first(names.drop_last(), n) {
            Some(j) => Some(j),
            None => if names.last() == n {
                Some(names.len() - 1)
            } else {
                None
            },
        }
    }
}

pub proof fn lemma_find_first(names: Seq<Seq<char>>, n: Seq<char>)
    ensures
        find_first(names, n) matches Some(j) ==> 0 <= j < names.len() && names[j] == n && forall|
            x: int,
        | 0 <= x < j ==> names[x] != n,
        find_first(names, n) is None ==> forall|x: int| 0 <= x < names.len() ==> names[x] != n,
    decreases names.len(),
{
    if names.len() > 0 {
        let d = names.drop_last();
        lemma_find_first(d, n);
        assert forall|x: int| 0 <= x < d.len() implies d[x] == names[x] by {}
    }
}

pub fn find_first_str(names: &Vec<String>, n: &str) -> (r: Option<usize>)
    ensures
        match r {
            Some(j) => find_first(strs(names@), n@) == Some(j as int),
            None => find_first(strs(names@), n@) is None,
        },
{
    let mut i: usize = 0;
    while i < names.len()
        invariant
            i <= names@.len(),
            forall|x: int| 0 <= x < i ==> names@[x]@ != n@,
        decreases names.len() - i,
    {
        if str_eq(names[i].as_str(), n) {
            proof {
                lemma_find_first(strs(names@), n@);
                let f = find_first(strs(names@), n@);
                if f is None {
                    assert(strs(names@)[i as int] == n@);
                } else {
                    assert(f->0 >= i as int) by {
                        if f->0 < i as int {
                            assert(strs(names@)[f->0] == n@);
                        }
                    }
                    if f->0 > i as int {
                        assert(strs(names@)[i as int] == n@);
                    }
                }
            }
            return Some(i);
        }
        i = i + 1;
    }
    proof {
        lemma_find_first(strs(names@), n@);
        if find_first(strs(names@), n@) is Some {
            let j = find_first(strs(names@), n@)->0;
            assert(strs(names@)[j] == n@);
        }
    }
    None
}

pub open spec fn unknown_path(entity: Seq<char>, key: Seq<char>) -> ResolveErrorView {
    ResolveErrorView::UnknownPropertyPath { entity, key_path: key }
}

/// The segments of a key path after the first, walked from a property of
/// type `ty`: each must name a property of the complex type reached so far.
pub open spec fn spec_key_tail(
    s: Seq<csdl::SchemaElement>,
    ns: Seq<char>,
    al: Seq<(Seq<char>, Seq<char>)>,
    entity: Seq<char>,
    key: Seq<char>,
    ty: ResolvedType,
    segs: Seq<Seq<char>>,
    fuel: nat,
) -> Result<(), ResolveErrorView>
    decreases segs.len(),
{
    if segs.len() == 0 {
        Ok(())
    } else {
        match ty {
            ResolvedType::Complex(c) => if c < of_kind(s, 1).len() {
                match spec_members(s, ns, al, 1, spec_name(of_kind(s, 1)[c as int]), Seq::empty(), fuel) {
                    Err(x) => Err(x),
                    Ok(cm) => match find_first(cm.prop_names, segs[0]) {
                        None => Err(unknown_path(entity, key)),
                        Some(j) => spec_key_tail(
                            s,
                            ns,
                            al,
                            entity,
                            key,
                            cm.prop_types[j],
                            segs.drop_first(),
                            fuel,
                        ),
                    },
                }
            } else {
                Err(unknown_path(entity, key))
            },
            _ => Err(unknown_path(entity, key)),
        }
    }
}

/// A declared key path names a property of the entity type, then properties
/// of the complex types it goes through.
pub open spec fn spec_key_path(
    s: Seq<csdl::SchemaElement>,
    ns: Seq<char>,
    al: Seq<(Seq<char>, Seq<char>)>,
    entity: Seq<char>,
    members: Members,
    key: Seq<char>,
    fuel: nat,
) -> Result<(), ResolveErrorView> {
    let segs = path_segments(key);
    if segs.len() == 0 {
        Err(unknown_path(entity, key))
    } else {
        match find_first(members.prop_names, segs[0]) {
            None => Err(unknown_path(entity, key)),
            Some(j) => spec_key_tail(
                s,
                ns,
                al,
                entity,
                key,
                members.prop_types[j],
                segs.drop_first(),
                fuel,
            ),
        }
    }
}

/// Every declared key path of the entity type checks out; else the first
/// failure.
pub open spec fn spec_key_paths(
    s: Seq<csdl::SchemaElement>,
    ns: Seq<char>,
    al: Seq<(Seq<char>, Seq<char>)>,
    entity: Seq<char>,
    members: Members,
    keys: Seq<Seq<char>>,
    fuel: nat,
) -> Result<(), ResolveErrorView>
    decreases keys.len(),
{
    if keys.len() == 0 {
        Ok(())
    } else {
        match spec_key_paths(s, ns, al, entity, members, keys.drop_last(), fuel) {
            Err(x) => Err(x),
            Ok(()) => spec_key_path(s, ns, al, entity, members, keys.last(), fuel),
        }
    }
}

pub open spec fn unit_rv(r: Result<(), ResolveError>) -> Result<(), ResolveErrorView> {
    match r {
        Ok(()) => Ok(()),
        Err(e) => Err(e@),
    }
}

fn key_tail(
    elems: &Vec<csdl::SchemaElement>,
    ns: &str,
    al: &Vec<(String, String)>,
    entity: &str,
    key: &str,
    ty: ResolvedType,
    segs: &Vec<String>,
    start: usize,
    fuel: usize,
) -> (r: Result<(), ResolveError>)
    requires
        start <= segs@.len(),
    ensures
        unit_rv(r) == spec_key_tail(
            elems@,
            ns@,
            aliases_view(al@),
            entity@,
            key@,
            ty,
            strs(segs@).skip(start as int),
            fuel as nat,
        ),
    decreases segs@.len() - start,
{
    let ghost rest = strs(segs@).skip(start as int);
    if start == segs.len() {
        return Ok(());
    }
    proof {
        assert(rest[0] == segs@[start as int]@);
        assert(rest.drop_first() =~= strs(segs@).skip(start + 1));
    }
    match ty {
        ResolvedType::Complex(c) => {
            match nth_of_kind(elems, 1, c) {
                None => Err(
                    ResolveError::UnknownPropertyPath { entity: owned(entity), key_path: owned(key) },
                ),
                Some(ci) => {
                    let mut visiting: Vec<String> = Vec::new();
                    proof {
                        assert(strs(visiting@) =~= Seq::<Seq<char>>::empty());
                    }
                    let cname = element_name(&elems[ci]);
                    match resolve_members(elems, ns, al, 1, cname.as_str(), &mut visiting, fuel) {
                        Err(x) => Err(x),
                        Ok(cm) => match find_first_str(&cm.prop_names, segs[start].as_str()) {
                            None => Err(
                                ResolveError::UnknownPropertyPath {
                                    entity: owned(entity),
                                    key_path: owned(key),
                                },
                            ),
                            Some(j) => {
                                proof {
                                    lemma_find_first(strs(cm.prop_names@), segs@[start as int]@);
                                    assert(cm.prop_types@.len() == strs(cm.prop_names@).len())
                                        by {
                                        lemma_members_lengths(elems@, ns@, aliases_view(al@), 1, cname@, Seq::empty(), fuel as nat);
                                    }
                                }
                                key_tail(
                                    elems,
                                    ns,
                                    al,
                                    entity,
                                    key,
                                    cm.prop_types[j],
                                    segs,
                                    start + 1,
                                    fuel,
                                )
                            },
                        },
                    }
                },
            }
        },
        _ => Err(ResolveError::UnknownPropertyPath { entity: owned(entity), key_path: owned(key) }),
    }
}

/// The members computed for a type have as many names as references, types
/// and targets.
pub proof fn lemma_members_lengths(
    s: Seq<csdl::SchemaElement>,
    ns: Seq<char>,
    al: Seq<(Seq<char>, Seq<char>)>,
    k: u8,
    name: Seq<char>,
    visiting: Seq<Seq<char>>,
    fuel: nat,
)
    ensures
        spec_members(s, ns, al, k, name, visiting, fuel) matches Ok(m) ==> {
            &&& m.props.len() == m.prop_names.len()
            &&& m.prop_types.len() == m.prop_names.len()
            &&& m.navs.len() == m.nav_names.len()
            &&& m.nav_targets.len() == m.nav_names.len()
        },
    decreases fuel,
{
    if !visiting.contains(name) {
        if let Some(i) = last_index(s, k, name) {
            let e = s[i];
            if let Some(b) = st_base(e) {
                if let Some(bn) = spec_unqualify(b@, ns, al) {
                    if fuel > 0 {
                        lemma_members_lengths(s, ns, al, k, bn, visiting.push(name), (fuel - 1) as nat);
                    }
                }
            }
            lemma_property_types_len(st_props(e), s, ns, al);
            lemma_navigation_targets_len(st_navs(e), s, ns, al);
        }
    }
}

pub proof fn lemma_property_types_len(
    props: Seq<csdl::Property>,
    s: Seq<csdl::SchemaElement>,
    ns: Seq<char>,
    al: Seq<(Seq<char>, Seq<char>)>,
)
    ensures
        spec_property_types(props, s, ns, al) matches Ok(t) ==> t.len() == props.len(),
    decreases props.len(),
{
    if props.len() > 0 {
        lemma_property_types_len(props.drop_last(), s, ns, al);
    }
}

pub proof fn lemma_navigation_targets_len(
    navs: Seq<csdl::NavigationProperty>,
    s: Seq<csdl::SchemaElement>,
    ns: Seq<char>,
    al: Seq<(Seq<char>, Seq<char>)>,
)
    ensures
        spec_navigation_targets(navs, s, ns, al) matches Ok(t) ==> t.len() == navs.len(),
    decreases navs.len(),
{
    if navs.len() > 0 {
        lemma_navigation_targets_len(navs.drop_last(), s, ns, al);
    }
}

fn key_path(
    elems: &Vec<csdl::SchemaElement>,
    ns: &str,
    al: &Vec<(String, String)>,
    entity: &str,
    members: &ResolvedMembers,
    key: &str,
    fuel: usize,
) -> (r: Result<(), ResolveError>)
    requires
        members.prop_types@.len() == members.prop_names@.len(),
    ensures
        unit_rv(r) == spec_key_path(elems@, ns@, aliases_view(al@), entity@, members.spec_view(), key@, fuel as nat),
{
    let segs = split_path(key);
    if segs.len() == 0 {
        return Err(ResolveError::UnknownPropertyPath { entity: owned(entity), key_path: owned(key) });
    }
    match find_first_str(&members.prop_names, segs[0].as_str()) {
        None => Err(ResolveError::UnknownPropertyPath { entity: owned(entity), key_path: owned(key) }),
        Some(j) => {
            proof {
                lemma_find_first(strs(members.prop_names@), segs@[0]@);
                assert(strs(segs@).skip(1) =~= path_segments(key@).drop_first());
            }
            key_tail(elems, ns, al, entity, key, members.prop_types[j], &segs, 1, fuel)
        },
    }
}

/// Checks every declared key path of an entity type against its effective
/// members.
pub fn validate_entity_key_paths(
    elems: &Vec<csdl::SchemaElement>,
    ns: &str,
    al: &Vec<(String, String)>,
    entity: &csdl::EntityType,
    members: &ResolvedMembers,
    fuel: usize,
) -> (r: Result<(), ResolveError>)
    requires
        members.prop_types@.len() == members.prop_names@.len(),
    ensures
        unit_rv(r) == spec_key_paths(
            elems@,
            ns@,
            aliases_view(al@),
            entity.name@,
            members.spec_view(),
            st_keys(csdl::SchemaElement::EntityType(*entity)),
            fuel as nat,
        ),
{
    let ghost keys = st_keys(csdl::SchemaElement::EntityType(*entity));
    match &entity.key {
        None => {
            return Ok(());
        },
        Some(k) => {
            let mut i: usize = 0;
            while i < k.property_refs.len()
                invariant
                    i <= k.property_refs@.len(),
                    members.prop_types@.len() == members.prop_names@.len(),
                    keys == k.property_refs@.map_values(|r: csdl::PropertyRef| r.name@),
                    keys == st_keys(csdl::SchemaElement::EntityType(*entity)),
                    spec_key_paths(
                        elems@,
                        ns@,
                        aliases_view(al@),
                        entity.name@,
                        members.spec_view(),
                        keys.take(i as int),
                        fuel as nat,
                    ) == Ok::<(), ResolveErrorView>(()),
                decreases k.property_refs.len() - i,
            {
                proof {
                    assert(keys.take(i + 1).drop_last() =~= keys.take(i as int));
                    assert(keys.take(i + 1).last() == k.property_refs@[i as int].name@);
                }
                match key_path(elems, ns, al, entity.name.as_str(), members, k.property_refs[i].name.as_str(), fuel) {
                    Err(x) => {
                        proof {
                            assert(spec_key_paths(elems@, ns@, aliases_view(al@), entity.name@, members.spec_view(), keys.take(i + 1), fuel as nat) == Err::<(), ResolveErrorView>(x@));
                            lemma_key_paths_err(elems@, ns@, aliases_view(al@), entity.name@, members.spec_view(), keys, i + 1, fuel as nat);
                        }
                        return Err(x);
                    },
                    Ok(()) => {},
                }
                i = i + 1;
            }
            proof {
                assert(keys.take(keys.len() as int) =~= keys);
            }
            Ok(())
        },
    }
}

proof fn lemma_key_paths_err(
    s: Seq<csdl::SchemaElement>,
    ns: Seq<char>,
    al: Seq<(Seq<char>, Seq<char>)>,
    entity: Seq<char>,
    members: Members,
    keys: Seq<Seq<char>>,
    i: int,
    fuel: nat,
)
    requires
        0 <= i <= keys.len(),
        spec_key_paths(s, ns, al, entity, members, keys.take(i), fuel) is Err,
    ensures
        spec_key_paths(s, ns, al, entity, members, keys, fuel) == spec_key_paths(
            s,
            ns,
            al,
            entity,
            members,
            keys.take(i),
            fuel,
        ),
    decreases keys.len() - i,
{
    if i < keys.len() {
        assert(keys.take(i + 1).drop_last() =~= keys.take(i));
        lemma_key_paths_err(s, ns, al, entity, members, keys, i + 1, fuel);
    } else {
        assert(keys.take(i) =~= keys);
    }
}

} // verus!
