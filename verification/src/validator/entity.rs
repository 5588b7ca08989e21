//! Rules on entity types, terms and operations: navigation partners,
//! referential constraints, keys, base-term cycles, binding parameters and
//! entity set paths.

use vstd::prelude::*;

use crate::edm::{
    BindingPathSegment, EntitySetPathSegment, EntityType, KeyPathSegment, MemberRef, Model,
    OperationParameter, Property, ResolvedType, Term, key_path_to_string, binding_path_to_string,
    entity_set_path_to_string, navigation_at, property_at, spec_binding_path_string,
    spec_entity_set_path_string, spec_key_path_string,
};
use crate::text::{owned, str_eq, strs};
use crate::validator::names::{collect_member_names, property_names};
use crate::validator::{ValidationError, ValidationErrorView, errs, report};

verus! {

// ---------------------------------------------------------------------------
// Navigation partners
// ---------------------------------------------------------------------------

/// A partner path resolves to a navigation property: no segment is left
/// unresolved and the last one is a navigation property.
pub open spec fn partner_resolved(p: Seq<BindingPathSegment>) -> bool {
    &&& forall|j: int| 0 <= j < p.len() ==> !((#[trigger] p[j]) is Unresolved)
    &&& p.len() > 0
    &&& p.last() is NavigationProperty
}

pub open spec fn partner_error(m: Model, entity: Seq<char>, r: MemberRef) -> Seq<ValidationErrorView> {
    match navigation_at(m, r) {
        None => Seq::empty(),
        Some(n) => match n.partner {
            None => Seq::empty(),
            Some(p) => if n.target >= m.entity_types@.len() || partner_resolved(p@) {
                Seq::empty()
            } else {
                seq![
                    ValidationErrorView::UnknownNavigationPartner {
                        entity,
                        navigation: n.name@,
                        partner: spec_binding_path_string(p@, m),
                        target_entity: m.entity_types@[n.target as int].name@,
                    },
                ]
            },
        },
    }
}

/// Every navigation property whose partner does not resolve to a
/// navigation property of its target type.
pub open spec fn partner_errors(m: Model, entity: Seq<char>, navs: Seq<MemberRef>) -> Seq<
    ValidationErrorView,
>
    decreases navs.len(),
{
    if navs.len() == 0 {
        Seq::empty()
    } else {
        partner_errors(m, entity, navs.drop_last()) + partner_error(m, entity, navs.last())
    }
}

fn partner_is_resolved(p: &Vec<BindingPathSegment>) -> (r: bool)
    ensures
        r == partner_resolved(p@),
{
    let mut i: usize = 0;
    while i < p.len()
        invariant
            i <= p@.len(),
            forall|j: int| 0 <= j < i ==> !((#[trigger] p@[j]) is Unresolved),
        decreases p.len() - i,
    {
        if let BindingPathSegment::Unresolved(_) = &p[i] {
            return false;
        }
        i = i + 1;
    }
    if p.len() == 0 {
        return false;
    }
    match &p[p.len() - 1] {
        BindingPathSegment::NavigationProperty(_) => true,
        _ => false,
    }
}

/// The navigation partner rule on an entity type.
pub fn check_partners(m: &Model, e: &EntityType, out: &mut Vec<ValidationError>)
    ensures
        errs(final(out)@) == errs(old(out)@) + partner_errors(*m, e.name@, e.navigation_properties@),
{
    let ghost base = errs(out@);
    let ghost navs = e.navigation_properties@;
    let mut i: usize = 0;
    proof {
        assert(base + partner_errors(*m, e.name@, navs.take(0)) =~= base);
    }
    while i < e.navigation_properties.len()
        invariant
            i <= navs.len(),
            navs == e.navigation_properties@,
            base == errs(old(out)@),
            errs(out@) == base + partner_errors(*m, e.name@, navs.take(i as int)),
        decreases e.navigation_properties.len() - i,
    {
        proof {
            assert(navs.take(i + 1).drop_last() =~= navs.take(i as int));
            assert(navs.take(i + 1).last() == navs[i as int]);
        }
        let ghost before = errs(out@);
        match m.navigation(&e.navigation_properties[i]) {
            None => {},
            Some(n) => match &n.partner {
                None => {},
                Some(p) => {
                    if n.target < m.entity_types.len() && !partner_is_resolved(p) {
                        report(
                            out,
                            ValidationError::UnknownNavigationPartner {
                                entity: owned(e.name.as_str()),
                                navigation: owned(n.name.as_str()),
                                partner: binding_path_to_string(p, m),
                                target_entity: owned(m.entity_types[n.target].name.as_str()),
                            },
                        );
                    }
                },
            },
        }
        proof {
            assert(errs(out@) =~= before + partner_error(*m, e.name@, navs[i as int]));
        }
        i = i + 1;
    }
    proof {
        assert(navs.take(navs.len() as int) =~= navs);
    }
}

// ---------------------------------------------------------------------------
// Referential constraints
// ---------------------------------------------------------------------------

pub open spec fn constraint_errors_of(
    m: Model,
    entity: Seq<char>,
    own: Seq<Seq<char>>,
    n: crate::edm::NavigationProperty,
    cs: Seq<crate::edm::ReferentialConstraint>,
) -> Seq<ValidationErrorView>
    decreases cs.len(),
{
    if cs.len() == 0 {
        Seq::empty()
    } else {
        let c = cs.last();
        let target = m.entity_types@[n.target as int];
        let theirs = property_names(m, target.properties@);
        let a = if own.contains(c.property@) {
            Seq::empty()
        } else {
            seq![
                ValidationErrorView::UnknownReferentialConstraintProperty {
                    entity,
                    navigation: n.name@,
                    property: c.property@,
                },
            ]
        };
        let b = if theirs.contains(c.referenced_property@) {
            Seq::empty()
        } else {
            seq![
                ValidationErrorView::UnknownReferentialConstraintReferencedProperty {
                    entity,
                    navigation: n.name@,
                    target_entity: target.name@,
                    referenced_property: c.referenced_property@,
                },
            ]
        };
        constraint_errors_of(m, entity, own, n, cs.drop_last()) + a + b
    }
}

pub open spec fn constraint_error(
    m: Model,
    entity: Seq<char>,
    own: Seq<Seq<char>>,
    r: MemberRef,
) -> Seq<ValidationErrorView> {
    match navigation_at(m, r) {
        None => Seq::empty(),
        Some(n) => if n.target >= m.entity_types@.len() {
            Seq::empty()
        } else {
            constraint_errors_of(m, entity, own, n, n.referential_constraints@)
        },
    }
}

/// Every referential constraint naming a property the entity type, or the
/// navigation's target type, does not have.
pub open spec fn constraint_errors(
    m: Model,
    entity: Seq<char>,
    own: Seq<Seq<char>>,
    navs: Seq<MemberRef>,
) -> Seq<ValidationErrorView>
    decreases navs.len(),
{
    if navs.len() == 0 {
        Seq::empty()
    } else {
        constraint_errors(m, entity, own, navs.drop_last()) + constraint_error(m, entity, own, navs.last())
    }
}

fn contains_name(v: &Vec<String>, s: &str) -> (r: bool)
    ensures
        r == strs(v@).contains(s@),
{
    crate::resolver::inherit::contains_str(v, s)
}

fn property_names_of(m: &Model, refs: &Vec<MemberRef>) -> (r: Vec<String>)
    ensures
        strs(r@) == property_names(*m, refs@),
{
    let none: Vec<MemberRef> = Vec::new();
    let r = collect_member_names(m, refs, &none);
    proof {
        assert(none@ =~= Seq::<MemberRef>::empty());
        assert(crate::validator::names::navigation_names(*m, none@) =~= Seq::<Seq<char>>::empty());
        assert(property_names(*m, refs@) + Seq::<Seq<char>>::empty() =~= property_names(*m, refs@));
    }
    r
}

/// The referential constraint rule on an entity type.
pub fn check_constraints(m: &Model, e: &EntityType, out: &mut Vec<ValidationError>)
    ensures
        errs(final(out)@) == errs(old(out)@) + constraint_errors(
            *m,
            e.name@,
            property_names(*m, e.properties@),
            e.navigation_properties@,
        ),
{
    let own = property_names_of(m, &e.properties);
    let ghost ownv = strs(own@);
    let ghost base = errs(out@);
    let ghost navs = e.navigation_properties@;
    let mut i: usize = 0;
    proof {
        assert(base + constraint_errors(*m, e.name@, ownv, navs.take(0)) =~= base);
    }
    while i < e.navigation_properties.len()
        invariant
            i <= navs.len(),
            navs == e.navigation_properties@,
            ownv == strs(own@),
            ownv == property_names(*m, e.properties@),
            base == errs(old(out)@),
            errs(out@) == base + constraint_errors(*m, e.name@, ownv, navs.take(i as int)),
        decreases e.navigation_properties.len() - i,
    {
        proof {
            assert(navs.take(i + 1).drop_last() =~= navs.take(i as int));
            assert(navs.take(i + 1).last() == navs[i as int]);
        }
        let ghost before = errs(out@);
        match m.navigation(&e.navigation_properties[i]) {
            None => {},
            Some(n) => {
                if n.target < m.entity_types.len() {
                    let target = &m.entity_types[n.target];
                    let theirs = property_names_of(m, &target.properties);
                    let ghost cs = n.referential_constraints@;
                    let mut j: usize = 0;
                    proof {
                        assert(before + constraint_errors_of(*m, e.name@, ownv, *n, cs.take(0)) =~= before);
                    }
                    while j < n.referential_constraints.len()
                        invariant
                            j <= cs.len(),
                            cs == n.referential_constraints@,
                            ownv == strs(own@),
                            n.target < m.entity_types@.len(),
                            *target == m.entity_types@[n.target as int],
                            strs(theirs@) == property_names(*m, target.properties@),
                            errs(out@) == before + constraint_errors_of(*m, e.name@, ownv, *n, cs.take(j as int)),
                        decreases n.referential_constraints.len() - j,
                    {
                        proof {
                            assert(cs.take(j + 1).drop_last() =~= cs.take(j as int));
                            assert(cs.take(j + 1).last() == cs[j as int]);
                        }
                        let c = &n.referential_constraints[j];
                        let ghost mid = errs(out@);
                        if !contains_name(&own, c.property.as_str()) {
                            report(
                                out,
                                ValidationError::UnknownReferentialConstraintProperty {
                                    entity: owned(e.name.as_str()),
                                    navigation: owned(n.name.as_str()),
                                    property: owned(c.property.as_str()),
                                },
                            );
                        }
                        let ghost mid2 = errs(out@);
                        if !contains_name(&theirs, c.referenced_property.as_str()) {
                            report(
                                out,
                                ValidationError::UnknownReferentialConstraintReferencedProperty {
                                    entity: owned(e.name.as_str()),
                                    navigation: owned(n.name.as_str()),
                                    target_entity: owned(target.name.as_str()),
                                    referenced_property: owned(c.referenced_property.as_str()),
                                },
                            );
                        }
                        proof {
                            let ex = constraint_errors_of(*m, e.name@, ownv, *n, cs.take(j + 1));
                            assert(errs(out@) =~= before + ex);
                        }
                        j = j + 1;
                    }
                    proof {
                        assert(cs.take(cs.len() as int) =~= cs);
                    }
                }
            },
        }
        proof {
            assert(errs(out@) =~= before + constraint_error(*m, e.name@, ownv, navs[i as int]));
        }
        i = i + 1;
    }
    proof {
        assert(navs.take(navs.len() as int) =~= navs);
    }
}

// ---------------------------------------------------------------------------
// Keys
// ---------------------------------------------------------------------------

/// What a key path ends at: 0 nothing known, 1 a scalar, 2 a complex value,
/// 3 a collection.
pub open spec fn classify_from(m: Model, key: Seq<KeyPathSegment>, terminal: Option<Property>) -> u8
    decreases key.len(),
{
    if key.len() == 0 {
        match terminal {
            None => 0,
            Some(p) => match p.ty {
                ResolvedType::Complex(_) => 2,
                _ => 1,
            },
        }
    } else {
        match key[0] {
            KeyPathSegment::Unresolved(_) => 0,
            KeyPathSegment::Property(r) => match property_at(m, r) {
                None => 0,
                Some(p) => if p.is_collection {
                    3
                } else {
                    classify_from(m, key.drop_first(), Some(p))
                },
            },
        }
    }
}

pub open spec fn classify(m: Model, key: Seq<KeyPathSegment>) -> u8 {
    classify_from(m, key, None)
}

/// The property a key segment names in the model, if it names a live one.
pub open spec fn live_segment(m: Model, seg: KeyPathSegment) -> Option<Property> {
    match seg {
        KeyPathSegment::Property(r) => property_at(m, r),
        KeyPathSegment::Unresolved(_) => None,
    }
}

/// The segment names a live single-valued property.
pub open spec fn single_segment(m: Model, seg: KeyPathSegment) -> bool {
    match live_segment(m, seg) {
        Some(p) => !p.is_collection,
        None => false,
    }
}

/// The segment names a live collection-valued property.
pub open spec fn collection_segment(m: Model, seg: KeyPathSegment) -> bool {
    match live_segment(m, seg) {
        Some(p) => p.is_collection,
        None => false,
    }
}

/// The class a path of single-valued properties has by its last property.
pub open spec fn terminal_class(p: Option<Property>) -> u8 {
    match p {
        None => 0,
        Some(q) => match q.ty {
            ResolvedType::Complex(_) => 2,
            _ => 1,
        },
    }
}

/// Every segment before `j` names a live single-valued property.
pub open spec fn plain_prefix(m: Model, key: Seq<KeyPathSegment>, j: int) -> bool {
    forall|i: int| 0 <= i < j ==> #[trigger] single_segment(m, key[i])
}

/// How a key path is classified, scanning it from the left: the first
/// segment that is unresolved or names no live property makes it unknown
/// (0), the first collection-valued property makes it a collection (3),
/// whichever comes first; past a path of single-valued properties, the
/// empty path is unknown, one ending in a complex-typed property is complex
/// (2), and any other is scalar (1).
pub proof fn lemma_classify_scan(m: Model, key: Seq<KeyPathSegment>)
    ensures
        forall|j: int|
            #![trigger key[j]]
            0 <= j < key.len() && plain_prefix(m, key, j) ==> (collection_segment(m, key[j]) ==> classify(m, key) == 3)
                && (live_segment(m, key[j]) is None ==> classify(m, key) == 0),
        plain_prefix(m, key, key.len() as int) ==> classify(m, key) == if key.len() == 0 {
            0
        } else {
            terminal_class(live_segment(m, key.last()))
        },
{
    lemma_classify_from_scan(m, key, None);
}

proof fn lemma_classify_from_scan(m: Model, key: Seq<KeyPathSegment>, t: Option<Property>)
    ensures
        forall|j: int|
            #![trigger key[j]]
            0 <= j < key.len() && plain_prefix(m, key, j) ==> (collection_segment(m, key[j]) ==> classify_from(m, key, t)
                == 3) && (live_segment(m, key[j]) is None ==> classify_from(m, key, t) == 0),
        plain_prefix(m, key, key.len() as int) ==> classify_from(m, key, t) == if key.len() == 0 {
            terminal_class(t)
        } else {
            terminal_class(live_segment(m, key.last()))
        },
    decreases key.len(),
{
    if key.len() > 0 {
        let rest = key.drop_first();
        if single_segment(m, key[0]) {
            let p = live_segment(m, key[0])->0;
            lemma_classify_from_scan(m, rest, Some(p));
            assert forall|j: int|
                #![trigger key[j]]
                0 <= j < key.len() && plain_prefix(m, key, j) implies (collection_segment(m, key[j])
                    ==> classify_from(m, key, t) == 3) && (live_segment(m, key[j]) is None ==> classify_from(m, key, t)
                    == 0) by {
                if j > 0 {
                    assert(rest[j - 1] == key[j]);
                    assert forall|i: int| 0 <= i < j - 1 implies #[trigger] single_segment(m, rest[i]) by {
                        assert(rest[i] == key[i + 1]);
                        assert(single_segment(m, key[i + 1]));
                    }
                    assert(plain_prefix(m, rest, j - 1));
                } else {
                    assert(single_segment(m, key[0]));
                }
            }
            if plain_prefix(m, key, key.len() as int) {
                assert forall|i: int| 0 <= i < rest.len() implies #[trigger] single_segment(m, rest[i]) by {
                    assert(rest[i] == key[i + 1]);
                    assert(single_segment(m, key[i + 1]));
                }
                assert(plain_prefix(m, rest, rest.len() as int));
                if rest.len() > 0 {
                    assert(rest.last() == key.last());
                }
            }
        } else {
            assert(!plain_prefix(m, key, key.len() as int)) by {
                assert(!single_segment(m, key[0]));
            }
            assert forall|j: int|
                #![trigger key[j]]
                0 <= j < key.len() && plain_prefix(m, key, j) implies (collection_segment(m, key[j])
                    ==> classify_from(m, key, t) == 3) && (live_segment(m, key[j]) is None ==> classify_from(m, key, t)
                    == 0) by {
                if j > 0 {
                    assert(single_segment(m, key[0]));
                }
            }
        }
    }
}

pub fn classify_key(m: &Model, key: &Vec<KeyPathSegment>) -> (r: u8)
    ensures
        r == classify(*m, key@),
{
    let mut terminal: Option<&Property> = None;
    let mut i: usize = 0;
    proof {
        assert(key@.skip(0) =~= key@);
    }
    while i < key.len()
        invariant
            i <= key@.len(),
            classify(*m, key@) == classify_from(*m, key@.skip(i as int), match terminal {
                Some(p) => Some(*p),
                None => None,
            }),
        decreases key.len() - i,
    {
        proof {
            assert(key@.skip(i as int)[0] == key@[i as int]);
            assert(key@.skip(i as int).drop_first() =~= key@.skip(i + 1));
        }
        match &key[i] {
            KeyPathSegment::Unresolved(_) => {
                return 0;
            },
            KeyPathSegment::Property(r) => match m.property(r) {
                None => {
                    return 0;
                },
                Some(p) => {
                    if p.is_collection {
                        return 3;
                    }
                    terminal = Some(p);
                },
            },
        }
        i = i + 1;
    }
    proof {
        assert(key@.skip(i as int) =~= Seq::<KeyPathSegment>::empty());
    }
    match terminal {
        None => 0,
        Some(p) => match p.ty {
            ResolvedType::Complex(_) => 2,
            _ => 1,
        },
    }
}

pub open spec fn key_strings(m: Model, keys: Seq<Vec<KeyPathSegment>>) -> Seq<Seq<char>> {
    keys.map_values(|k: Vec<KeyPathSegment>| spec_key_path_string(k@, m))
}

/// Every key path that repeats an earlier one, at each repetition.
pub open spec fn duplicate_key_errors(entity: Seq<char>, ks: Seq<Seq<char>>) -> Seq<ValidationErrorView>
    decreases ks.len(),
{
    if ks.len() == 0 {
        Seq::empty()
    } else {
        let rest = duplicate_key_errors(entity, ks.drop_last());
        if ks.drop_last().contains(ks.last()) {
            rest.push(ValidationErrorView::DuplicateKey { entity, key: ks.last() })
        } else {
            rest
        }
    }
}

/// Key paths of the given classes, reported with `unknown` (class 0) or as
/// non-scalar (classes 2 and 3).
pub open spec fn key_class_errors(
    m: Model,
    entity: Seq<char>,
    keys: Seq<Vec<KeyPathSegment>>,
    unknown: bool,
) -> Seq<ValidationErrorView>
    decreases keys.len(),
{
    if keys.len() == 0 {
        Seq::empty()
    } else {
        let rest = key_class_errors(m, entity, keys.drop_last(), unknown);
        let k = keys.last()@;
        let c = classify(m, k);
        if unknown && c == 0 {
            rest.push(ValidationErrorView::UnknownKeyProperty { entity, key: spec_key_path_string(k, m) })
        } else if !unknown && (c == 2 || c == 3) {
            rest.push(
                ValidationErrorView::NonScalarKeyProperty { entity, key: spec_key_path_string(k, m) },
            )
        } else {
            rest
        }
    }
}

/// The duplicate key rule on an entity type.
pub fn check_duplicate_keys(m: &Model, e: &EntityType, out: &mut Vec<ValidationError>)
    ensures
        errs(final(out)@) == errs(old(out)@) + duplicate_key_errors(e.name@, key_strings(*m, e.keys@)),
{
    let ghost ks = key_strings(*m, e.keys@);
    let ghost base = errs(out@);
    let mut seen: Vec<String> = Vec::new();
    let mut i: usize = 0;
    proof {
        assert(base + duplicate_key_errors(e.name@, ks.take(0)) =~= base);
        assert(strs(seen@) =~= ks.take(0));
    }
    while i < e.keys.len()
        invariant
            i <= e.keys@.len(),
            ks == key_strings(*m, e.keys@),
            base == errs(old(out)@),
            strs(seen@) == ks.take(i as int),
            errs(out@) == base + duplicate_key_errors(e.name@, ks.take(i as int)),
        decreases e.keys.len() - i,
    {
        proof {
            assert(ks.take(i + 1).drop_last() =~= ks.take(i as int));
            assert(ks.take(i + 1).last() == ks[i as int]);
        }
        let k = key_path_to_string(&e.keys[i], m);
        let ghost so = seen@;
        if contains_name(&seen, k.as_str()) {
            report(out, ValidationError::DuplicateKey { entity: owned(e.name.as_str()), key: owned(k.as_str()) });
        }
        seen.push(k);
        proof {
            crate::text::lemma_strs_push(so, k);
            assert(strs(seen@) =~= ks.take(i + 1));
        }
        i = i + 1;
    }
    proof {
        assert(ks.take(ks.len() as int) =~= ks);
    }
}

/// The unknown key (`unknown`) or non-scalar key rule on an entity type.
pub fn check_key_classes(m: &Model, e: &EntityType, unknown: bool, out: &mut Vec<ValidationError>)
    ensures
        errs(final(out)@) == errs(old(out)@) + key_class_errors(*m, e.name@, e.keys@, unknown),
{
    let ghost keys = e.keys@;
    let ghost base = errs(out@);
    let mut i: usize = 0;
    proof {
        assert(base + key_class_errors(*m, e.name@, keys.take(0), unknown) =~= base);
    }
    while i < e.keys.len()
        invariant
            i <= keys.len(),
            keys == e.keys@,
            base == errs(old(out)@),
            errs(out@) == base + key_class_errors(*m, e.name@, keys.take(i as int), unknown),
        decreases e.keys.len() - i,
    {
        proof {
            assert(keys.take(i + 1).drop_last() =~= keys.take(i as int));
            assert(keys.take(i + 1).last() == keys[i as int]);
        }
        let c = classify_key(m, &e.keys[i]);
        if unknown && c == 0 {
            report(
                out,
                ValidationError::UnknownKeyProperty {
                    entity: owned(e.name.as_str()),
                    key: key_path_to_string(&e.keys[i], m),
                },
            );
        } else if !unknown && (c == 2 || c == 3) {
            report(
                out,
                ValidationError::NonScalarKeyProperty {
                    entity: owned(e.name.as_str()),
                    key: key_path_to_string(&e.keys[i], m),
                },
            );
        }
        i = i + 1;
    }
    proof {
        assert(keys.take(keys.len() as int) =~= keys);
    }
}

// ---------------------------------------------------------------------------
// Base terms
// ---------------------------------------------------------------------------

/// Following base terms from `cur` meets a name already in `seen`. The walk
/// is bounded by the number of terms: no chain of distinct names is longer.
pub open spec fn base_term_cycle(m: Model, seen: Seq<Seq<char>>, cur: Option<usize>, fuel: nat) -> bool
    decreases fuel,
{
    match cur {
        None => false,
        Some(i) => if i >= m.terms@.len() {
            false
        } else {
            let t = m.terms@[i as int];
            if seen.contains(t.name@) {
                true
            } else if fuel == 0 {
                true
            } else {
                base_term_cycle(m, seen.push(t.name@), t.base_term, (fuel - 1) as nat)
            }
        },
    }
}

pub open spec fn term_errors(m: Model, t: Term) -> Seq<ValidationErrorView> {
    if base_term_cycle(m, seq![t.name@], t.base_term, m.terms@.len()) {
        seq![ValidationErrorView::CyclicTermBaseTerm { term: t.name@ }]
    } else {
        Seq::empty()
    }
}

/// The base term cycle rule on a term.
pub fn check_term(m: &Model, t: &Term, out: &mut Vec<ValidationError>)
    ensures
        errs(final(out)@) == errs(old(out)@) + term_errors(*m, *t),
{
    let mut seen: Vec<String> = Vec::new();
    seen.push(owned(t.name.as_str()));
    proof {
        assert(strs(seen@) =~= seq![t.name@]);
    }
    let mut cur = t.base_term;
    let mut fuel: usize = m.terms.len();
    let ghost goal = base_term_cycle(*m, seq![t.name@], t.base_term, m.terms@.len());
    let mut cyclic = false;
    loop
        invariant_except_break
            goal == base_term_cycle(*m, strs(seen@), cur, fuel as nat),
            !cyclic,
        ensures
            goal == cyclic,
        decreases fuel,
    {
        let i = match cur {
            None => {
                break;
            },
            Some(i) => i,
        };
        if i >= m.terms.len() {
            break;
        }
        let next = &m.terms[i];
        if contains_name(&seen, next.name.as_str()) {
            cyclic = true;
            break;
        }
        if fuel == 0 {
            cyclic = true;
            break;
        }
        let ghost so = seen@;
        let n = owned(next.name.as_str());
        seen.push(n);
        proof {
            crate::text::lemma_strs_push(so, n);
        }
        cur = next.base_term;
        fuel = fuel - 1;
    }
    if cyclic {
        report(out, ValidationError::CyclicTermBaseTerm { term: owned(t.name.as_str()) });
    } else {
        proof {
            assert(errs(out@) =~= errs(out@) + Seq::<ValidationErrorView>::empty());
        }
    }
}

// ---------------------------------------------------------------------------
// Operations
// ---------------------------------------------------------------------------

pub open spec fn bound_errors(
    kind: Seq<char>,
    name: Seq<char>,
    is_bound: bool,
    params: Seq<OperationParameter>,
) -> Seq<ValidationErrorView> {
    if is_bound && params.len() == 0 {
        seq![ValidationErrorView::BoundOperationMissingBindingParameter { operation_kind: kind, operation: name }]
    } else {
        Seq::empty()
    }
}

/// The binding parameter rule on a function or action.
pub fn check_bound(
    kind: &'static str,
    name: &str,
    is_bound: bool,
    params: &Vec<OperationParameter>,
    out: &mut Vec<ValidationError>,
)
    ensures
        errs(final(out)@) == errs(old(out)@) + bound_errors(kind@, name@, is_bound, params@),
{
    if is_bound && params.len() == 0 {
        report(
            out,
            ValidationError::BoundOperationMissingBindingParameter { operation_kind: kind, operation: owned(name) },
        );
    } else {
        proof {
            assert(errs(out@) =~= errs(out@) + Seq::<ValidationErrorView>::empty());
        }
    }
}

pub open spec fn head_is_parameter(p: Seq<EntitySetPathSegment>, first: Seq<char>) -> bool {
    p.len() > 0 && match p[0] {
        EntitySetPathSegment::BindingParameter(n) => n@ == first,
        _ => false,
    }
}

pub open spec fn has_unresolved(p: Seq<EntitySetPathSegment>) -> bool {
    exists|j: int| 0 <= j < p.len() && (#[trigger] p[j]) is Unresolved
}

pub open spec fn entity_set_path_reason(
    is_bound: bool,
    params: Seq<OperationParameter>,
    p: Seq<EntitySetPathSegment>,
) -> Option<Seq<char>> {
    if !is_bound {
        Some("EntitySetPath requires a bound operation"@)
    } else if params.len() == 0 {
        Some("EntitySetPath requires a binding parameter"@)
    } else if !head_is_parameter(p, params[0].name@) {
        Some("EntitySetPath must start with the binding parameter name"@)
    } else if has_unresolved(p) {
        Some("EntitySetPath contains an unresolved segment"@)
    } else {
        None
    }
}

pub open spec fn entity_set_path_errors(
    m: Model,
    kind: Seq<char>,
    name: Seq<char>,
    is_bound: bool,
    params: Seq<OperationParameter>,
    path: Option<Vec<EntitySetPathSegment>>,
) -> Seq<ValidationErrorView> {
    match path {
        None => Seq::empty(),
        Some(p) => match entity_set_path_reason(is_bound, params, p@) {
            None => Seq::empty(),
            Some(reason) => seq![
                ValidationErrorView::InvalidEntitySetPath {
                    operation_kind: kind,
                    operation: name,
                    path: spec_entity_set_path_string(p@, m),
                    reason,
                },
            ],
        },
    }
}

fn reason_of(is_bound: bool, params: &Vec<OperationParameter>, p: &Vec<EntitySetPathSegment>) -> (r:
    Option<&'static str>)
    ensures
        match r {
            Some(x) => entity_set_path_reason(is_bound, params@, p@) == Some(x@),
            None => entity_set_path_reason(is_bound, params@, p@) is None,
        },
{
    if !is_bound {
        return Some("EntitySetPath requires a bound operation");
    }
    if params.len() == 0 {
        return Some("EntitySetPath requires a binding parameter");
    }
    let head = p.len() > 0 && match &p[0] {
        EntitySetPathSegment::BindingParameter(n) => str_eq(n.as_str(), params[0].name.as_str()),
        _ => false,
    };
    if !head {
        return Some("EntitySetPath must start with the binding parameter name");
    }
    let mut i: usize = 0;
    while i < p.len()
        invariant
            i <= p@.len(),
            is_bound,
            params@.len() > 0,
            head_is_parameter(p@, params@[0].name@),
            forall|j: int| 0 <= j < i ==> !((#[trigger] p@[j]) is Unresolved),
        decreases p.len() - i,
    {
        if let EntitySetPathSegment::Unresolved(_) = &p[i] {
            proof {
                assert(p@[i as int] is Unresolved);
                assert(has_unresolved(p@));
            }
            return Some("EntitySetPath contains an unresolved segment");
        }
        i = i + 1;
    }
    None
}

/// The entity set path rule on a function or action.
pub fn check_entity_set_path(
    m: &Model,
    kind: &'static str,
    name: &str,
    is_bound: bool,
    params: &Vec<OperationParameter>,
    path: &Option<Vec<EntitySetPathSegment>>,
    out: &mut Vec<ValidationError>,
)
    ensures
        errs(final(out)@) == errs(old(out)@) + entity_set_path_errors(
            *m,
            kind@,
            name@,
            is_bound,
            params@,
            *path,
        ),
{
    match path {
        None => {
            proof {
                assert(errs(out@) =~= errs(out@) + Seq::<ValidationErrorView>::empty());
            }
        },
        Some(p) => match reason_of(is_bound, params, p) {
            None => {
                proof {
                    assert(errs(out@) =~= errs(out@) + Seq::<ValidationErrorView>::empty());
                }
            },
            Some(reason) => {
                report(
                    out,
                    ValidationError::InvalidEntitySetPath {
                        operation_kind: kind,
                        operation: owned(name),
                        path: entity_set_path_to_string(p, m),
                        reason,
                    },
                );
            },
        },
    }
}

} // verus!
