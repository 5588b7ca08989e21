//! Rules on names that must be unique among siblings: schema elements,
//! members of a structured type, enum members, entity container elements.

use vstd::prelude::*;

use crate::edm::{
    EntityContainer, EntityContainerElement, EnumType, MemberRef, Model, SchemaElement,
    navigation_name, property_name,
};
use crate::text::{lemma_strs_push, owned, str_eq, strs};
use crate::validator::{ValidationError, ValidationErrorView, errs, report};

verus! {

/// How often `x` occurs in `s`.
pub open spec fn occurrences(s: Seq<Seq<char>>, x: Seq<char>) -> nat
    decreases s.len(),
{
    if s.len() == 0 {
        0
    } else {
        occurrences(s.drop_last(), x) + if s.last() == x {
            1nat
        } else {
            0nat
        }
    }
}

/// The names that repeat an earlier one, each reported once: at its second
/// occurrence.
pub open spec fn repeated(names: Seq<Seq<char>>) -> Seq<Seq<char>>
    decreases names.len(),
{
    if names.len() == 0 {
        Seq::empty()
    } else {
        let rest = repeated(names.drop_last());
        if occurrences(names.drop_last(), names.last()) == 1 {
            rest.push(names.last())
        } else {
            rest
        }
    }
}

proof fn lemma_occurs(names: Seq<Seq<char>>, a: int)
    requires
        0 <= a < names.len(),
    ensures
        occurrences(names, names[a]) >= 1,
    decreases names.len(),
{
    if a < names.len() - 1 {
        assert(names.drop_last()[a] == names[a]);
        lemma_occurs(names.drop_last(), a);
    }
}

proof fn lemma_occurs_twice(names: Seq<Seq<char>>, a: int, b: int)
    requires
        0 <= a < b < names.len(),
        names[a] == names[b],
    ensures
        occurrences(names, names[b]) >= 2,
    decreases names.len(),
{
    let d = names.drop_last();
    if b < names.len() - 1 {
        assert(d[a] == names[a] && d[b] == names[b]);
        lemma_occurs_twice(d, a, b);
    } else {
        assert(d[a] == names[a]);
        lemma_occurs(d, a);
    }
}

proof fn lemma_repeated_of_twice(names: Seq<Seq<char>>, x: Seq<char>)
    requires
        occurrences(names, x) >= 2,
    ensures
        repeated(names).contains(x),
    decreases names.len(),
{
    let d = names.drop_last();
    let rest = repeated(d);
    if occurrences(d, x) >= 2 {
        lemma_repeated_of_twice(d, x);
        let k = choose|k: int| 0 <= k < rest.len() && rest[k] == x;
        if occurrences(d, names.last()) == 1 {
            assert(rest.push(names.last())[k] == x);
        }
    } else {
        assert(names.last() == x);
        assert(repeated(names) == rest.push(x));
        assert(rest.push(x)[rest.len() as int] == x);
    }
}

/// A name that occurs twice among the names is reported as repeated.
pub proof fn lemma_repeated_contains(names: Seq<Seq<char>>, a: int, b: int)
    requires
        0 <= a < b < names.len(),
        names[a] == names[b],
    ensures
        repeated(names).contains(names[b]),
{
    lemma_occurs_twice(names, a, b);
    lemma_repeated_of_twice(names, names[b]);
}

pub open spec fn duplicate_errors(
    parent_kind: Seq<char>,
    parent: Seq<char>,
    child_kind: Seq<char>,
    names: Seq<Seq<char>>,
) -> Seq<ValidationErrorView> {
    repeated(names).map_values(
        |c: Seq<char>|
            ValidationErrorView::DuplicateChildName { parent_kind, parent, child_kind, child: c },
    )
}

fn count_before(names: &Vec<String>, i: usize) -> (r: usize)
    requires
        i < names@.len(),
    ensures
        r == occurrences(strs(names@).take(i as int), names@[i as int]@),
{
    let ghost s = strs(names@);
    let mut c: usize = 0;
    let mut j: usize = 0;
    while j < i
        invariant
            j <= i < names@.len(),
            s == strs(names@),
            c == occurrences(s.take(j as int), names@[i as int]@),
            c <= j,
        decreases i - j,
    {
        proof {
            assert(s.take(j + 1).drop_last() =~= s.take(j as int));
            assert(s.take(j + 1).last() == names@[j as int]@);
        }
        if str_eq(names[j].as_str(), names[i].as_str()) {
            c = c + 1;
        }
        j = j + 1;
    }
    c
}

/// Reports every name of `names` that repeats an earlier one, once per name.
pub fn report_duplicate_names(
    names: &Vec<String>,
    parent_kind: &'static str,
    parent: &str,
    child_kind: &'static str,
    out: &mut Vec<ValidationError>,
)
    ensures
        errs(final(out)@) == errs(old(out)@) + duplicate_errors(
            parent_kind@,
            parent@,
            child_kind@,
            strs(names@),
        ),
{
    let ghost s = strs(names@);
    let ghost base = errs(out@);
    let mut i: usize = 0;
    proof {
        assert(base + duplicate_errors(parent_kind@, parent@, child_kind@, s.take(0)) =~= base);
    }
    while i < names.len()
        invariant
            i <= names@.len(),
            s == strs(names@),
            base == errs(old(out)@),
            errs(out@) == base + duplicate_errors(parent_kind@, parent@, child_kind@, s.take(i as int)),
        decreases names.len() - i,
    {
        proof {
            assert(s.take(i + 1).drop_last() =~= s.take(i as int));
            assert(s.take(i + 1).last() == names@[i as int]@);
        }
        if count_before(names, i) == 1 {
            report(
                out,
                ValidationError::DuplicateChildName {
                    parent_kind,
                    parent: owned(parent),
                    child_kind,
                    child: owned(names[i].as_str()),
                },
            );
            proof {
                assert(repeated(s.take(i + 1)) == repeated(s.take(i as int)).push(names@[i as int]@));
                assert(duplicate_errors(parent_kind@, parent@, child_kind@, s.take(i + 1))
                    =~= duplicate_errors(parent_kind@, parent@, child_kind@, s.take(i as int)).push(
                    ValidationErrorView::DuplicateChildName {
                        parent_kind: parent_kind@,
                        parent: parent@,
                        child_kind: child_kind@,
                        child: names@[i as int]@,
                    },
                ));
            }
        } else {
            proof {
                assert(repeated(s.take(i + 1)) == repeated(s.take(i as int)));
            }
        }
        i = i + 1;
    }
    proof {
        assert(s.take(s.len() as int) =~= s);
    }
}

// ---------------------------------------------------------------------------
// Names of the model's parts
// ---------------------------------------------------------------------------

/// The name of the element a schema element reference points at.
pub open spec fn element_name(m: Model, e: SchemaElement) -> Option<Seq<char>> {
    match e {
        SchemaElement::EntityType(i) => if i < m.entity_types@.len() {
            Some(m.entity_types@[i as int].name@)
        } else {
            None
        },
        SchemaElement::ComplexType(i) => if i < m.complex_types@.len() {
            Some(m.complex_types@[i as int].name@)
        } else {
            None
        },
        SchemaElement::EnumType(i) => if i < m.enum_types@.len() {
            Some(m.enum_types@[i as int].name@)
        } else {
            None
        },
        SchemaElement::TypeDefinition(i) => if i < m.type_definitions@.len() {
            Some(m.type_definitions@[i as int].name@)
        } else {
            None
        },
        SchemaElement::Term(i) => if i < m.terms@.len() {
            Some(m.terms@[i as int].name@)
        } else {
            None
        },
        SchemaElement::Function(i) => if i < m.functions@.len() {
            Some(m.functions@[i as int].name@)
        } else {
            None
        },
        SchemaElement::Action(i) => if i < m.actions@.len() {
            Some(m.actions@[i as int].name@)
        } else {
            None
        },
    }
}

/// The names of the elements a list of references points at; a reference
/// that points at nothing is passed over.
pub open spec fn element_names(m: Model, es: Seq<SchemaElement>) -> Seq<Seq<char>>
    decreases es.len(),
{
    if es.len() == 0 {
        Seq::empty()
    } else {
        let rest = element_names(m, es.drop_last());
        match element_name(m, es.last()) {
            Some(n) => rest.push(n),
            None => rest,
        }
    }
}

/// The names of the structural properties a list of member references
/// points at.
pub open spec fn property_names(m: Model, rs: Seq<MemberRef>) -> Seq<Seq<char>>
    decreases rs.len(),
{
    if rs.len() == 0 {
        Seq::empty()
    } else {
        let rest = property_names(m, rs.drop_last());
        match property_name(m, rs.last()) {
            Some(n) => rest.push(n),
            None => rest,
        }
    }
}

pub open spec fn navigation_names(m: Model, rs: Seq<MemberRef>) -> Seq<Seq<char>>
    decreases rs.len(),
{
    if rs.len() == 0 {
        Seq::empty()
    } else {
        let rest = navigation_names(m, rs.drop_last());
        match navigation_name(m, rs.last()) {
            Some(n) => rest.push(n),
            None => rest,
        }
    }
}

pub open spec fn container_element_name(e: EntityContainerElement) -> Seq<char> {
    match e {
        EntityContainerElement::EntitySet(x) => x.name@,
        EntityContainerElement::Singleton(x) => x.name@,
        EntityContainerElement::FunctionImport(x) => x.name@,
        EntityContainerElement::ActionImport(x) => x.name@,
    }
}

fn name_of_element(m: &Model, e: SchemaElement) -> (r: Option<String>)
    ensures
        match r {
            Some(n) => element_name(*m, e) == Some(n@),
            None => element_name(*m, e) is None,
        },
{
    match e {
        SchemaElement::EntityType(i) => if i < m.entity_types.len() {
            Some(owned(m.entity_types[i].name.as_str()))
        } else {
            None
        },
        SchemaElement::ComplexType(i) => if i < m.complex_types.len() {
            Some(owned(m.complex_types[i].name.as_str()))
        } else {
            None
        },
        SchemaElement::EnumType(i) => if i < m.enum_types.len() {
            Some(owned(m.enum_types[i].name.as_str()))
        } else {
            None
        },
        SchemaElement::TypeDefinition(i) => if i < m.type_definitions.len() {
            Some(owned(m.type_definitions[i].name.as_str()))
        } else {
            None
        },
        SchemaElement::Term(i) => if i < m.terms.len() {
            Some(owned(m.terms[i].name.as_str()))
        } else {
            None
        },
        SchemaElement::Function(i) => if i < m.functions.len() {
            Some(owned(m.functions[i].name.as_str()))
        } else {
            None
        },
        SchemaElement::Action(i) => if i < m.actions.len() {
            Some(owned(m.actions[i].name.as_str()))
        } else {
            None
        },
    }
}

/// The names of the model's schema elements, in document order.
pub fn collect_element_names(m: &Model) -> (r: Vec<String>)
    ensures
        strs(r@) == element_names(*m, m.elements@),
{
    let ghost es = m.elements@;
    let mut out: Vec<String> = Vec::new();
    let mut i: usize = 0;
    while i < m.elements.len()
        invariant
            i <= es.len(),
            es == m.elements@,
            strs(out@) == element_names(*m, es.take(i as int)),
        decreases m.elements.len() - i,
    {
        proof {
            assert(es.take(i + 1).drop_last() =~= es.take(i as int));
            assert(es.take(i + 1).last() == es[i as int]);
        }
        match name_of_element(m, m.elements[i]) {
            Some(n) => {
                let ghost o = out@;
                out.push(n);
                proof {
                    lemma_strs_push(o, n);
                }
            },
            None => {},
        }
        i = i + 1;
    }
    proof {
        assert(es.take(es.len() as int) =~= es);
    }
    out
}

/// The names of the members a structured type's effective properties and
/// navigation properties refer to, properties first.
pub fn collect_member_names(m: &Model, props: &Vec<MemberRef>, navs: &Vec<MemberRef>) -> (r: Vec<
    String,
>)
    ensures
        strs(r@) == property_names(*m, props@) + navigation_names(*m, navs@),
{
    let mut out: Vec<String> = Vec::new();
    let mut i: usize = 0;
    while i < props.len()
        invariant
            i <= props@.len(),
            strs(out@) == property_names(*m, props@.take(i as int)),
        decreases props.len() - i,
    {
        proof {
            assert(props@.take(i + 1).drop_last() =~= props@.take(i as int));
            assert(props@.take(i + 1).last() == props@[i as int]);
        }
        match m.property(&props[i]) {
            Some(p) => {
                let ghost o = out@;
                let n = owned(p.name.as_str());
                out.push(n);
                proof {
                    lemma_strs_push(o, n);
                }
            },
            None => {},
        }
        i = i + 1;
    }
    proof {
        assert(props@.take(props@.len() as int) =~= props@);
    }
    let ghost first = strs(out@);
    let mut i: usize = 0;
    proof {
        assert(first + navigation_names(*m, navs@.take(0)) =~= first);
    }
    while i < navs.len()
        invariant
            i <= navs@.len(),
            strs(out@) == first + navigation_names(*m, navs@.take(i as int)),
        decreases navs.len() - i,
    {
        proof {
            assert(navs@.take(i + 1).drop_last() =~= navs@.take(i as int));
            assert(navs@.take(i + 1).last() == navs@[i as int]);
        }
        match m.navigation(&navs[i]) {
            Some(p) => {
                let ghost o = out@;
                let n = owned(p.name.as_str());
                out.push(n);
                proof {
                    lemma_strs_push(o, n);
                    assert(first + navigation_names(*m, navs@.take(i + 1)) =~= (first + navigation_names(
                        *m,
                        navs@.take(i as int),
                    )).push(n@));
                }
            },
            None => {},
        }
        i = i + 1;
    }
    proof {
        assert(navs@.take(navs@.len() as int) =~= navs@);
    }
    out
}

pub fn collect_enum_member_names(e: &EnumType) -> (r: Vec<String>)
    ensures
        strs(r@) == e.members@.map_values(|x: crate::edm::EnumMember| x.name@),
{
    let mut out: Vec<String> = Vec::new();
    let mut i: usize = 0;
    while i < e.members.len()
        invariant
            i <= e.members@.len(),
            strs(out@) == e.members@.take(i as int).map_values(|x: crate::edm::EnumMember| x.name@),
        decreases e.members.len() - i,
    {
        let ghost o = out@;
        let n = owned(e.members[i].name.as_str());
        out.push(n);
        proof {
            lemma_strs_push(o, n);
            assert(e.members@.take(i + 1) =~= e.members@.take(i as int).push(e.members@[i as int]));
            assert(strs(out@) =~= e.members@.take(i + 1).map_values(|x: crate::edm::EnumMember| x.name@));
        }
        i = i + 1;
    }
    proof {
        assert(e.members@.take(e.members@.len() as int) =~= e.members@);
    }
    out
}

pub fn container_element_name_of(e: &EntityContainerElement) -> (r: &String)
    ensures
        r@ == container_element_name(*e),
{
    match e {
        EntityContainerElement::EntitySet(x) => &x.name,
        EntityContainerElement::Singleton(x) => &x.name,
        EntityContainerElement::FunctionImport(x) => &x.name,
        EntityContainerElement::ActionImport(x) => &x.name,
    }
}

pub fn collect_container_names(c: &EntityContainer) -> (r: Vec<String>)
    ensures
        strs(r@) == c.elements@.map_values(|x: EntityContainerElement| container_element_name(x)),
{
    let mut out: Vec<String> = Vec::new();
    let mut i: usize = 0;
    while i < c.elements.len()
        invariant
            i <= c.elements@.len(),
            strs(out@) == c.elements@.take(i as int).map_values(
                |x: EntityContainerElement| container_element_name(x),
            ),
        decreases c.elements.len() - i,
    {
        let ghost o = out@;
        let n = owned(container_element_name_of(&c.elements[i]).as_str());
        out.push(n);
        proof {
            lemma_strs_push(o, n);
            assert(c.elements@.take(i + 1) =~= c.elements@.take(i as int).push(c.elements@[i as int]));
            assert(strs(out@) =~= c.elements@.take(i + 1).map_values(
                |x: EntityContainerElement| container_element_name(x),
            ));
        }
        i = i + 1;
    }
    proof {
        assert(c.elements@.take(c.elements@.len() as int) =~= c.elements@);
    }
    out
}

} // verus!
