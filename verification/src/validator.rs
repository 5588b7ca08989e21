//! Semantic validation of resolved models, kept apart from resolution.
//!
//! A model is checked by a fixed list of rules. The rules first look at the
//! model as a whole, then at each of its elements in document order, then at
//! its entity container; every finding is kept, in the order it is made.

use vstd::prelude::*;

pub mod names;
pub mod entity;
pub mod bindings;

use crate::edm::{DocumentModel, Model, SchemaElement};
use crate::text::strs;
use crate::validator::bindings::{
    binding_semantics_errors, check_binding_semantics, check_unknown_targets, unknown_target_errors,
};
use crate::validator::entity::{
    bound_errors, check_bound, check_constraints, check_duplicate_keys, check_entity_set_path,
    check_key_classes, check_partners, check_term, constraint_errors, duplicate_key_errors,
    entity_set_path_errors, key_class_errors, key_strings, partner_errors, term_errors,
};
use crate::validator::names::{
    collect_container_names, collect_element_names, collect_enum_member_names, collect_member_names,
    container_element_name, duplicate_errors, element_names, navigation_names, property_names,
    report_duplicate_names, lemma_repeated_contains, repeated,
};

verus! {

#[derive(Debug)]
pub enum ValidationError {
    DuplicateKey { entity: String, key: String },
    UnknownKeyProperty { entity: String, key: String },
    NonScalarKeyProperty { entity: String, key: String },
    DuplicateChildName {
        parent_kind: &'static str,
        parent: String,
        child_kind: &'static str,
        child: String,
    },
    UnknownContainerTarget {
        container: String,
        source_kind: &'static str,
        source: String,
        target: String,
    },
    InvalidNavigationPropertyBinding {
        container: String,
        source_kind: &'static str,
        source: String,
        attribute: &'static str,
        value: String,
        reason: &'static str,
    },
    BoundOperationMissingBindingParameter { operation_kind: &'static str, operation: String },
    InvalidEntitySetPath {
        operation_kind: &'static str,
        operation: String,
        path: String,
        reason: &'static str,
    },
    UnknownNavigationPartner {
        entity: String,
        navigation: String,
        partner: String,
        target_entity: String,
    },
    UnknownReferentialConstraintProperty { entity: String, navigation: String, property: String },
    UnknownReferentialConstraintReferencedProperty {
        entity: String,
        navigation: String,
        target_entity: String,
        referenced_property: String,
    },
    CyclicTermBaseTerm { term: String },
}

/// A validation error with its text as character sequences.
pub enum ValidationErrorView {
    DuplicateKey { entity: Seq<char>, key: Seq<char> },
    UnknownKeyProperty { entity: Seq<char>, key: Seq<char> },
    NonScalarKeyProperty { entity: Seq<char>, key: Seq<char> },
    DuplicateChildName {
        parent_kind: Seq<char>,
        parent: Seq<char>,
        child_kind: Seq<char>,
        child: Seq<char>,
    },
    UnknownContainerTarget {
        container: Seq<char>,
        source_kind: Seq<char>,
        source: Seq<char>,
        target: Seq<char>,
    },
    InvalidNavigationPropertyBinding {
        container: Seq<char>,
        source_kind: Seq<char>,
        source: Seq<char>,
        attribute: Seq<char>,
        value: Seq<char>,
        reason: Seq<char>,
    },
    BoundOperationMissingBindingParameter { operation_kind: Seq<char>, operation: Seq<char> },
    InvalidEntitySetPath {
        operation_kind: Seq<char>,
        operation: Seq<char>,
        path: Seq<char>,
        reason: Seq<char>,
    },
    UnknownNavigationPartner {
        entity: Seq<char>,
        navigation: Seq<char>,
        partner: Seq<char>,
        target_entity: Seq<char>,
    },
    UnknownReferentialConstraintProperty {
        entity: Seq<char>,
        navigation: Seq<char>,
        property: Seq<char>,
    },
    UnknownReferentialConstraintReferencedProperty {
        entity: Seq<char>,
        navigation: Seq<char>,
        target_entity: Seq<char>,
        referenced_property: Seq<char>,
    },
    CyclicTermBaseTerm { term: Seq<char> },
}

impl View for ValidationError {
    type V = ValidationErrorView;

    open spec fn view(&self) -> ValidationErrorView {
        match self {
            ValidationError::DuplicateKey { entity, key } => ValidationErrorView::DuplicateKey {
                entity: entity@,
                key: key@,
            },
            ValidationError::UnknownKeyProperty { entity, key } => ValidationErrorView::UnknownKeyProperty {
                entity: entity@,
                key: key@,
            },
            ValidationError::NonScalarKeyProperty { entity, key } => ValidationErrorView::NonScalarKeyProperty {
                entity: entity@,
                key: key@,
            },
            ValidationError::DuplicateChildName { parent_kind, parent, child_kind, child } => {
                ValidationErrorView::DuplicateChildName {
                    parent_kind: parent_kind@,
                    parent: parent@,
                    child_kind: child_kind@,
                    child: child@,
                }
            },
            ValidationError::UnknownContainerTarget { container, source_kind, source, target } => {
                ValidationErrorView::UnknownContainerTarget {
                    container: container@,
                    source_kind: source_kind@,
                    source: source@,
                    target: target@,
                }
            },
            ValidationError::InvalidNavigationPropertyBinding {
                container,
                source_kind,
                source,
                attribute,
                value,
                reason,
            } => ValidationErrorView::InvalidNavigationPropertyBinding {
                container: container@,
                source_kind: source_kind@,
                source: source@,
                attribute: attribute@,
                value: value@,
                reason: reason@,
            },
            ValidationError::BoundOperationMissingBindingParameter { operation_kind, operation } => {
                ValidationErrorView::BoundOperationMissingBindingParameter {
                    operation_kind: operation_kind@,
                    operation: operation@,
                }
            },
            ValidationError::InvalidEntitySetPath { operation_kind, operation, path, reason } => {
                ValidationErrorView::InvalidEntitySetPath {
                    operation_kind: operation_kind@,
                    operation: operation@,
                    path: path@,
                    reason: reason@,
                }
            },
            ValidationError::UnknownNavigationPartner { entity, navigation, partner, target_entity } => {
                ValidationErrorView::UnknownNavigationPartner {
                    entity: entity@,
                    navigation: navigation@,
                    partner: partner@,
                    target_entity: target_entity@,
                }
            },
            ValidationError::UnknownReferentialConstraintProperty { entity, navigation, property } => {
                ValidationErrorView::UnknownReferentialConstraintProperty {
                    entity: entity@,
                    navigation: navigation@,
                    property: property@,
                }
            },
            ValidationError::UnknownReferentialConstraintReferencedProperty {
                entity,
                navigation,
                target_entity,
                referenced_property,
            } => ValidationErrorView::UnknownReferentialConstraintReferencedProperty {
                entity: entity@,
                navigation: navigation@,
                target_entity: target_entity@,
                referenced_property: referenced_property@,
            },
            ValidationError::CyclicTermBaseTerm { term } => ValidationErrorView::CyclicTermBaseTerm {
                term: term@,
            },
        }
    }
}

/// The errors of a list, as values.
pub open spec fn errs(v: Seq<ValidationError>) -> Seq<ValidationErrorView> {
    v.map_values(|e: ValidationError| e@)
}

/// Appends `e` to `out`.
pub fn report(out: &mut Vec<ValidationError>, e: ValidationError)
    ensures
        errs(final(out)@) == errs(old(out)@).push(e@),
{
    let ghost o = out@;
    out.push(e);
    proof {
        assert(errs(out@) =~= errs(o).push(e@));
    }
}


// ---------------------------------------------------------------------------
// The rules, in the order they run
// ---------------------------------------------------------------------------

/// What the rules find on one schema element.
pub open spec fn element_errors(m: Model, e: SchemaElement) -> Seq<ValidationErrorView> {
    match e {
        SchemaElement::EntityType(i) => if i < m.entity_types@.len() {
            let x = m.entity_types@[i as int];
            duplicate_errors(
                "EntityType"@,
                x.name@,
                "PropertyOrNavigationProperty"@,
                property_names(m, x.properties@) + navigation_names(m, x.navigation_properties@),
            ) + partner_errors(m, x.name@, x.navigation_properties@) + constraint_errors(
                m,
                x.name@,
                property_names(m, x.properties@),
                x.navigation_properties@,
            ) + duplicate_key_errors(x.name@, key_strings(m, x.keys@)) + key_class_errors(
                m,
                x.name@,
                x.keys@,
                true,
            ) + key_class_errors(m, x.name@, x.keys@, false)
        } else {
            Seq::empty()
        },
        SchemaElement::ComplexType(i) => if i < m.complex_types@.len() {
            let x = m.complex_types@[i as int];
            duplicate_errors(
                "ComplexType"@,
                x.name@,
                "PropertyOrNavigationProperty"@,
                property_names(m, x.properties@) + navigation_names(m, x.navigation_properties@),
            )
        } else {
            Seq::empty()
        },
        SchemaElement::EnumType(i) => if i < m.enum_types@.len() {
            let x = m.enum_types@[i as int];
            duplicate_errors(
                "EnumType"@,
                x.name@,
                "Member"@,
                x.members@.map_values(|y: crate::edm::EnumMember| y.name@),
            )
        } else {
            Seq::empty()
        },
        SchemaElement::Function(i) => if i < m.functions@.len() {
            let x = m.functions@[i as int];
            bound_errors("Function"@, x.name@, x.is_bound, x.parameters@) + entity_set_path_errors(
                m,
                "Function"@,
                x.name@,
                x.is_bound,
                x.parameters@,
                x.entity_set_path,
            )
        } else {
            Seq::empty()
        },
        SchemaElement::Action(i) => if i < m.actions@.len() {
            let x = m.actions@[i as int];
            bound_errors("Action"@, x.name@, x.is_bound, x.parameters@) + entity_set_path_errors(
                m,
                "Action"@,
                x.name@,
                x.is_bound,
                x.parameters@,
                x.entity_set_path,
            )
        } else {
            Seq::empty()
        },
        SchemaElement::TypeDefinition(_) => Seq::empty(),
        SchemaElement::Term(i) => if i < m.terms@.len() {
            term_errors(m, m.terms@[i as int])
        } else {
            Seq::empty()
        },
    }
}

pub open spec fn elements_errors(m: Model, es: Seq<SchemaElement>) -> Seq<ValidationErrorView>
    decreases es.len(),
{
    if es.len() == 0 {
        Seq::empty()
    } else {
        elements_errors(m, es.drop_last()) + element_errors(m, es.last())
    }
}

/// What the rules find on the model's entity container.
pub open spec fn container_errors(m: Model) -> Seq<ValidationErrorView> {
    match m.entity_container {
        None => Seq::empty(),
        Some(c) => duplicate_errors(
            "EntityContainer"@,
            c.name@,
            "EntityContainerElement"@,
            c.elements@.map_values(|x: crate::edm::EntityContainerElement| container_element_name(x)),
        ) + unknown_target_errors(c),
    }
}

/// Every finding of the rules on a model, in order: the model as a whole,
/// then each schema element, then the entity container.
pub open spec fn model_errors(m: Model) -> Seq<ValidationErrorView> {
    duplicate_errors("Schema"@, m.namespace@, "SchemaElement"@, element_names(m, m.elements@))
        + binding_semantics_errors(m) + elements_errors(m, m.elements@) + container_errors(m)
}

pub open spec fn documents_errors(ms: Seq<Model>) -> Seq<ValidationErrorView>
    decreases ms.len(),
{
    if ms.len() == 0 {
        Seq::empty()
    } else {
        documents_errors(ms.drop_last()) + model_errors(ms.last())
    }
}

proof fn lemma_elements_errors_contain(m: Model, es: Seq<SchemaElement>, i: int, z: ValidationErrorView)
    requires
        0 <= i < es.len(),
        element_errors(m, es[i]).contains(z),
    ensures
        elements_errors(m, es).contains(z),
    decreases es.len(),
{
    let d = es.drop_last();
    let a = elements_errors(m, d);
    let b = element_errors(m, es.last());
    if i < es.len() - 1 {
        assert(d[i] == es[i]);
        lemma_elements_errors_contain(m, d, i, z);
        let k = choose|k: int| 0 <= k < a.len() && a[k] == z;
        assert((a + b)[k] == z);
    } else {
        let k = choose|k: int| 0 <= k < b.len() && b[k] == z;
        assert((a + b)[a.len() + k] == z);
    }
}

proof fn lemma_documents_errors_contain(ms: Seq<Model>, i: int, z: ValidationErrorView)
    requires
        0 <= i < ms.len(),
        model_errors(ms[i]).contains(z),
    ensures
        documents_errors(ms).contains(z),
    decreases ms.len(),
{
    let d = ms.drop_last();
    let a = documents_errors(d);
    let b = model_errors(ms.last());
    if i < ms.len() - 1 {
        assert(d[i] == ms[i]);
        lemma_documents_errors_contain(d, i, z);
        let k = choose|k: int| 0 <= k < a.len() && a[k] == z;
        assert((a + b)[k] == z);
    } else {
        let k = choose|k: int| 0 <= k < b.len() && b[k] == z;
        assert((a + b)[a.len() + k] == z);
    }
}

/// A name that repeats among the names is reported once as a duplicate child.
proof fn lemma_duplicate_reported(pk: Seq<char>, p: Seq<char>, ck: Seq<char>, names: Seq<Seq<char>>, a: int, b: int)
    requires
        0 <= a < b < names.len(),
        names[a] == names[b],
    ensures
        duplicate_errors(pk, p, ck, names).contains(
            ValidationErrorView::DuplicateChildName { parent_kind: pk, parent: p, child_kind: ck, child: names[b] },
        ),
{
    lemma_repeated_contains(names, a, b);
    let rs = repeated(names);
    let k = choose|k: int| 0 <= k < rs.len() && rs[k] == names[b];
    assert(duplicate_errors(pk, p, ck, names)[k] == ValidationErrorView::DuplicateChildName {
        parent_kind: pk,
        parent: p,
        child_kind: ck,
        child: names[b],
    });
}

proof fn lemma_in_model_errors(m: Model, z: ValidationErrorView, part: int)
    requires
        part == 0 ==> duplicate_errors("Schema"@, m.namespace@, "SchemaElement"@, element_names(m, m.elements@)).contains(z),
        part == 1 ==> elements_errors(m, m.elements@).contains(z),
        part == 2 ==> container_errors(m).contains(z),
        0 <= part <= 2,
    ensures
        model_errors(m).contains(z),
{
    let p0 = duplicate_errors("Schema"@, m.namespace@, "SchemaElement"@, element_names(m, m.elements@));
    let p1 = binding_semantics_errors(m);
    let q = elements_errors(m, m.elements@);
    let c = container_errors(m);
    assert(model_errors(m) == p0 + p1 + q + c);
    if part == 0 {
        let k = choose|k: int| 0 <= k < p0.len() && p0[k] == z;
        assert((p0 + p1 + q + c)[k] == z);
    } else if part == 1 {
        let k = choose|k: int| 0 <= k < q.len() && q[k] == z;
        assert((p0 + p1 + q + c)[p0.len() + p1.len() + k] == z);
    } else {
        let k = choose|k: int| 0 <= k < c.len() && c[k] == z;
        assert((p0 + p1 + q + c)[p0.len() + p1.len() + q.len() + k] == z);
    }
}

/// Two schema elements of the model with one name are reported as a
/// `DuplicateChildName` of the schema (kind `Schema`, its namespace, child
/// kind `SchemaElement`).
pub proof fn lemma_duplicate_schema_elements(m: Model, a: int, b: int)
    requires
        0 <= a < b < element_names(m, m.elements@).len(),
        element_names(m, m.elements@)[a] == element_names(m, m.elements@)[b],
    ensures
        model_errors(m).contains(
            ValidationErrorView::DuplicateChildName {
                parent_kind: "Schema"@,
                parent: m.namespace@,
                child_kind: "SchemaElement"@,
                child: element_names(m, m.elements@)[b],
            },
        ),
{
    lemma_duplicate_reported("Schema"@, m.namespace@, "SchemaElement"@, element_names(m, m.elements@), a, b);
    lemma_in_model_errors(
        m,
        ValidationErrorView::DuplicateChildName {
            parent_kind: "Schema"@,
            parent: m.namespace@,
            child_kind: "SchemaElement"@,
            child: element_names(m, m.elements@)[b],
        },
        0,
    );
}

/// Two members (properties or navigation properties) of an entity type of
/// the model with one name are reported as a `DuplicateChildName` of the
/// entity type (child kind `PropertyOrNavigationProperty`).
pub proof fn lemma_duplicate_entity_members(m: Model, i: int, t: usize, a: int, b: int)
    requires
        0 <= i < m.elements@.len(),
        m.elements@[i] == SchemaElement::EntityType(t),
        t < m.entity_types@.len(),
        ({
            let x = m.entity_types@[t as int];
            let names = property_names(m, x.properties@) + navigation_names(m, x.navigation_properties@);
            0 <= a < b < names.len() && names[a] == names[b]
        }),
    ensures
        ({
            let x = m.entity_types@[t as int];
            let names = property_names(m, x.properties@) + navigation_names(m, x.navigation_properties@);
            model_errors(m).contains(
                ValidationErrorView::DuplicateChildName {
                    parent_kind: "EntityType"@,
                    parent: x.name@,
                    child_kind: "PropertyOrNavigationProperty"@,
                    child: names[b],
                },
            )
        }),
{
    let x = m.entity_types@[t as int];
    let names = property_names(m, x.properties@) + navigation_names(m, x.navigation_properties@);
    let d = duplicate_errors("EntityType"@, x.name@, "PropertyOrNavigationProperty"@, names);
    let z = ValidationErrorView::DuplicateChildName {
        parent_kind: "EntityType"@,
        parent: x.name@,
        child_kind: "PropertyOrNavigationProperty"@,
        child: names[b],
    };
    lemma_duplicate_reported("EntityType"@, x.name@, "PropertyOrNavigationProperty"@, names, a, b);
    let e = element_errors(m, m.elements@[i]);
    let k = choose|k: int| 0 <= k < d.len() && d[k] == z;
    assert(e[k] == z);
    lemma_elements_errors_contain(m, m.elements@, i, z);
    lemma_in_model_errors(m, z, 1);
}

/// Two members of a complex type of the model with one name are reported
/// as a `DuplicateChildName` of the complex type.
pub proof fn lemma_duplicate_complex_members(m: Model, i: int, t: usize, a: int, b: int)
    requires
        0 <= i < m.elements@.len(),
        m.elements@[i] == SchemaElement::ComplexType(t),
        t < m.complex_types@.len(),
        ({
            let x = m.complex_types@[t as int];
            let names = property_names(m, x.properties@) + navigation_names(m, x.navigation_properties@);
            0 <= a < b < names.len() && names[a] == names[b]
        }),
    ensures
        ({
            let x = m.complex_types@[t as int];
            let names = property_names(m, x.properties@) + navigation_names(m, x.navigation_properties@);
            model_errors(m).contains(
                ValidationErrorView::DuplicateChildName {
                    parent_kind: "ComplexType"@,
                    parent: x.name@,
                    child_kind: "PropertyOrNavigationProperty"@,
                    child: names[b],
                },
            )
        }),
{
    let x = m.complex_types@[t as int];
    let names = property_names(m, x.properties@) + navigation_names(m, x.navigation_properties@);
    let z = ValidationErrorView::DuplicateChildName {
        parent_kind: "ComplexType"@,
        parent: x.name@,
        child_kind: "PropertyOrNavigationProperty"@,
        child: names[b],
    };
    lemma_duplicate_reported("ComplexType"@, x.name@, "PropertyOrNavigationProperty"@, names, a, b);
    lemma_elements_errors_contain(m, m.elements@, i, z);
    lemma_in_model_errors(m, z, 1);
}

/// Two elements of the model's entity container with one name are reported
/// as a `DuplicateChildName` of the container (child kind
/// `EntityContainerElement`).
pub proof fn lemma_duplicate_container_elements(m: Model, a: int, b: int)
    requires
        m.entity_container is Some,
        ({
            let c = m.entity_container->0;
            let names = c.elements@.map_values(|x: crate::edm::EntityContainerElement| container_element_name(x));
            0 <= a < b < names.len() && names[a] == names[b]
        }),
    ensures
        ({
            let c = m.entity_container->0;
            let names = c.elements@.map_values(|x: crate::edm::EntityContainerElement| container_element_name(x));
            model_errors(m).contains(
                ValidationErrorView::DuplicateChildName {
                    parent_kind: "EntityContainer"@,
                    parent: c.name@,
                    child_kind: "EntityContainerElement"@,
                    child: names[b],
                },
            )
        }),
{
    let c = m.entity_container->0;
    let names = c.elements@.map_values(|x: crate::edm::EntityContainerElement| container_element_name(x));
    let z = ValidationErrorView::DuplicateChildName {
        parent_kind: "EntityContainer"@,
        parent: c.name@,
        child_kind: "EntityContainerElement"@,
        child: names[b],
    };
    lemma_duplicate_reported("EntityContainer"@, c.name@, "EntityContainerElement"@, names, a, b);
    let d = duplicate_errors("EntityContainer"@, c.name@, "EntityContainerElement"@, names);
    let k = choose|k: int| 0 <= k < d.len() && d[k] == z;
    assert((d + unknown_target_errors(c))[k] == z);
    lemma_in_model_errors(m, z, 2);
}

/// Two members of an enum type of the model with one name are reported: the
/// model's findings hold `DuplicateChildName` with parent kind `EnumType`,
/// the enum's name, child kind `Member` and that name.
pub proof fn lemma_duplicate_enum_members(m: Model, i: int, a: int, b: int)
    requires
        0 <= i < m.elements@.len(),
        m.elements@[i] matches SchemaElement::EnumType(t) && t < m.enum_types@.len() && 0 <= a < b
            < m.enum_types@[t as int].members@.len() && m.enum_types@[t as int].members@[a].name@
            == m.enum_types@[t as int].members@[b].name@,
    ensures
        model_errors(m).contains(
            ValidationErrorView::DuplicateChildName {
                parent_kind: "EnumType"@,
                parent: m.enum_types@[m.elements@[i]->EnumType_0 as int].name@,
                child_kind: "Member"@,
                child: m.enum_types@[m.elements@[i]->EnumType_0 as int].members@[b].name@,
            },
        ),
{
    let t = m.elements@[i]->EnumType_0;
    let x = m.enum_types@[t as int];
    let names = x.members@.map_values(|y: crate::edm::EnumMember| y.name@);
    lemma_repeated_contains(names, a, b);
    let n = x.members@[b].name@;
    let z = ValidationErrorView::DuplicateChildName {
        parent_kind: "EnumType"@,
        parent: x.name@,
        child_kind: "Member"@,
        child: n,
    };
    let rs = repeated(names);
    let k = choose|k: int| 0 <= k < rs.len() && rs[k] == n;
    let errs_e = element_errors(m, m.elements@[i]);
    assert(errs_e[k] == z);
    lemma_elements_errors_contain(m, m.elements@, i, z);
    let p = duplicate_errors("Schema"@, m.namespace@, "SchemaElement"@, element_names(m, m.elements@))
        + binding_semantics_errors(m);
    let q = elements_errors(m, m.elements@);
    let c = container_errors(m);
    let w = choose|w: int| 0 <= w < q.len() && q[w] == z;
    assert(model_errors(m) == p + q + c);
    assert((p + q + c)[p.len() + w] == z);
}

/// Two members of an enum type with one name, in any schema of a document,
/// make validating the document fail with that `DuplicateChildName`.
pub proof fn lemma_duplicate_enum_members_in_document(ms: Seq<Model>, s: int, i: int, a: int, b: int)
    requires
        0 <= s < ms.len(),
        0 <= i < ms[s].elements@.len(),
        ms[s].elements@[i] matches SchemaElement::EnumType(t) && t < ms[s].enum_types@.len() && 0 <= a < b
            < ms[s].enum_types@[t as int].members@.len() && ms[s].enum_types@[t as int].members@[a].name@
            == ms[s].enum_types@[t as int].members@[b].name@,
    ensures
        documents_errors(ms).len() > 0,
        documents_errors(ms).contains(
            ValidationErrorView::DuplicateChildName {
                parent_kind: "EnumType"@,
                parent: ms[s].enum_types@[ms[s].elements@[i]->EnumType_0 as int].name@,
                child_kind: "Member"@,
                child: ms[s].enum_types@[ms[s].elements@[i]->EnumType_0 as int].members@[b].name@,
            },
        ),
{
    lemma_duplicate_enum_members(ms[s], i, a, b);
    let z = ValidationErrorView::DuplicateChildName {
        parent_kind: "EnumType"@,
        parent: ms[s].enum_types@[ms[s].elements@[i]->EnumType_0 as int].name@,
        child_kind: "Member"@,
        child: ms[s].enum_types@[ms[s].elements@[i]->EnumType_0 as int].members@[b].name@,
    };
    lemma_documents_errors_contain(ms, s, z);
}

fn check_element(m: &Model, e: SchemaElement, out: &mut Vec<ValidationError>)
    ensures
        errs(final(out)@) == errs(old(out)@) + element_errors(*m, e),
{
    let ghost base = errs(out@);
    match e {
        SchemaElement::EntityType(i) => {
            if i < m.entity_types.len() {
                let x = &m.entity_types[i];
                let names = collect_member_names(m, &x.properties, &x.navigation_properties);
                report_duplicate_names(&names, "EntityType", x.name.as_str(), "PropertyOrNavigationProperty", out);
                check_partners(m, x, out);
                check_constraints(m, x, out);
                check_duplicate_keys(m, x, out);
                check_key_classes(m, x, true, out);
                check_key_classes(m, x, false, out);
                proof {
                    assert(errs(out@) =~= base + element_errors(*m, e));
                }
            } else {
                proof {
                    assert(errs(out@) =~= base + Seq::<ValidationErrorView>::empty());
                }
            }
        },
        SchemaElement::ComplexType(i) => {
            if i < m.complex_types.len() {
                let x = &m.complex_types[i];
                let names = collect_member_names(m, &x.properties, &x.navigation_properties);
                report_duplicate_names(&names, "ComplexType", x.name.as_str(), "PropertyOrNavigationProperty", out);
            } else {
                proof {
                    assert(errs(out@) =~= base + Seq::<ValidationErrorView>::empty());
                }
            }
        },
        SchemaElement::EnumType(i) => {
            if i < m.enum_types.len() {
                let x = &m.enum_types[i];
                let names = collect_enum_member_names(x);
                report_duplicate_names(&names, "EnumType", x.name.as_str(), "Member", out);
            } else {
                proof {
                    assert(errs(out@) =~= base + Seq::<ValidationErrorView>::empty());
                }
            }
        },
        SchemaElement::Function(i) => {
            if i < m.functions.len() {
                let x = &m.functions[i];
                check_bound("Function", x.name.as_str(), x.is_bound, &x.parameters, out);
                check_entity_set_path(m, "Function", x.name.as_str(), x.is_bound, &x.parameters, &x.entity_set_path, out);
                proof {
                    assert(errs(out@) =~= base + element_errors(*m, e));
                }
            } else {
                proof {
                    assert(errs(out@) =~= base + Seq::<ValidationErrorView>::empty());
                }
            }
        },
        SchemaElement::Action(i) => {
            if i < m.actions.len() {
                let x = &m.actions[i];
                check_bound("Action", x.name.as_str(), x.is_bound, &x.parameters, out);
                check_entity_set_path(m, "Action", x.name.as_str(), x.is_bound, &x.parameters, &x.entity_set_path, out);
                proof {
                    assert(errs(out@) =~= base + element_errors(*m, e));
                }
            } else {
                proof {
                    assert(errs(out@) =~= base + Seq::<ValidationErrorView>::empty());
                }
            }
        },
        SchemaElement::TypeDefinition(_) => {
            proof {
                assert(errs(out@) =~= base + Seq::<ValidationErrorView>::empty());
            }
        },
        SchemaElement::Term(i) => {
            if i < m.terms.len() {
                check_term(m, &m.terms[i], out);
            } else {
                proof {
                    assert(errs(out@) =~= base + Seq::<ValidationErrorView>::empty());
                }
            }
        },
    }
}

fn check_model(m: &Model, out: &mut Vec<ValidationError>)
    ensures
        errs(final(out)@) == errs(old(out)@) + model_errors(*m),
{
    let ghost base = errs(out@);
    let names = collect_element_names(m);
    report_duplicate_names(&names, "Schema", m.namespace.as_str(), "SchemaElement", out);
    check_binding_semantics(m, out);
    let ghost mid = errs(out@);
    let ghost es = m.elements@;
    let mut i: usize = 0;
    proof {
        assert(mid + elements_errors(*m, es.take(0)) =~= mid);
    }
    while i < m.elements.len()
        invariant
            i <= es.len(),
            es == m.elements@,
            errs(out@) == mid + elements_errors(*m, es.take(i as int)),
        decreases m.elements.len() - i,
    {
        proof {
            assert(es.take(i + 1).drop_last() =~= es.take(i as int));
            assert(es.take(i + 1).last() == es[i as int]);
        }
        check_element(m, m.elements[i], out);
        proof {
            assert(errs(out@) =~= mid + elements_errors(*m, es.take(i + 1)));
        }
        i = i + 1;
    }
    proof {
        assert(es.take(es.len() as int) =~= es);
    }
    let ghost mid2 = errs(out@);
    match &m.entity_container {
        None => {
            proof {
                assert(errs(out@) =~= mid2 + Seq::<ValidationErrorView>::empty());
            }
        },
        Some(c) => {
            let names = collect_container_names(c);
            report_duplicate_names(&names, "EntityContainer", c.name.as_str(), "EntityContainerElement", out);
            check_unknown_targets(c, out);
            proof {
                assert(errs(out@) =~= mid2 + container_errors(*m));
            }
        },
    }
    proof {
        assert(errs(out@) =~= base + model_errors(*m));
    }
}

/// Validates one model: `Ok` when no rule finds anything, else every
/// finding in order.
pub fn validate_model(model: &Model) -> (r: Result<(), Vec<ValidationError>>)
    ensures
        match r {
            Ok(()) => model_errors(*model).len() == 0,
            Err(v) => errs(v@) == model_errors(*model) && v@.len() > 0,
        },
{
    let mut out: Vec<ValidationError> = Vec::new();
    proof {
        assert(errs(out@) =~= Seq::<ValidationErrorView>::empty());
    }
    check_model(model, &mut out);
    proof {
        assert(errs(out@) =~= model_errors(*model));
    }
    if out.len() == 0 {
        Ok(())
    } else {
        Err(out)
    }
}

/// Validates every schema of a document: `Ok` when no rule finds anything in
/// any schema, else every finding, schema by schema.
pub fn validate_document(document: &DocumentModel) -> (r: Result<(), Vec<ValidationError>>)
    ensures
        match r {
            Ok(()) => documents_errors(document.schemas@).len() == 0,
            Err(v) => errs(v@) == documents_errors(document.schemas@) && v@.len() > 0,
        },
{
    let mut out: Vec<ValidationError> = Vec::new();
    let ghost ms = document.schemas@;
    let mut i: usize = 0;
    proof {
        assert(errs(out@) =~= documents_errors(ms.take(0)));
    }
    while i < document.schemas.len()
        invariant
            i <= ms.len(),
            ms == document.schemas@,
            errs(out@) == documents_errors(ms.take(i as int)),
        decreases document.schemas.len() - i,
    {
        proof {
            assert(ms.take(i + 1).drop_last() =~= ms.take(i as int));
            assert(ms.take(i + 1).last() == ms[i as int]);
        }
        check_model(&document.schemas[i], &mut out);
        i = i + 1;
    }
    proof {
        assert(ms.take(ms.len() as int) =~= ms);
    }
    if out.len() == 0 {
        Ok(())
    } else {
        Err(out)
    }
}

} // verus!
