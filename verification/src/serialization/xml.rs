//! The CSDL XML form of a document, as the sequence of XML events a writer
//! emits for it.

use vstd::prelude::*;

use crate::csdl::{
    ActionImport, Annotation, ComplexType, CsdlDocument, Edmx, EntityContainer, EntitySet,
    EntityType, EnumType, FunctionImport, Include, IncludeAnnotations, Key, MaxLengthFacet,
    NavigationProperty, NavigationPropertyBinding, Parameter, Property, Reference,
    ReferentialConstraint, ReturnType, ScaleFacet, Schema, SchemaElement, Singleton, SridFacet,
    Term, TypeDefinition,
};
use crate::expr::{BinaryOperator, CsdlAnnotationExpression, PropertyValue};
use crate::serialization::{lossy_string, utf8_lossy};
use crate::text::{concat3, i64_to_decimal, join, join_with, owned, signed_decimal, strs};

verus! {

/// One XML event to write; text is unescaped.
#[derive(Debug, PartialEq)]
pub enum XmlOut {
    /// `<?xml version="1.0" encoding="UTF-8"?>`
    Decl,
    Start { name: String, attributes: Vec<(String, String)> },
    Empty { name: String, attributes: Vec<(String, String)> },
    End { name: String },
    Text(String),
}

pub type Attrs = Seq<(Seq<char>, Seq<char>)>;

pub enum XmlOutView {
    Decl,
    Start { name: Seq<char>, attributes: Attrs },
    Empty { name: Seq<char>, attributes: Attrs },
    End { name: Seq<char> },
    Text(Seq<char>),
}

pub open spec fn attrs_view(a: Seq<(String, String)>) -> Attrs {
    a.map_values(|p: (String, String)| (p.0@, p.1@))
}

impl View for XmlOut {
    type V = XmlOutView;

    open spec fn view(&self) -> XmlOutView {
        match self {
            XmlOut::Decl => XmlOutView::Decl,
            XmlOut::Start { name, attributes } => XmlOutView::Start {
                name: name@,
                attributes: attrs_view(attributes@),
            },
            XmlOut::Empty { name, attributes } => XmlOutView::Empty {
                name: name@,
                attributes: attrs_view(attributes@),
            },
            XmlOut::End { name } => XmlOutView::End { name: name@ },
            XmlOut::Text(t) => XmlOutView::Text(t@),
        }
    }
}

pub open spec fn out_views(s: Seq<XmlOut>) -> Seq<XmlOutView> {
    s.map_values(|e: XmlOut| e@)
}

// ---------------------------------------------------------------------------
// Specification
// ---------------------------------------------------------------------------

pub open spec fn bool_text(b: bool) -> Seq<char> {
    if b {
        "true"@
    } else {
        "false"@
    }
}

/// An element: `<name/>` when `empty`, else `<name>`, the body, `</name>`.
pub open spec fn element(name: Seq<char>, attrs: Attrs, empty: bool, body: Seq<XmlOutView>) -> Seq<
    XmlOutView,
> {
    if empty {
        seq![XmlOutView::Empty { name, attributes: attrs }]
    } else {
        seq![XmlOutView::Start { name, attributes: attrs }] + body + seq![XmlOutView::End { name }]
    }
}

/// `<name>text</name>`
pub open spec fn text_element(name: Seq<char>, text: Seq<char>) -> Seq<XmlOutView> {
    seq![
        XmlOutView::Start { name, attributes: Seq::empty() },
        XmlOutView::Text(text),
        XmlOutView::End { name },
    ]
}

pub open spec fn op_name(op: BinaryOperator) -> Seq<char> {
    match op {
        BinaryOperator::And => "And"@,
        BinaryOperator::Or => "Or"@,
        BinaryOperator::Eq => "Eq"@,
        BinaryOperator::Ne => "Ne"@,
        BinaryOperator::Gt => "Gt"@,
        BinaryOperator::Ge => "Ge"@,
        BinaryOperator::Lt => "Lt"@,
        BinaryOperator::Le => "Le"@,
    }
}

/// A constant or path expression as the attribute that can carry it.
pub open spec fn inline_attr(e: CsdlAnnotationExpression) -> Option<(Seq<char>, Seq<char>)> {
    match e {
        CsdlAnnotationExpression::Binary(v) => Some(("Binary"@, utf8_lossy(v@))),
        CsdlAnnotationExpression::Bool(v) => Some(("Bool"@, bool_text(v))),
        CsdlAnnotationExpression::Date(v) => Some(("Date"@, v@)),
        CsdlAnnotationExpression::DateTimeOffset(v) => Some(("DateTimeOffset"@, v@)),
        CsdlAnnotationExpression::Decimal(v) => Some(("Decimal"@, v@)),
        CsdlAnnotationExpression::Duration(v) => Some(("Duration"@, v@)),
        CsdlAnnotationExpression::EnumMember(v) => Some(("EnumMember"@, v@)),
        CsdlAnnotationExpression::Float(v) => Some(("Float"@, v@)),
        CsdlAnnotationExpression::Guid(v) => Some(("Guid"@, v@)),
        CsdlAnnotationExpression::Int(v) => Some(("Int"@, signed_decimal(v))),
        CsdlAnnotationExpression::String(v) => Some(("String"@, v@)),
        CsdlAnnotationExpression::TimeOfDay(v) => Some(("TimeOfDay"@, v@)),
        CsdlAnnotationExpression::Path(v) => Some(("Path"@, v@)),
        CsdlAnnotationExpression::PropertyPath(v) => Some(("PropertyPath"@, v@)),
        CsdlAnnotationExpression::NavigationPropertyPath(v) => Some(("NavigationPropertyPath"@, v@)),
        CsdlAnnotationExpression::AnnotationPath(v) => Some(("AnnotationPath"@, v@)),
        _ => None,
    }
}

/// The events of an annotation expression.
pub open spec fn expr_xml(e: CsdlAnnotationExpression) -> Seq<XmlOutView>
    decreases e,
{
    match e {
        CsdlAnnotationExpression::Binary(v) => text_element("Binary"@, utf8_lossy(v@)),
        CsdlAnnotationExpression::Bool(v) => text_element("Bool"@, bool_text(v)),
        CsdlAnnotationExpression::Date(v) => text_element("Date"@, v@),
        CsdlAnnotationExpression::DateTimeOffset(v) => text_element("DateTimeOffset"@, v@),
        CsdlAnnotationExpression::Decimal(v) => text_element("Decimal"@, v@),
        CsdlAnnotationExpression::Duration(v) => text_element("Duration"@, v@),
        CsdlAnnotationExpression::EnumMember(v) => text_element("EnumMember"@, v@),
        CsdlAnnotationExpression::Float(v) => text_element("Float"@, v@),
        CsdlAnnotationExpression::Guid(v) => text_element("Guid"@, v@),
        CsdlAnnotationExpression::Int(v) => text_element("Int"@, signed_decimal(v)),
        CsdlAnnotationExpression::String(v) => text_element("String"@, v@),
        CsdlAnnotationExpression::TimeOfDay(v) => text_element("TimeOfDay"@, v@),
        CsdlAnnotationExpression::Null => seq![XmlOutView::Empty { name: "Null"@, attributes: Seq::empty() }],
        CsdlAnnotationExpression::Path(v) => text_element("Path"@, v@),
        CsdlAnnotationExpression::PropertyPath(v) => text_element("PropertyPath"@, v@),
        CsdlAnnotationExpression::NavigationPropertyPath(v) => text_element("NavigationPropertyPath"@, v@),
        CsdlAnnotationExpression::AnnotationPath(v) => text_element("AnnotationPath"@, v@),
        CsdlAnnotationExpression::Not(inner) => element("Not"@, Seq::empty(), false, expr_xml(*inner)),
        CsdlAnnotationExpression::BinaryExpression { op, lhs, rhs } => element(
            op_name(op),
            Seq::empty(),
            false,
            expr_xml(*lhs) + expr_xml(*rhs),
        ),
        CsdlAnnotationExpression::If { test, then_, else_ } => element(
            "If"@,
            Seq::empty(),
            false,
            expr_xml(*test) + expr_xml(*then_) + match else_ {
                Some(x) => expr_xml(*x),
                None => Seq::empty(),
            },
        ),
        CsdlAnnotationExpression::Apply { function, args } => element(
            "Apply"@,
            seq![("Function"@, function@)],
            false,
            exprs_xml(args@),
        ),
        CsdlAnnotationExpression::Cast { type_, expr } => element(
            "Cast"@,
            seq![("Type"@, type_@)],
            false,
            expr_xml(*expr),
        ),
        CsdlAnnotationExpression::IsOf { type_, expr } => element(
            "IsOf"@,
            seq![("Type"@, type_@)],
            false,
            expr_xml(*expr),
        ),
        CsdlAnnotationExpression::Record { type_, properties, annotations } => element(
            "Record"@,
            match type_ {
                Some(t) => seq![("Type"@, t@)],
                None => Seq::empty(),
            },
            properties@.len() == 0 && annotations@.len() == 0,
            property_values_xml(properties@) + annotations_xml(annotations@),
        ),
        CsdlAnnotationExpression::Collection(items) => element(
            "Collection"@,
            Seq::empty(),
            items@.len() == 0,
            exprs_xml(items@),
        ),
        CsdlAnnotationExpression::LabeledElement { name, expr } => element(
            "LabeledElement"@,
            seq![("Name"@, name@)],
            false,
            expr_xml(*expr),
        ),
        CsdlAnnotationExpression::LabeledElementReference(v) => text_element("LabeledElementReference"@, v@),
        CsdlAnnotationExpression::UrlRef(inner) => element("UrlRef"@, Seq::empty(), false, expr_xml(*inner)),
    }
}

pub open spec fn exprs_xml(s: Seq<CsdlAnnotationExpression>) -> Seq<XmlOutView>
    decreases s,
{
    if s.len() == 0 {
        Seq::empty()
    } else {
        exprs_xml(s.subrange(0, s.len() - 1)) + expr_xml(s[s.len() - 1])
    }
}

/// An `<Annotation>`: the marker form for `true`, the value as an attribute
/// where it can be one, else the expression as a child.
pub open spec fn annotation_xml(a: Annotation) -> Seq<XmlOutView>
    decreases a,
{
    let attrs0 = seq![("Term"@, a.term@)];
    let attrs1 = match a.qualifier {
        Some(q) => attrs0.push(("Qualifier"@, q@)),
        None => attrs0,
    };
    let attrs = match a.target {
        Some(t) => attrs1.push(("Target"@, t@)),
        None => attrs1,
    };
    match a.expression {
        Some(e) => if e == CsdlAnnotationExpression::Bool(true) {
            seq![XmlOutView::Empty { name: "Annotation"@, attributes: attrs }]
        } else {
            match inline_attr(e) {
                Some(kv) => seq![XmlOutView::Empty { name: "Annotation"@, attributes: attrs.push(kv) }],
                None => element("Annotation"@, attrs, false, expr_xml(e)),
            }
        },
        None => seq![XmlOutView::Empty { name: "Annotation"@, attributes: attrs }],
    }
}

pub open spec fn annotations_xml(s: Seq<Annotation>) -> Seq<XmlOutView>
    decreases s,
{
    if s.len() == 0 {
        Seq::empty()
    } else {
        annotations_xml(s.subrange(0, s.len() - 1)) + annotation_xml(s[s.len() - 1])
    }
}

/// A `<PropertyValue>` of a record.
pub open spec fn property_value_xml(pv: PropertyValue) -> Seq<XmlOutView>
    decreases pv,
{
    let attrs = seq![("Property"@, pv.property@)];
    let no_anns = pv.annotations@.len() == 0;
    match pv.value {
        Some(v) => match inline_attr(v) {
            Some(kv) => element(
                "PropertyValue"@,
                attrs.push(kv),
                no_anns,
                annotations_xml(pv.annotations@),
            ),
            None => element(
                "PropertyValue"@,
                attrs,
                false,
                expr_xml(v) + annotations_xml(pv.annotations@),
            ),
        },
        None => element("PropertyValue"@, attrs, no_anns, annotations_xml(pv.annotations@)),
    }
}

pub open spec fn property_values_xml(s: Seq<PropertyValue>) -> Seq<XmlOutView>
    decreases s,
{
    if s.len() == 0 {
        Seq::empty()
    } else {
        property_values_xml(s.subrange(0, s.len() - 1)) + property_value_xml(s[s.len() - 1])
    }
}

// ---------------------------------------------------------------------------
// Specification of the document's events
// ---------------------------------------------------------------------------

pub open spec fn opt_bool_attr(a: Attrs, k: Seq<char>, v: Option<bool>) -> Attrs {
    match v {
        Some(b) => a.push((k, bool_text(b))),
        None => a,
    }
}

pub open spec fn opt_str_attr(a: Attrs, k: Seq<char>, v: Option<String>) -> Attrs {
    match v {
        Some(x) => a.push((k, x@)),
        None => a,
    }
}

/// `Type`, as `Collection(T)` for a collection.
pub open spec fn type_attr(a: Attrs, t: Option<String>, coll: bool) -> Attrs {
    match t {
        Some(x) => a.push(("Type"@, if coll { "Collection("@ + x@ + ")"@ } else { x@ })),
        None => a,
    }
}

/// `MaxLength`, `Precision`, `Scale`, `SRID`, `Unicode`.
pub open spec fn facet_attrs(
    a: Attrs,
    max_length: Option<MaxLengthFacet>,
    precision: Option<String>,
    scale: Option<ScaleFacet>,
    srid: Option<SridFacet>,
    unicode: Option<bool>,
) -> Attrs {
    let a1 = match max_length {
        Some(x) => a.push(("MaxLength"@, x.spec_as_str())),
        None => a,
    };
    let a2 = opt_str_attr(a1, "Precision"@, precision);
    let a3 = match scale {
        Some(x) => a2.push(("Scale"@, x.spec_as_str())),
        None => a2,
    };
    let a4 = match srid {
        Some(x) => a3.push(("SRID"@, x.spec_as_str())),
        None => a3,
    };
    opt_bool_attr(a4, "Unicode"@, unicode)
}

/// An element whose only children are annotations.
pub open spec fn annotated(name: Seq<char>, attrs: Attrs, a: Vec<Annotation>) -> Seq<XmlOutView> {
    element(name, attrs, a@.len() == 0, annotations_xml(a@))
}

pub open spec fn property_xml(p: Property) -> Seq<XmlOutView> {
    let a1 = opt_bool_attr(type_attr(seq![("Name"@, p.name@)], p.type_ref, p.is_collection), "Nullable"@, p.nullable);
    let a2 = facet_attrs(a1, p.max_length, p.precision, p.scale, p.srid, p.unicode);
    annotated("Property"@, opt_str_attr(a2, "DefaultValue"@, p.default_value), p.annotations)
}

pub open spec fn constraint_xml(c: ReferentialConstraint) -> Seq<XmlOutView> {
    annotated(
        "ReferentialConstraint"@,
        seq![("Property"@, c.property@), ("ReferencedProperty"@, c.referenced_property@)],
        c.annotations,
    )
}

pub open spec fn navigation_xml(n: NavigationProperty) -> Seq<XmlOutView> {
    let a1 = opt_bool_attr(type_attr(seq![("Name"@, n.name@)], n.type_ref, n.is_collection), "Nullable"@, n.nullable);
    let a2 = opt_bool_attr(opt_str_attr(a1, "Partner"@, n.partner), "ContainsTarget"@, n.contains_target);
    let on_delete = match n.on_delete {
        Some(x) => seq![XmlOutView::Empty { name: "OnDelete"@, attributes: seq![("Action"@, x.spec_as_str())] }],
        None => Seq::empty(),
    };
    element(
        "NavigationProperty"@,
        a2,
        n.on_delete is None && n.referential_constraints@.len() == 0 && n.annotations@.len() == 0,
        on_delete + flat(n.referential_constraints@.map_values(constraint_xml_fn()))
            + annotations_xml(n.annotations@),
    )
}

/// The sequences one after another.
pub open spec fn flat(s: Seq<Seq<XmlOutView>>) -> Seq<XmlOutView>
    decreases s.len(),
{
    if s.len() == 0 {
        Seq::empty()
    } else {
        flat(s.drop_last()) + s.last()
    }
}

pub open spec fn key_xml(k: Key) -> Seq<XmlOutView> {
    element(
        "Key"@,
        Seq::empty(),
        k.property_refs@.len() == 0,
        k.property_refs@.map_values(property_ref_xml_fn()),
    )
}

pub open spec fn entity_type_xml(e: EntityType) -> Seq<XmlOutView> {
    let a1 = opt_str_attr(seq![("Name"@, e.name@)], "BaseType"@, e.base_type);
    let a2 = opt_bool_attr(opt_bool_attr(opt_bool_attr(a1, "Abstract"@, e.abstract_), "OpenType"@, e.open_type), "HasStream"@, e.has_stream);
    element(
        "EntityType"@,
        a2,
        e.key is None && e.properties@.len() == 0 && e.navigation_properties@.len() == 0 && e.annotations@.len() == 0,
        match e.key {
            Some(k) => key_xml(k),
            None => Seq::empty(),
        } + flat(e.properties@.map_values(property_xml_fn()))
            + flat(e.navigation_properties@.map_values(navigation_xml_fn()))
            + annotations_xml(e.annotations@),
    )
}

pub open spec fn complex_type_xml(c: ComplexType) -> Seq<XmlOutView> {
    let a1 = opt_str_attr(seq![("Name"@, c.name@)], "BaseType"@, c.base_type);
    let a2 = opt_bool_attr(opt_bool_attr(a1, "Abstract"@, c.abstract_), "OpenType"@, c.open_type);
    element(
        "ComplexType"@,
        a2,
        c.properties@.len() == 0 && c.navigation_properties@.len() == 0 && c.annotations@.len() == 0,
        flat(c.properties@.map_values(property_xml_fn()))
            + flat(c.navigation_properties@.map_values(navigation_xml_fn()))
            + annotations_xml(c.annotations@),
    )
}

pub open spec fn member_xml(m: crate::csdl::EnumMember) -> Seq<XmlOutView> {
    let a = match m.value {
        Some(v) => seq![("Name"@, m.name@), ("Value"@, signed_decimal(v))],
        None => seq![("Name"@, m.name@)],
    };
    annotated("Member"@, a, m.annotations)
}

pub open spec fn enum_type_xml(e: EnumType) -> Seq<XmlOutView> {
    let a = opt_bool_attr(opt_str_attr(seq![("Name"@, e.name@)], "UnderlyingType"@, e.underlying_type), "IsFlags"@, e.is_flags);
    element(
        "EnumType"@,
        a,
        e.members@.len() == 0 && e.annotations@.len() == 0,
        flat(e.members@.map_values(member_xml_fn())) + annotations_xml(e.annotations@),
    )
}

pub open spec fn parameter_xml(p: Parameter) -> Seq<XmlOutView> {
    let a1 = opt_bool_attr(type_attr(seq![("Name"@, p.name@)], p.type_ref, p.is_collection), "Nullable"@, p.nullable);
    let a2 = facet_attrs(a1, p.max_length, p.precision, p.scale, p.srid, p.unicode);
    annotated("Parameter"@, opt_str_attr(a2, "DefaultValue"@, p.default_value), p.annotations)
}

pub open spec fn return_type_xml(r: ReturnType) -> Seq<XmlOutView> {
    let a1 = opt_bool_attr(type_attr(Seq::empty(), r.type_ref, r.is_collection), "Nullable"@, r.nullable);
    annotated("ReturnType"@, facet_attrs(a1, r.max_length, r.precision, r.scale, r.srid, r.unicode), r.annotations)
}

/// A `<Function>` or `<Action>`.
pub open spec fn callable_xml(
    element_name: Seq<char>,
    name: Seq<char>,
    is_bound: Option<bool>,
    is_composable: Option<bool>,
    esp: Option<String>,
    params: Seq<Parameter>,
    rt: Option<ReturnType>,
    a: Vec<Annotation>,
) -> Seq<XmlOutView> {
    let a1 = opt_str_attr(opt_bool_attr(seq![("Name"@, name)], "IsBound"@, is_bound), "EntitySetPath"@, esp);
    let a2 = if element_name == "Function"@ {
        opt_bool_attr(a1, "IsComposable"@, is_composable)
    } else {
        a1
    };
    element(
        element_name,
        a2,
        params.len() == 0 && rt is None && a@.len() == 0,
        flat(params.map_values(parameter_xml_fn())) + match rt {
            Some(r) => return_type_xml(r),
            None => Seq::empty(),
        } + annotations_xml(a@),
    )
}

pub open spec fn type_definition_xml(t: TypeDefinition) -> Seq<XmlOutView> {
    let a = facet_attrs(
        seq![("Name"@, t.name@), ("UnderlyingType"@, t.underlying_type@)],
        t.max_length,
        t.precision,
        t.scale,
        t.srid,
        t.unicode,
    );
    annotated("TypeDefinition"@, a, t.annotations)
}

pub open spec fn term_xml(t: Term) -> Seq<XmlOutView> {
    let a1 = opt_str_attr(opt_str_attr(type_attr(seq![("Name"@, t.name@)], t.type_ref, t.is_collection), "BaseTerm"@, t.base_term), "DefaultValue"@, t.default_value);
    let a2 = if t.applies_to@.len() > 0 {
        a1.push(("AppliesTo"@, join(strs(t.applies_to@), " "@)))
    } else {
        a1
    };
    let a3 = facet_attrs(opt_bool_attr(a2, "Nullable"@, t.nullable), t.max_length, t.precision, t.scale, t.srid, t.unicode);
    annotated("Term"@, a3, t.annotations)
}

pub open spec fn binding_xml(b: NavigationPropertyBinding) -> XmlOutView {
    XmlOutView::Empty { name: "NavigationPropertyBinding"@, attributes: seq![("Path"@, b.path@), ("Target"@, b.target@)] }
}

pub open spec fn entity_set_xml(x: EntitySet) -> Seq<XmlOutView> {
    let a = opt_bool_attr(opt_str_attr(seq![("Name"@, x.name@)], "EntityType"@, x.entity_type), "IncludeInServiceDocument"@, x.include_in_service_document);
    element(
        "EntitySet"@,
        a,
        x.navigation_property_bindings@.len() == 0 && x.annotations@.len() == 0,
        x.navigation_property_bindings@.map_values(binding_xml_fn()) + annotations_xml(x.annotations@),
    )
}

pub open spec fn singleton_xml(x: Singleton) -> Seq<XmlOutView> {
    let a = opt_bool_attr(opt_str_attr(seq![("Name"@, x.name@)], "Type"@, x.type_ref), "IncludeInServiceDocument"@, x.include_in_service_document);
    element(
        "Singleton"@,
        a,
        x.navigation_property_bindings@.len() == 0 && x.annotations@.len() == 0,
        x.navigation_property_bindings@.map_values(binding_xml_fn()) + annotations_xml(x.annotations@),
    )
}

pub open spec fn function_import_xml(x: FunctionImport) -> Seq<XmlOutView> {
    let a = opt_bool_attr(opt_str_attr(opt_str_attr(seq![("Name"@, x.name@)], "EntitySet"@, x.entity_set), "Function"@, x.function), "IncludeInServiceDocument"@, x.include_in_service_document);
    annotated("FunctionImport"@, a, x.annotations)
}

pub open spec fn action_import_xml(x: ActionImport) -> Seq<XmlOutView> {
    let a = opt_bool_attr(opt_str_attr(opt_str_attr(seq![("Name"@, x.name@)], "Action"@, x.action), "EntitySet"@, x.entity_set), "IncludeInServiceDocument"@, x.include_in_service_document);
    annotated("ActionImport"@, a, x.annotations)
}

pub open spec fn container_xml(c: EntityContainer) -> Seq<XmlOutView> {
    element(
        "EntityContainer"@,
        opt_str_attr(seq![("Name"@, c.name@)], "Extends"@, c.extends),
        c.entity_sets@.len() == 0 && c.singletons@.len() == 0 && c.function_imports@.len() == 0
            && c.action_imports@.len() == 0 && c.annotations@.len() == 0,
        flat(c.entity_sets@.map_values(entity_set_xml_fn()))
            + flat(c.singletons@.map_values(singleton_xml_fn()))
            + flat(c.function_imports@.map_values(function_import_xml_fn()))
            + flat(c.action_imports@.map_values(action_import_xml_fn()))
            + annotations_xml(c.annotations@),
    )
}

pub open spec fn schema_element_xml(e: SchemaElement) -> Seq<XmlOutView> {
    match e {
        SchemaElement::EntityType(x) => entity_type_xml(x),
        SchemaElement::ComplexType(x) => complex_type_xml(x),
        SchemaElement::EnumType(x) => enum_type_xml(x),
        SchemaElement::TypeDefinition(x) => type_definition_xml(x),
        SchemaElement::Term(x) => term_xml(x),
        SchemaElement::Function(x) => callable_xml(
            "Function"@,
            x.name@,
            x.is_bound,
            x.is_composable,
            x.entity_set_path,
            x.parameters@,
            x.return_type,
            x.annotations,
        ),
        SchemaElement::Action(x) => callable_xml(
            "Action"@,
            x.name@,
            x.is_bound,
            None,
            x.entity_set_path,
            x.parameters@,
            x.return_type,
            x.annotations,
        ),
        SchemaElement::EntityContainer(x) => container_xml(x),
    }
}

pub open spec fn schema_xml(s: Schema) -> Seq<XmlOutView> {
    element(
        "Schema"@,
        opt_str_attr(seq![("Namespace"@, s.namespace@)], "Alias"@, s.alias),
        false,
        flat(s.elements@.map_values(schema_element_xml_fn())) + annotations_xml(s.annotations@),
    )
}

pub open spec fn include_xml(i: Include) -> Seq<XmlOutView> {
    annotated("edmx:Include"@, opt_str_attr(seq![("Namespace"@, i.namespace@)], "Alias"@, i.alias), i.annotations)
}

pub open spec fn include_annotations_xml(i: IncludeAnnotations) -> XmlOutView {
    XmlOutView::Empty {
        name: "edmx:IncludeAnnotations"@,
        attributes: opt_str_attr(
            opt_str_attr(seq![("TermNamespace"@, i.term_namespace@)], "Qualifier"@, i.qualifier),
            "TargetNamespace"@,
            i.target_namespace,
        ),
    }
}

pub open spec fn reference_xml(r: Reference) -> Seq<XmlOutView> {
    let a = if r.uri@.len() > 0 {
        seq![("Uri"@, r.uri@)]
    } else {
        Seq::empty()
    };
    element(
        "edmx:Reference"@,
        a,
        r.includes@.len() == 0 && r.include_annotations@.len() == 0,
        flat(r.includes@.map_values(include_xml_fn()))
            + r.include_annotations@.map_values(include_annotations_xml_fn()),
    )
}

pub open spec fn edmx_namespaces() -> Attrs {
    seq![
        ("xmlns:edmx"@, "http://docs.oasis-open.org/odata/ns/edmx"@),
        ("xmlns"@, "http://docs.oasis-open.org/odata/ns/edm"@),
    ]
}

/// The events of a document's CSDL XML form: the declaration, then
/// `<edmx:Edmx>` with its references and `<edmx:DataServices>` holding the
/// schemas.
pub open spec fn document_xml(d: CsdlDocument) -> Seq<XmlOutView> {
    seq![XmlOutView::Decl] + match d.edmx {
        Some(e) => element(
            "edmx:Edmx"@,
            opt_str_attr(edmx_namespaces(), "Version"@, e.version),
            false,
            flat(e.references@.map_values(reference_xml_fn())) + element(
                "edmx:DataServices"@,
                Seq::empty(),
                false,
                flat(e.schemas@.map_values(schema_xml_fn())),
            ),
        ),
        None => element(
            "edmx:Edmx"@,
            edmx_namespaces().push(("Version"@, "4.01"@)),
            false,
            seq![XmlOutView::Empty { name: "edmx:DataServices"@, attributes: Seq::empty() }],
        ),
    }
}

pub open spec fn constraint_xml_fn() -> spec_fn(ReferentialConstraint) -> Seq<XmlOutView> {
    |x: ReferentialConstraint| constraint_xml(x)
}

pub open spec fn property_xml_fn() -> spec_fn(Property) -> Seq<XmlOutView> {
    |x: Property| property_xml(x)
}

pub open spec fn navigation_xml_fn() -> spec_fn(NavigationProperty) -> Seq<XmlOutView> {
    |x: NavigationProperty| navigation_xml(x)
}

pub open spec fn member_xml_fn() -> spec_fn(crate::csdl::EnumMember) -> Seq<XmlOutView> {
    |x: crate::csdl::EnumMember| member_xml(x)
}

pub open spec fn parameter_xml_fn() -> spec_fn(Parameter) -> Seq<XmlOutView> {
    |x: Parameter| parameter_xml(x)
}

pub open spec fn binding_xml_fn() -> spec_fn(NavigationPropertyBinding) -> XmlOutView {
    |x: NavigationPropertyBinding| binding_xml(x)
}

pub open spec fn entity_set_xml_fn() -> spec_fn(EntitySet) -> Seq<XmlOutView> {
    |x: EntitySet| entity_set_xml(x)
}

pub open spec fn singleton_xml_fn() -> spec_fn(Singleton) -> Seq<XmlOutView> {
    |x: Singleton| singleton_xml(x)
}

pub open spec fn function_import_xml_fn() -> spec_fn(FunctionImport) -> Seq<XmlOutView> {
    |x: FunctionImport| function_import_xml(x)
}

pub open spec fn action_import_xml_fn() -> spec_fn(ActionImport) -> Seq<XmlOutView> {
    |x: ActionImport| action_import_xml(x)
}

pub open spec fn schema_element_xml_fn() -> spec_fn(SchemaElement) -> Seq<XmlOutView> {
    |x: SchemaElement| schema_element_xml(x)
}

pub open spec fn include_xml_fn() -> spec_fn(Include) -> Seq<XmlOutView> {
    |x: Include| include_xml(x)
}

pub open spec fn include_annotations_xml_fn() -> spec_fn(IncludeAnnotations) -> XmlOutView {
    |x: IncludeAnnotations| include_annotations_xml(x)
}

pub open spec fn reference_xml_fn() -> spec_fn(Reference) -> Seq<XmlOutView> {
    |x: Reference| reference_xml(x)
}

pub open spec fn schema_xml_fn() -> spec_fn(Schema) -> Seq<XmlOutView> {
    |x: Schema| schema_xml(x)
}

pub open spec fn property_ref_xml_fn() -> spec_fn(crate::csdl::PropertyRef) -> XmlOutView {
    |r: crate::csdl::PropertyRef| XmlOutView::Empty { name: "PropertyRef"@, attributes: seq![("Name"@, r.name@)] }
}

// ---------------------------------------------------------------------------
// Emitting events
// ---------------------------------------------------------------------------

fn push_out(out: &mut Vec<XmlOut>, e: XmlOut)
    ensures
        out_views(final(out)@) == out_views(old(out)@).push(e@),
{
    let ghost o = out@;
    let ghost ev = e@;
    out.push(e);
    assert(out_views(out@) =~= out_views(o).push(ev));
}

fn attrs_of(k: &str, v: &str) -> (r: Vec<(String, String)>)
    ensures
        attrs_view(r@) == seq![(k@, v@)],
{
    let mut a: Vec<(String, String)> = Vec::new();
    a.push((owned(k), owned(v)));
    assert(attrs_view(a@) =~= seq![(k@, v@)]);
    a
}

fn no_attrs() -> (r: Vec<(String, String)>)
    ensures
        attrs_view(r@) == Seq::<(Seq<char>, Seq<char>)>::empty(),
{
    let a: Vec<(String, String)> = Vec::new();
    assert(attrs_view(a@) =~= Seq::<(Seq<char>, Seq<char>)>::empty());
    a
}

fn add_attr(a: &mut Vec<(String, String)>, k: &str, v: String)
    ensures
        attrs_view(final(a)@) == attrs_view(old(a)@).push((k@, v@)),
{
    let ghost o = a@;
    let ghost vv = v@;
    a.push((owned(k), v));
    assert(attrs_view(a@) =~= attrs_view(o).push((k@, vv)));
}

fn start_tag(out: &mut Vec<XmlOut>, name: &str, attributes: Vec<(String, String)>)
    ensures
        out_views(final(out)@) == out_views(old(out)@).push(
            XmlOutView::Start { name: name@, attributes: attrs_view(attributes@) },
        ),
{
    push_out(out, XmlOut::Start { name: owned(name), attributes });
}

fn empty_tag(out: &mut Vec<XmlOut>, name: &str, attributes: Vec<(String, String)>)
    ensures
        out_views(final(out)@) == out_views(old(out)@).push(
            XmlOutView::Empty { name: name@, attributes: attrs_view(attributes@) },
        ),
{
    push_out(out, XmlOut::Empty { name: owned(name), attributes });
}

fn end_tag(out: &mut Vec<XmlOut>, name: &str)
    ensures
        out_views(final(out)@) == out_views(old(out)@).push(XmlOutView::End { name: name@ }),
{
    push_out(out, XmlOut::End { name: owned(name) });
}

fn text_elem(out: &mut Vec<XmlOut>, name: &str, text: String)
    ensures
        out_views(final(out)@) == out_views(old(out)@) + text_element(name@, text@),
{
    let ghost o = out_views(out@);
    let ghost tv = text@;
    start_tag(out, name, no_attrs());
    push_out(out, XmlOut::Text(text));
    end_tag(out, name);
    assert(out_views(out@) =~= o + text_element(name@, tv));
}

fn bool_str(b: bool) -> (r: &'static str)
    ensures
        r@ == bool_text(b),
{
    if b {
        "true"
    } else {
        "false"
    }
}

fn op_str(op: BinaryOperator) -> (r: &'static str)
    ensures
        r@ == op_name(op),
{
    match op {
        BinaryOperator::And => "And",
        BinaryOperator::Or => "Or",
        BinaryOperator::Eq => "Eq",
        BinaryOperator::Ne => "Ne",
        BinaryOperator::Gt => "Gt",
        BinaryOperator::Ge => "Ge",
        BinaryOperator::Lt => "Lt",
        BinaryOperator::Le => "Le",
    }
}

fn inline_attr_of(e: &CsdlAnnotationExpression) -> (r: Option<(&'static str, String)>)
    ensures
        match inline_attr(*e) {
            Some(kv) => r matches Some(p) && p.0@ == kv.0 && p.1@ == kv.1,
            None => r is None,
        },
{
    match e {
        CsdlAnnotationExpression::Binary(v) => Some(("Binary", lossy_string(v.as_slice()))),
        CsdlAnnotationExpression::Bool(v) => Some(("Bool", owned(bool_str(*v)))),
        CsdlAnnotationExpression::Date(v) => Some(("Date", owned(v.as_str()))),
        CsdlAnnotationExpression::DateTimeOffset(v) => Some(("DateTimeOffset", owned(v.as_str()))),
        CsdlAnnotationExpression::Decimal(v) => Some(("Decimal", owned(v.as_str()))),
        CsdlAnnotationExpression::Duration(v) => Some(("Duration", owned(v.as_str()))),
        CsdlAnnotationExpression::EnumMember(v) => Some(("EnumMember", owned(v.as_str()))),
        CsdlAnnotationExpression::Float(v) => Some(("Float", owned(v.as_str()))),
        CsdlAnnotationExpression::Guid(v) => Some(("Guid", owned(v.as_str()))),
        CsdlAnnotationExpression::Int(v) => Some(("Int", i64_to_decimal(*v))),
        CsdlAnnotationExpression::String(v) => Some(("String", owned(v.as_str()))),
        CsdlAnnotationExpression::TimeOfDay(v) => Some(("TimeOfDay", owned(v.as_str()))),
        CsdlAnnotationExpression::Path(v) => Some(("Path", owned(v.as_str()))),
        CsdlAnnotationExpression::PropertyPath(v) => Some(("PropertyPath", owned(v.as_str()))),
        CsdlAnnotationExpression::NavigationPropertyPath(v) => Some(
            ("NavigationPropertyPath", owned(v.as_str())),
        ),
        CsdlAnnotationExpression::AnnotationPath(v) => Some(("AnnotationPath", owned(v.as_str()))),
        _ => None,
    }
}

/// Emits the events of an annotation expression (see [`expr_xml`]).
pub fn expr_to_xml(out: &mut Vec<XmlOut>, e: &CsdlAnnotationExpression)
    ensures
        out_views(final(out)@) == out_views(old(out)@) + expr_xml(*e),
    decreases e,
{
    let ghost o = out_views(out@);
    match e {
        CsdlAnnotationExpression::Binary(v) => text_elem(out, "Binary", lossy_string(v.as_slice())),
        CsdlAnnotationExpression::Bool(v) => text_elem(out, "Bool", owned(bool_str(*v))),
        CsdlAnnotationExpression::Date(v) => text_elem(out, "Date", owned(v.as_str())),
        CsdlAnnotationExpression::DateTimeOffset(v) => text_elem(out, "DateTimeOffset", owned(v.as_str())),
        CsdlAnnotationExpression::Decimal(v) => text_elem(out, "Decimal", owned(v.as_str())),
        CsdlAnnotationExpression::Duration(v) => text_elem(out, "Duration", owned(v.as_str())),
        CsdlAnnotationExpression::EnumMember(v) => text_elem(out, "EnumMember", owned(v.as_str())),
        CsdlAnnotationExpression::Float(v) => text_elem(out, "Float", owned(v.as_str())),
        CsdlAnnotationExpression::Guid(v) => text_elem(out, "Guid", owned(v.as_str())),
        CsdlAnnotationExpression::Int(v) => text_elem(out, "Int", i64_to_decimal(*v)),
        CsdlAnnotationExpression::String(v) => text_elem(out, "String", owned(v.as_str())),
        CsdlAnnotationExpression::TimeOfDay(v) => text_elem(out, "TimeOfDay", owned(v.as_str())),
        CsdlAnnotationExpression::Null => {
            empty_tag(out, "Null", no_attrs());
            assert(out_views(out@) =~= o + expr_xml(*e));
        },
        CsdlAnnotationExpression::Path(v) => text_elem(out, "Path", owned(v.as_str())),
        CsdlAnnotationExpression::PropertyPath(v) => text_elem(out, "PropertyPath", owned(v.as_str())),
        CsdlAnnotationExpression::NavigationPropertyPath(v) => text_elem(
            out,
            "NavigationPropertyPath",
            owned(v.as_str()),
        ),
        CsdlAnnotationExpression::AnnotationPath(v) => text_elem(out, "AnnotationPath", owned(v.as_str())),
        CsdlAnnotationExpression::Not(inner) => {
            start_tag(out, "Not", no_attrs());
            expr_to_xml(out, inner);
            end_tag(out, "Not");
            assert(out_views(out@) =~= o + expr_xml(*e));
        },
        CsdlAnnotationExpression::BinaryExpression { op, lhs, rhs } => {
            let name = op_str(*op);
            start_tag(out, name, no_attrs());
            expr_to_xml(out, lhs);
            expr_to_xml(out, rhs);
            end_tag(out, name);
            assert(out_views(out@) =~= o + expr_xml(*e));
        },
        CsdlAnnotationExpression::If { test, then_, else_ } => {
            start_tag(out, "If", no_attrs());
            expr_to_xml(out, test);
            expr_to_xml(out, then_);
            match else_ {
                Some(x) => expr_to_xml(out, x),
                None => {},
            }
            end_tag(out, "If");
            assert(out_views(out@) =~= o + expr_xml(*e));
        },
        CsdlAnnotationExpression::Apply { function, args } => {
            start_tag(out, "Apply", attrs_of("Function", function.as_str()));
            exprs_to_xml(out, args);
            end_tag(out, "Apply");
            assert(out_views(out@) =~= o + expr_xml(*e));
        },
        CsdlAnnotationExpression::Cast { type_, expr } => {
            start_tag(out, "Cast", attrs_of("Type", type_.as_str()));
            expr_to_xml(out, expr);
            end_tag(out, "Cast");
            assert(out_views(out@) =~= o + expr_xml(*e));
        },
        CsdlAnnotationExpression::IsOf { type_, expr } => {
            start_tag(out, "IsOf", attrs_of("Type", type_.as_str()));
            expr_to_xml(out, expr);
            end_tag(out, "IsOf");
            assert(out_views(out@) =~= o + expr_xml(*e));
        },
        CsdlAnnotationExpression::Record { type_, properties, annotations } => {
            let attrs = match type_ {
                Some(t) => attrs_of("Type", t.as_str()),
                None => no_attrs(),
            };
            if properties.len() == 0 && annotations.len() == 0 {
                empty_tag(out, "Record", attrs);
            } else {
                start_tag(out, "Record", attrs);
                property_values_to_xml(out, properties);
                annotations_to_xml(out, annotations);
                end_tag(out, "Record");
            }
            assert(out_views(out@) =~= o + expr_xml(*e));
        },
        CsdlAnnotationExpression::Collection(items) => {
            if items.len() == 0 {
                empty_tag(out, "Collection", no_attrs());
            } else {
                start_tag(out, "Collection", no_attrs());
                exprs_to_xml(out, items);
                end_tag(out, "Collection");
            }
            assert(out_views(out@) =~= o + expr_xml(*e));
        },
        CsdlAnnotationExpression::LabeledElement { name, expr } => {
            start_tag(out, "LabeledElement", attrs_of("Name", name.as_str()));
            expr_to_xml(out, expr);
            end_tag(out, "LabeledElement");
            assert(out_views(out@) =~= o + expr_xml(*e));
        },
        CsdlAnnotationExpression::LabeledElementReference(v) => text_elem(
            out,
            "LabeledElementReference",
            owned(v.as_str()),
        ),
        CsdlAnnotationExpression::UrlRef(inner) => {
            start_tag(out, "UrlRef", no_attrs());
            expr_to_xml(out, inner);
            end_tag(out, "UrlRef");
            assert(out_views(out@) =~= o + expr_xml(*e));
        },
    }
}

fn exprs_to_xml(out: &mut Vec<XmlOut>, items: &Vec<CsdlAnnotationExpression>)
    ensures
        out_views(final(out)@) == out_views(old(out)@) + exprs_xml(items@),
    decreases items,
{
    let ghost o = out_views(out@);
    let mut i: usize = 0;
    while i < items.len()
        invariant
            i <= items@.len(),
            out_views(out@) == o + exprs_xml(items@.subrange(0, i as int)),
        decreases items.len() - i,
    {
        expr_to_xml(out, &items[i]);
        proof {
            assert(items@.subrange(0, i + 1).subrange(0, i as int) =~= items@.subrange(0, i as int));
            assert(o + exprs_xml(items@.subrange(0, i as int)) + expr_xml(items@[i as int]) =~= o + exprs_xml(
                items@.subrange(0, i + 1),
            ));
        }
        i = i + 1;
    }
    assert(items@.subrange(0, items@.len() as int) =~= items@);
}

/// Emits an `<Annotation>` (see [`annotation_xml`]).
pub fn annotation_to_xml(out: &mut Vec<XmlOut>, a: &Annotation)
    ensures
        out_views(final(out)@) == out_views(old(out)@) + annotation_xml(*a),
    decreases a,
{
    let ghost o = out_views(out@);
    let mut attrs = attrs_of("Term", a.term.as_str());
    match &a.qualifier {
        Some(q) => add_attr(&mut attrs, "Qualifier", owned(q.as_str())),
        None => {},
    }
    match &a.target {
        Some(t) => add_attr(&mut attrs, "Target", owned(t.as_str())),
        None => {},
    }
    match &a.expression {
        Some(e) => {
            if matches!(e, CsdlAnnotationExpression::Bool(true)) {
                empty_tag(out, "Annotation", attrs);
            } else {
                match inline_attr_of(e) {
                    Some(kv) => {
                        add_attr(&mut attrs, kv.0, kv.1);
                        empty_tag(out, "Annotation", attrs);
                    },
                    None => {
                        start_tag(out, "Annotation", attrs);
                        expr_to_xml(out, e);
                        end_tag(out, "Annotation");
                    },
                }
            }
        },
        None => {
            empty_tag(out, "Annotation", attrs);
        },
    }
    assert(out_views(out@) =~= o + annotation_xml(*a));
}

fn annotations_to_xml(out: &mut Vec<XmlOut>, s: &Vec<Annotation>)
    ensures
        out_views(final(out)@) == out_views(old(out)@) + annotations_xml(s@),
    decreases s,
{
    let ghost o = out_views(out@);
    let mut i: usize = 0;
    while i < s.len()
        invariant
            i <= s@.len(),
            out_views(out@) == o + annotations_xml(s@.subrange(0, i as int)),
        decreases s.len() - i,
    {
        annotation_to_xml(out, &s[i]);
        proof {
            assert(s@.subrange(0, i + 1).subrange(0, i as int) =~= s@.subrange(0, i as int));
            assert(o + annotations_xml(s@.subrange(0, i as int)) + annotation_xml(s@[i as int]) =~= o
                + annotations_xml(s@.subrange(0, i + 1)));
        }
        i = i + 1;
    }
    assert(s@.subrange(0, s@.len() as int) =~= s@);
}

fn property_value_to_xml(out: &mut Vec<XmlOut>, pv: &PropertyValue)
    ensures
        out_views(final(out)@) == out_views(old(out)@) + property_value_xml(*pv),
    decreases pv,
{
    let ghost o = out_views(out@);
    let mut attrs = attrs_of("Property", pv.property.as_str());
    let no_anns = pv.annotations.len() == 0;
    match &pv.value {
        Some(v) => match inline_attr_of(v) {
            Some(kv) => {
                add_attr(&mut attrs, kv.0, kv.1);
                if no_anns {
                    empty_tag(out, "PropertyValue", attrs);
                } else {
                    start_tag(out, "PropertyValue", attrs);
                    annotations_to_xml(out, &pv.annotations);
                    end_tag(out, "PropertyValue");
                }
            },
            None => {
                start_tag(out, "PropertyValue", attrs);
                expr_to_xml(out, v);
                annotations_to_xml(out, &pv.annotations);
                end_tag(out, "PropertyValue");
            },
        },
        None => {
            if no_anns {
                empty_tag(out, "PropertyValue", attrs);
            } else {
                start_tag(out, "PropertyValue", attrs);
                annotations_to_xml(out, &pv.annotations);
                end_tag(out, "PropertyValue");
            }
        },
    }
    assert(out_views(out@) =~= o + property_value_xml(*pv));
}

fn property_values_to_xml(out: &mut Vec<XmlOut>, s: &Vec<PropertyValue>)
    ensures
        out_views(final(out)@) == out_views(old(out)@) + property_values_xml(s@),
    decreases s,
{
    let ghost o = out_views(out@);
    let mut i: usize = 0;
    while i < s.len()
        invariant
            i <= s@.len(),
            out_views(out@) == o + property_values_xml(s@.subrange(0, i as int)),
        decreases s.len() - i,
    {
        property_value_to_xml(out, &s[i]);
        proof {
            assert(s@.subrange(0, i + 1).subrange(0, i as int) =~= s@.subrange(0, i as int));
            assert(o + property_values_xml(s@.subrange(0, i as int)) + property_value_xml(s@[i as int])
                =~= o + property_values_xml(s@.subrange(0, i + 1)));
        }
        i = i + 1;
    }
    assert(s@.subrange(0, s@.len() as int) =~= s@);
}

// ---------------------------------------------------------------------------
// Emitting the document
// ---------------------------------------------------------------------------

fn opt_bool_attr_exec(a: &mut Vec<(String, String)>, k: &str, v: Option<bool>)
    ensures
        attrs_view(final(a)@) == opt_bool_attr(attrs_view(old(a)@), k@, v),
{
    match v {
        Some(b) => add_attr(a, k, owned(bool_str(b))),
        None => {},
    }
}

fn opt_str_attr_exec(a: &mut Vec<(String, String)>, k: &str, v: &Option<String>)
    ensures
        attrs_view(final(a)@) == opt_str_attr(attrs_view(old(a)@), k@, *v),
{
    match v {
        Some(x) => add_attr(a, k, owned(x.as_str())),
        None => {},
    }
}

fn type_attr_exec(a: &mut Vec<(String, String)>, t: &Option<String>, coll: bool)
    ensures
        attrs_view(final(a)@) == type_attr(attrs_view(old(a)@), *t, coll),
{
    match t {
        Some(x) => {
            let v = if coll {
                concat3("Collection(", x.as_str(), ")")
            } else {
                owned(x.as_str())
            };
            add_attr(a, "Type", v);
        },
        None => {},
    }
}

fn facet_attrs_exec(
    a: &mut Vec<(String, String)>,
    max_length: Option<MaxLengthFacet>,
    precision: &Option<String>,
    scale: Option<ScaleFacet>,
    srid: Option<SridFacet>,
    unicode: Option<bool>,
)
    ensures
        attrs_view(final(a)@) == facet_attrs(attrs_view(old(a)@), max_length, *precision, scale, srid, unicode),
{
    match max_length {
        Some(x) => add_attr(a, "MaxLength", x.as_str()),
        None => {},
    }
    opt_str_attr_exec(a, "Precision", precision);
    match scale {
        Some(x) => add_attr(a, "Scale", x.as_str()),
        None => {},
    }
    match srid {
        Some(x) => add_attr(a, "SRID", x.as_str()),
        None => {},
    }
    opt_bool_attr_exec(a, "Unicode", unicode);
}

/// An element whose only children are annotations.
fn emit_annotated(out: &mut Vec<XmlOut>, name: &str, attrs: Vec<(String, String)>, a: &Vec<Annotation>)
    ensures
        out_views(final(out)@) == out_views(old(out)@) + annotated(name@, attrs_view(attrs@), *a),
{
    let ghost o = out_views(out@);
    let ghost av = attrs_view(attrs@);
    if a.len() == 0 {
        empty_tag(out, name, attrs);
    } else {
        start_tag(out, name, attrs);
        annotations_to_xml(out, a);
        end_tag(out, name);
    }
    assert(out_views(out@) =~= o + annotated(name@, av, *a));
}

fn emit_property(out: &mut Vec<XmlOut>, p: &Property)
    ensures
        out_views(final(out)@) == out_views(old(out)@) + property_xml(*p),
{
    let mut a = attrs_of("Name", p.name.as_str());
    type_attr_exec(&mut a, &p.type_ref, p.is_collection);
    opt_bool_attr_exec(&mut a, "Nullable", p.nullable);
    facet_attrs_exec(&mut a, p.max_length, &p.precision, p.scale, p.srid, p.unicode);
    opt_str_attr_exec(&mut a, "DefaultValue", &p.default_value);
    emit_annotated(out, "Property", a, &p.annotations);
}

fn emit_constraint(out: &mut Vec<XmlOut>, c: &ReferentialConstraint)
    ensures
        out_views(final(out)@) == out_views(old(out)@) + constraint_xml(*c),
{
    let mut a = attrs_of("Property", c.property.as_str());
    add_attr(&mut a, "ReferencedProperty", owned(c.referenced_property.as_str()));
    assert(attrs_view(a@) =~= seq![("Property"@, c.property@), ("ReferencedProperty"@, c.referenced_property@)]);
    emit_annotated(out, "ReferentialConstraint", a, &c.annotations);
}

fn emit_constraints(out: &mut Vec<XmlOut>, s: &Vec<ReferentialConstraint>)
    ensures
        out_views(final(out)@) == out_views(old(out)@) + flat(s@.map_values(constraint_xml_fn())),
{
    let ghost o = out_views(out@);
    let mut i: usize = 0;
    while i < s.len()
        invariant
            i <= s@.len(),
            out_views(out@) == o + flat(s@.take(i as int).map_values(constraint_xml_fn())),
        decreases s.len() - i,
    {
        let ghost before = out_views(out@);
        emit_constraint(out, &s[i]);
        proof {
            let f = constraint_xml_fn();
            assert(s@.take(i + 1).map_values(f).drop_last() =~= s@.take(i as int).map_values(f));
            assert(s@.take(i + 1).map_values(f).last() == f(s@[i as int]));
            assert(o + flat(s@.take(i + 1).map_values(f)) =~= before + f(s@[i as int]));
        }
        i = i + 1;
    }
    assert(s@.take(s@.len() as int) =~= s@);
}

fn emit_navigation(out: &mut Vec<XmlOut>, n: &NavigationProperty)
    ensures
        out_views(final(out)@) == out_views(old(out)@) + navigation_xml(*n),
{
    let ghost o = out_views(out@);
    let mut a = attrs_of("Name", n.name.as_str());
    type_attr_exec(&mut a, &n.type_ref, n.is_collection);
    opt_bool_attr_exec(&mut a, "Nullable", n.nullable);
    opt_str_attr_exec(&mut a, "Partner", &n.partner);
    opt_bool_attr_exec(&mut a, "ContainsTarget", n.contains_target);
    let ghost av = attrs_view(a@);
    if n.on_delete.is_none() && n.referential_constraints.len() == 0 && n.annotations.len() == 0 {
        empty_tag(out, "NavigationProperty", a);
    } else {
        start_tag(out, "NavigationProperty", a);
        match n.on_delete {
            Some(x) => empty_tag(out, "OnDelete", attrs_of("Action", x.as_str())),
            None => {},
        }
        emit_constraints(out, &n.referential_constraints);
        annotations_to_xml(out, &n.annotations);
        end_tag(out, "NavigationProperty");
    }
    assert(out_views(out@) =~= o + navigation_xml(*n));
}

fn emit_properties(out: &mut Vec<XmlOut>, s: &Vec<Property>)
    ensures
        out_views(final(out)@) == out_views(old(out)@) + flat(s@.map_values(property_xml_fn())),
{
    let ghost o = out_views(out@);
    let mut i: usize = 0;
    while i < s.len()
        invariant
            i <= s@.len(),
            out_views(out@) == o + flat(s@.take(i as int).map_values(property_xml_fn())),
        decreases s.len() - i,
    {
        let ghost before = out_views(out@);
        emit_property(out, &s[i]);
        proof {
            let f = property_xml_fn();
            assert(s@.take(i + 1).map_values(f).drop_last() =~= s@.take(i as int).map_values(f));
            assert(s@.take(i + 1).map_values(f).last() == f(s@[i as int]));
            assert(o + flat(s@.take(i + 1).map_values(f)) =~= before + f(s@[i as int]));
        }
        i = i + 1;
    }
    assert(s@.take(s@.len() as int) =~= s@);
}

fn emit_navigations(out: &mut Vec<XmlOut>, s: &Vec<NavigationProperty>)
    ensures
        out_views(final(out)@) == out_views(old(out)@) + flat(s@.map_values(navigation_xml_fn())),
{
    let ghost o = out_views(out@);
    let mut i: usize = 0;
    while i < s.len()
        invariant
            i <= s@.len(),
            out_views(out@) == o + flat(s@.take(i as int).map_values(navigation_xml_fn())),
        decreases s.len() - i,
    {
        let ghost before = out_views(out@);
        emit_navigation(out, &s[i]);
        proof {
            let f = navigation_xml_fn();
            assert(s@.take(i + 1).map_values(f).drop_last() =~= s@.take(i as int).map_values(f));
            assert(s@.take(i + 1).map_values(f).last() == f(s@[i as int]));
            assert(o + flat(s@.take(i + 1).map_values(f)) =~= before + f(s@[i as int]));
        }
        i = i + 1;
    }
    assert(s@.take(s@.len() as int) =~= s@);
}

fn emit_property_refs(out: &mut Vec<XmlOut>, s: &Vec<crate::csdl::PropertyRef>)
    ensures
        out_views(final(out)@) == out_views(old(out)@) + s@.map_values(property_ref_xml_fn()),
{
    let ghost o = out_views(out@);
    let mut i: usize = 0;
    while i < s.len()
        invariant
            i <= s@.len(),
            out_views(out@) == o + s@.take(i as int).map_values(property_ref_xml_fn()),
        decreases s.len() - i,
    {
        let x = &s[i];
        push_out(out, XmlOut::Empty { name: owned("PropertyRef"), attributes: attrs_of("Name", x.name.as_str()) });
        proof {
            let f = property_ref_xml_fn();
            assert(o + s@.take(i + 1).map_values(f) =~= (o + s@.take(i as int).map_values(f)).push(f(s@[i as int])));
        }
        i = i + 1;
    }
    assert(s@.take(s@.len() as int) =~= s@);
}

fn emit_key(out: &mut Vec<XmlOut>, k: &Key)
    ensures
        out_views(final(out)@) == out_views(old(out)@) + key_xml(*k),
{
    let ghost o = out_views(out@);
    if k.property_refs.len() == 0 {
        empty_tag(out, "Key", no_attrs());
    } else {
        start_tag(out, "Key", no_attrs());
        emit_property_refs(out, &k.property_refs);
        end_tag(out, "Key");
    }
    assert(out_views(out@) =~= o + key_xml(*k));
}

fn emit_entity_type(out: &mut Vec<XmlOut>, e: &EntityType)
    ensures
        out_views(final(out)@) == out_views(old(out)@) + entity_type_xml(*e),
{
    let ghost o = out_views(out@);
    let mut a = attrs_of("Name", e.name.as_str());
    opt_str_attr_exec(&mut a, "BaseType", &e.base_type);
    opt_bool_attr_exec(&mut a, "Abstract", e.abstract_);
    opt_bool_attr_exec(&mut a, "OpenType", e.open_type);
    opt_bool_attr_exec(&mut a, "HasStream", e.has_stream);
    if e.key.is_none() && e.properties.len() == 0 && e.navigation_properties.len() == 0 && e.annotations.len() == 0 {
        empty_tag(out, "EntityType", a);
    } else {
        start_tag(out, "EntityType", a);
        match &e.key {
            Some(k) => emit_key(out, k),
            None => {},
        }
        emit_properties(out, &e.properties);
        emit_navigations(out, &e.navigation_properties);
        annotations_to_xml(out, &e.annotations);
        end_tag(out, "EntityType");
    }
    assert(out_views(out@) =~= o + entity_type_xml(*e));
}

fn emit_complex_type(out: &mut Vec<XmlOut>, c: &ComplexType)
    ensures
        out_views(final(out)@) == out_views(old(out)@) + complex_type_xml(*c),
{
    let ghost o = out_views(out@);
    let mut a = attrs_of("Name", c.name.as_str());
    opt_str_attr_exec(&mut a, "BaseType", &c.base_type);
    opt_bool_attr_exec(&mut a, "Abstract", c.abstract_);
    opt_bool_attr_exec(&mut a, "OpenType", c.open_type);
    if c.properties.len() == 0 && c.navigation_properties.len() == 0 && c.annotations.len() == 0 {
        empty_tag(out, "ComplexType", a);
    } else {
        start_tag(out, "ComplexType", a);
        emit_properties(out, &c.properties);
        emit_navigations(out, &c.navigation_properties);
        annotations_to_xml(out, &c.annotations);
        end_tag(out, "ComplexType");
    }
    assert(out_views(out@) =~= o + complex_type_xml(*c));
}

fn emit_member(out: &mut Vec<XmlOut>, m: &crate::csdl::EnumMember)
    ensures
        out_views(final(out)@) == out_views(old(out)@) + member_xml(*m),
{
    let mut a = attrs_of("Name", m.name.as_str());
    match m.value {
        Some(v) => add_attr(&mut a, "Value", i64_to_decimal(v)),
        None => {},
    }
    proof {
        match m.value {
            Some(v) => {
                assert(attrs_view(a@) =~= seq![("Name"@, m.name@), ("Value"@, signed_decimal(v))]);
            },
            None => {},
        }
    }
    emit_annotated(out, "Member", a, &m.annotations);
}

fn emit_members(out: &mut Vec<XmlOut>, s: &Vec<crate::csdl::EnumMember>)
    ensures
        out_views(final(out)@) == out_views(old(out)@) + flat(s@.map_values(member_xml_fn())),
{
    let ghost o = out_views(out@);
    let mut i: usize = 0;
    while i < s.len()
        invariant
            i <= s@.len(),
            out_views(out@) == o + flat(s@.take(i as int).map_values(member_xml_fn())),
        decreases s.len() - i,
    {
        let ghost before = out_views(out@);
        emit_member(out, &s[i]);
        proof {
            let f = member_xml_fn();
            assert(s@.take(i + 1).map_values(f).drop_last() =~= s@.take(i as int).map_values(f));
            assert(s@.take(i + 1).map_values(f).last() == f(s@[i as int]));
            assert(o + flat(s@.take(i + 1).map_values(f)) =~= before + f(s@[i as int]));
        }
        i = i + 1;
    }
    assert(s@.take(s@.len() as int) =~= s@);
}

fn emit_enum_type(out: &mut Vec<XmlOut>, e: &EnumType)
    ensures
        out_views(final(out)@) == out_views(old(out)@) + enum_type_xml(*e),
{
    let ghost o = out_views(out@);
    let mut a = attrs_of("Name", e.name.as_str());
    opt_str_attr_exec(&mut a, "UnderlyingType", &e.underlying_type);
    opt_bool_attr_exec(&mut a, "IsFlags", e.is_flags);
    if e.members.len() == 0 && e.annotations.len() == 0 {
        empty_tag(out, "EnumType", a);
    } else {
        start_tag(out, "EnumType", a);
        emit_members(out, &e.members);
        annotations_to_xml(out, &e.annotations);
        end_tag(out, "EnumType");
    }
    assert(out_views(out@) =~= o + enum_type_xml(*e));
}

fn emit_parameter(out: &mut Vec<XmlOut>, p: &Parameter)
    ensures
        out_views(final(out)@) == out_views(old(out)@) + parameter_xml(*p),
{
    let mut a = attrs_of("Name", p.name.as_str());
    type_attr_exec(&mut a, &p.type_ref, p.is_collection);
    opt_bool_attr_exec(&mut a, "Nullable", p.nullable);
    facet_attrs_exec(&mut a, p.max_length, &p.precision, p.scale, p.srid, p.unicode);
    opt_str_attr_exec(&mut a, "DefaultValue", &p.default_value);
    emit_annotated(out, "Parameter", a, &p.annotations);
}

fn emit_return_type(out: &mut Vec<XmlOut>, r: &ReturnType)
    ensures
        out_views(final(out)@) == out_views(old(out)@) + return_type_xml(*r),
{
    let mut a = no_attrs();
    type_attr_exec(&mut a, &r.type_ref, r.is_collection);
    opt_bool_attr_exec(&mut a, "Nullable", r.nullable);
    facet_attrs_exec(&mut a, r.max_length, &r.precision, r.scale, r.srid, r.unicode);
    emit_annotated(out, "ReturnType", a, &r.annotations);
}

fn emit_parameters(out: &mut Vec<XmlOut>, s: &Vec<Parameter>)
    ensures
        out_views(final(out)@) == out_views(old(out)@) + flat(s@.map_values(parameter_xml_fn())),
{
    let ghost o = out_views(out@);
    let mut i: usize = 0;
    while i < s.len()
        invariant
            i <= s@.len(),
            out_views(out@) == o + flat(s@.take(i as int).map_values(parameter_xml_fn())),
        decreases s.len() - i,
    {
        let ghost before = out_views(out@);
        emit_parameter(out, &s[i]);
        proof {
            let f = parameter_xml_fn();
            assert(s@.take(i + 1).map_values(f).drop_last() =~= s@.take(i as int).map_values(f));
            assert(s@.take(i + 1).map_values(f).last() == f(s@[i as int]));
            assert(o + flat(s@.take(i + 1).map_values(f)) =~= before + f(s@[i as int]));
        }
        i = i + 1;
    }
    assert(s@.take(s@.len() as int) =~= s@);
}

/// A `<Function>` or `<Action>` (see [`callable_xml`]).
fn emit_callable(
    out: &mut Vec<XmlOut>,
    element_name: &str,
    name: &str,
    is_bound: Option<bool>,
    is_composable: Option<bool>,
    esp: &Option<String>,
    params: &Vec<Parameter>,
    rt: &Option<ReturnType>,
    a: &Vec<Annotation>,
)
    ensures
        out_views(final(out)@) == out_views(old(out)@) + callable_xml(
            element_name@,
            name@,
            is_bound,
            is_composable,
            *esp,
            params@,
            *rt,
            *a,
        ),
{
    let ghost o = out_views(out@);
    let mut attrs = attrs_of("Name", name);
    opt_bool_attr_exec(&mut attrs, "IsBound", is_bound);
    opt_str_attr_exec(&mut attrs, "EntitySetPath", esp);
    if crate::text::str_eq(element_name, "Function") {
        opt_bool_attr_exec(&mut attrs, "IsComposable", is_composable);
    }
    if params.len() == 0 && rt.is_none() && a.len() == 0 {
        empty_tag(out, element_name, attrs);
    } else {
        start_tag(out, element_name, attrs);
        emit_parameters(out, params);
        match rt {
            Some(r) => emit_return_type(out, r),
            None => {},
        }
        annotations_to_xml(out, a);
        end_tag(out, element_name);
    }
    assert(out_views(out@) =~= o + callable_xml(element_name@, name@, is_bound, is_composable, *esp, params@, *rt, *a));
}

fn emit_type_definition(out: &mut Vec<XmlOut>, t: &TypeDefinition)
    ensures
        out_views(final(out)@) == out_views(old(out)@) + type_definition_xml(*t),
{
    let mut a = attrs_of("Name", t.name.as_str());
    add_attr(&mut a, "UnderlyingType", owned(t.underlying_type.as_str()));
    assert(attrs_view(a@) =~= seq![("Name"@, t.name@), ("UnderlyingType"@, t.underlying_type@)]);
    facet_attrs_exec(&mut a, t.max_length, &t.precision, t.scale, t.srid, t.unicode);
    emit_annotated(out, "TypeDefinition", a, &t.annotations);
}

fn emit_term(out: &mut Vec<XmlOut>, t: &Term)
    ensures
        out_views(final(out)@) == out_views(old(out)@) + term_xml(*t),
{
    let mut a = attrs_of("Name", t.name.as_str());
    type_attr_exec(&mut a, &t.type_ref, t.is_collection);
    opt_str_attr_exec(&mut a, "BaseTerm", &t.base_term);
    opt_str_attr_exec(&mut a, "DefaultValue", &t.default_value);
    if t.applies_to.len() > 0 {
        add_attr(&mut a, "AppliesTo", join_with(&t.applies_to, " "));
    }
    opt_bool_attr_exec(&mut a, "Nullable", t.nullable);
    facet_attrs_exec(&mut a, t.max_length, &t.precision, t.scale, t.srid, t.unicode);
    emit_annotated(out, "Term", a, &t.annotations);
}

fn emit_bindings(out: &mut Vec<XmlOut>, s: &Vec<NavigationPropertyBinding>)
    ensures
        out_views(final(out)@) == out_views(old(out)@) + s@.map_values(binding_xml_fn()),
{
    let ghost o = out_views(out@);
    let mut i: usize = 0;
    while i < s.len()
        invariant
            i <= s@.len(),
            out_views(out@) == o + s@.take(i as int).map_values(binding_xml_fn()),
        decreases s.len() - i,
    {
        let x = &s[i];
        push_out(out, XmlOut::Empty { name: owned("NavigationPropertyBinding"), attributes: binding_attrs(x) });
        proof {
            let f = binding_xml_fn();
            assert(o + s@.take(i + 1).map_values(f) =~= (o + s@.take(i as int).map_values(f)).push(f(s@[i as int])));
        }
        i = i + 1;
    }
    assert(s@.take(s@.len() as int) =~= s@);
}

fn binding_attrs(b: &NavigationPropertyBinding) -> (r: Vec<(String, String)>)
    ensures
        attrs_view(r@) == seq![("Path"@, b.path@), ("Target"@, b.target@)],
{
    let mut a = attrs_of("Path", b.path.as_str());
    add_attr(&mut a, "Target", owned(b.target.as_str()));
    assert(attrs_view(a@) =~= seq![("Path"@, b.path@), ("Target"@, b.target@)]);
    a
}

fn emit_entity_set(out: &mut Vec<XmlOut>, x: &EntitySet)
    ensures
        out_views(final(out)@) == out_views(old(out)@) + entity_set_xml(*x),
{
    let ghost o = out_views(out@);
    let mut a = attrs_of("Name", x.name.as_str());
    opt_str_attr_exec(&mut a, "EntityType", &x.entity_type);
    opt_bool_attr_exec(&mut a, "IncludeInServiceDocument", x.include_in_service_document);
    if x.navigation_property_bindings.len() == 0 && x.annotations.len() == 0 {
        empty_tag(out, "EntitySet", a);
    } else {
        start_tag(out, "EntitySet", a);
        emit_bindings(out, &x.navigation_property_bindings);
        annotations_to_xml(out, &x.annotations);
        end_tag(out, "EntitySet");
    }
    assert(out_views(out@) =~= o + entity_set_xml(*x));
}

fn emit_singleton(out: &mut Vec<XmlOut>, x: &Singleton)
    ensures
        out_views(final(out)@) == out_views(old(out)@) + singleton_xml(*x),
{
    let ghost o = out_views(out@);
    let mut a = attrs_of("Name", x.name.as_str());
    opt_str_attr_exec(&mut a, "Type", &x.type_ref);
    opt_bool_attr_exec(&mut a, "IncludeInServiceDocument", x.include_in_service_document);
    if x.navigation_property_bindings.len() == 0 && x.annotations.len() == 0 {
        empty_tag(out, "Singleton", a);
    } else {
        start_tag(out, "Singleton", a);
        emit_bindings(out, &x.navigation_property_bindings);
        annotations_to_xml(out, &x.annotations);
        end_tag(out, "Singleton");
    }
    assert(out_views(out@) =~= o + singleton_xml(*x));
}

fn emit_function_import(out: &mut Vec<XmlOut>, x: &FunctionImport)
    ensures
        out_views(final(out)@) == out_views(old(out)@) + function_import_xml(*x),
{
    let mut a = attrs_of("Name", x.name.as_str());
    opt_str_attr_exec(&mut a, "EntitySet", &x.entity_set);
    opt_str_attr_exec(&mut a, "Function", &x.function);
    opt_bool_attr_exec(&mut a, "IncludeInServiceDocument", x.include_in_service_document);
    emit_annotated(out, "FunctionImport", a, &x.annotations);
}

fn emit_action_import(out: &mut Vec<XmlOut>, x: &ActionImport)
    ensures
        out_views(final(out)@) == out_views(old(out)@) + action_import_xml(*x),
{
    let mut a = attrs_of("Name", x.name.as_str());
    opt_str_attr_exec(&mut a, "Action", &x.action);
    opt_str_attr_exec(&mut a, "EntitySet", &x.entity_set);
    opt_bool_attr_exec(&mut a, "IncludeInServiceDocument", x.include_in_service_document);
    emit_annotated(out, "ActionImport", a, &x.annotations);
}

fn emit_entity_sets(out: &mut Vec<XmlOut>, s: &Vec<EntitySet>)
    ensures
        out_views(final(out)@) == out_views(old(out)@) + flat(s@.map_values(entity_set_xml_fn())),
{
    let ghost o = out_views(out@);
    let mut i: usize = 0;
    while i < s.len()
        invariant
            i <= s@.len(),
            out_views(out@) == o + flat(s@.take(i as int).map_values(entity_set_xml_fn())),
        decreases s.len() - i,
    {
        let ghost before = out_views(out@);
        emit_entity_set(out, &s[i]);
        proof {
            let f = entity_set_xml_fn();
            assert(s@.take(i + 1).map_values(f).drop_last() =~= s@.take(i as int).map_values(f));
            assert(s@.take(i + 1).map_values(f).last() == f(s@[i as int]));
            assert(o + flat(s@.take(i + 1).map_values(f)) =~= before + f(s@[i as int]));
        }
        i = i + 1;
    }
    assert(s@.take(s@.len() as int) =~= s@);
}

fn emit_singletons(out: &mut Vec<XmlOut>, s: &Vec<Singleton>)
    ensures
        out_views(final(out)@) == out_views(old(out)@) + flat(s@.map_values(singleton_xml_fn())),
{
    let ghost o = out_views(out@);
    let mut i: usize = 0;
    while i < s.len()
        invariant
            i <= s@.len(),
            out_views(out@) == o + flat(s@.take(i as int).map_values(singleton_xml_fn())),
        decreases s.len() - i,
    {
        let ghost before = out_views(out@);
        emit_singleton(out, &s[i]);
        proof {
            let f = singleton_xml_fn();
            assert(s@.take(i + 1).map_values(f).drop_last() =~= s@.take(i as int).map_values(f));
            assert(s@.take(i + 1).map_values(f).last() == f(s@[i as int]));
            assert(o + flat(s@.take(i + 1).map_values(f)) =~= before + f(s@[i as int]));
        }
        i = i + 1;
    }
    assert(s@.take(s@.len() as int) =~= s@);
}

fn emit_function_imports(out: &mut Vec<XmlOut>, s: &Vec<FunctionImport>)
    ensures
        out_views(final(out)@) == out_views(old(out)@) + flat(s@.map_values(function_import_xml_fn())),
{
    let ghost o = out_views(out@);
    let mut i: usize = 0;
    while i < s.len()
        invariant
            i <= s@.len(),
            out_views(out@) == o + flat(s@.take(i as int).map_values(function_import_xml_fn())),
        decreases s.len() - i,
    {
        let ghost before = out_views(out@);
        emit_function_import(out, &s[i]);
        proof {
            let f = function_import_xml_fn();
            assert(s@.take(i + 1).map_values(f).drop_last() =~= s@.take(i as int).map_values(f));
            assert(s@.take(i + 1).map_values(f).last() == f(s@[i as int]));
            assert(o + flat(s@.take(i + 1).map_values(f)) =~= before + f(s@[i as int]));
        }
        i = i + 1;
    }
    assert(s@.take(s@.len() as int) =~= s@);
}

fn emit_action_imports(out: &mut Vec<XmlOut>, s: &Vec<ActionImport>)
    ensures
        out_views(final(out)@) == out_views(old(out)@) + flat(s@.map_values(action_import_xml_fn())),
{
    let ghost o = out_views(out@);
    let mut i: usize = 0;
    while i < s.len()
        invariant
            i <= s@.len(),
            out_views(out@) == o + flat(s@.take(i as int).map_values(action_import_xml_fn())),
        decreases s.len() - i,
    {
        let ghost before = out_views(out@);
        emit_action_import(out, &s[i]);
        proof {
            let f = action_import_xml_fn();
            assert(s@.take(i + 1).map_values(f).drop_last() =~= s@.take(i as int).map_values(f));
            assert(s@.take(i + 1).map_values(f).last() == f(s@[i as int]));
            assert(o + flat(s@.take(i + 1).map_values(f)) =~= before + f(s@[i as int]));
        }
        i = i + 1;
    }
    assert(s@.take(s@.len() as int) =~= s@);
}

fn emit_container(out: &mut Vec<XmlOut>, c: &EntityContainer)
    ensures
        out_views(final(out)@) == out_views(old(out)@) + container_xml(*c),
{
    let ghost o = out_views(out@);
    let mut a = attrs_of("Name", c.name.as_str());
    opt_str_attr_exec(&mut a, "Extends", &c.extends);
    if c.entity_sets.len() == 0 && c.singletons.len() == 0 && c.function_imports.len() == 0
        && c.action_imports.len() == 0 && c.annotations.len() == 0 {
        empty_tag(out, "EntityContainer", a);
    } else {
        start_tag(out, "EntityContainer", a);
        emit_entity_sets(out, &c.entity_sets);
        emit_singletons(out, &c.singletons);
        emit_function_imports(out, &c.function_imports);
        emit_action_imports(out, &c.action_imports);
        annotations_to_xml(out, &c.annotations);
        end_tag(out, "EntityContainer");
    }
    assert(out_views(out@) =~= o + container_xml(*c));
}

fn emit_schema_element(out: &mut Vec<XmlOut>, e: &SchemaElement)
    ensures
        out_views(final(out)@) == out_views(old(out)@) + schema_element_xml(*e),
{
    match e {
        SchemaElement::EntityType(x) => emit_entity_type(out, x),
        SchemaElement::ComplexType(x) => emit_complex_type(out, x),
        SchemaElement::EnumType(x) => emit_enum_type(out, x),
        SchemaElement::TypeDefinition(x) => emit_type_definition(out, x),
        SchemaElement::Term(x) => emit_term(out, x),
        SchemaElement::Function(x) => emit_callable(
            out,
            "Function",
            x.name.as_str(),
            x.is_bound,
            x.is_composable,
            &x.entity_set_path,
            &x.parameters,
            &x.return_type,
            &x.annotations,
        ),
        SchemaElement::Action(x) => emit_callable(
            out,
            "Action",
            x.name.as_str(),
            x.is_bound,
            None,
            &x.entity_set_path,
            &x.parameters,
            &x.return_type,
            &x.annotations,
        ),
        SchemaElement::EntityContainer(x) => emit_container(out, x),
    }
}

fn emit_schema_elements(out: &mut Vec<XmlOut>, s: &Vec<SchemaElement>)
    ensures
        out_views(final(out)@) == out_views(old(out)@) + flat(s@.map_values(schema_element_xml_fn())),
{
    let ghost o = out_views(out@);
    let mut i: usize = 0;
    while i < s.len()
        invariant
            i <= s@.len(),
            out_views(out@) == o + flat(s@.take(i as int).map_values(schema_element_xml_fn())),
        decreases s.len() - i,
    {
        let ghost before = out_views(out@);
        emit_schema_element(out, &s[i]);
        proof {
            let f = schema_element_xml_fn();
            assert(s@.take(i + 1).map_values(f).drop_last() =~= s@.take(i as int).map_values(f));
            assert(s@.take(i + 1).map_values(f).last() == f(s@[i as int]));
            assert(o + flat(s@.take(i + 1).map_values(f)) =~= before + f(s@[i as int]));
        }
        i = i + 1;
    }
    assert(s@.take(s@.len() as int) =~= s@);
}

fn emit_schema(out: &mut Vec<XmlOut>, x: &Schema)
    ensures
        out_views(final(out)@) == out_views(old(out)@) + schema_xml(*x),
{
    let ghost o = out_views(out@);
    let mut a = attrs_of("Namespace", x.namespace.as_str());
    opt_str_attr_exec(&mut a, "Alias", &x.alias);
    start_tag(out, "Schema", a);
    emit_schema_elements(out, &x.elements);
    annotations_to_xml(out, &x.annotations);
    end_tag(out, "Schema");
    assert(out_views(out@) =~= o + schema_xml(*x));
}

fn emit_include(out: &mut Vec<XmlOut>, x: &Include)
    ensures
        out_views(final(out)@) == out_views(old(out)@) + include_xml(*x),
{
    let mut a = attrs_of("Namespace", x.namespace.as_str());
    opt_str_attr_exec(&mut a, "Alias", &x.alias);
    emit_annotated(out, "edmx:Include", a, &x.annotations);
}

fn include_annotations_attrs(x: &IncludeAnnotations) -> (r: Vec<(String, String)>)
    ensures
        attrs_view(r@) == opt_str_attr(
            opt_str_attr(seq![("TermNamespace"@, x.term_namespace@)], "Qualifier"@, x.qualifier),
            "TargetNamespace"@,
            x.target_namespace,
        ),
{
    let mut a = attrs_of("TermNamespace", x.term_namespace.as_str());
    opt_str_attr_exec(&mut a, "Qualifier", &x.qualifier);
    opt_str_attr_exec(&mut a, "TargetNamespace", &x.target_namespace);
    a
}

fn emit_includes(out: &mut Vec<XmlOut>, s: &Vec<Include>)
    ensures
        out_views(final(out)@) == out_views(old(out)@) + flat(s@.map_values(include_xml_fn())),
{
    let ghost o = out_views(out@);
    let mut i: usize = 0;
    while i < s.len()
        invariant
            i <= s@.len(),
            out_views(out@) == o + flat(s@.take(i as int).map_values(include_xml_fn())),
        decreases s.len() - i,
    {
        let ghost before = out_views(out@);
        emit_include(out, &s[i]);
        proof {
            let f = include_xml_fn();
            assert(s@.take(i + 1).map_values(f).drop_last() =~= s@.take(i as int).map_values(f));
            assert(s@.take(i + 1).map_values(f).last() == f(s@[i as int]));
            assert(o + flat(s@.take(i + 1).map_values(f)) =~= before + f(s@[i as int]));
        }
        i = i + 1;
    }
    assert(s@.take(s@.len() as int) =~= s@);
}

fn emit_include_annotations(out: &mut Vec<XmlOut>, s: &Vec<IncludeAnnotations>)
    ensures
        out_views(final(out)@) == out_views(old(out)@) + s@.map_values(include_annotations_xml_fn()),
{
    let ghost o = out_views(out@);
    let mut i: usize = 0;
    while i < s.len()
        invariant
            i <= s@.len(),
            out_views(out@) == o + s@.take(i as int).map_values(include_annotations_xml_fn()),
        decreases s.len() - i,
    {
        let x = &s[i];
        push_out(out, XmlOut::Empty { name: owned("edmx:IncludeAnnotations"), attributes: include_annotations_attrs(x) });
        proof {
            let f = include_annotations_xml_fn();
            assert(o + s@.take(i + 1).map_values(f) =~= (o + s@.take(i as int).map_values(f)).push(f(s@[i as int])));
        }
        i = i + 1;
    }
    assert(s@.take(s@.len() as int) =~= s@);
}

fn emit_reference(out: &mut Vec<XmlOut>, r: &Reference)
    ensures
        out_views(final(out)@) == out_views(old(out)@) + reference_xml(*r),
{
    let ghost o = out_views(out@);
    let a = if r.uri.as_str().unicode_len() > 0 {
        attrs_of("Uri", r.uri.as_str())
    } else {
        no_attrs()
    };
    if r.includes.len() == 0 && r.include_annotations.len() == 0 {
        empty_tag(out, "edmx:Reference", a);
    } else {
        start_tag(out, "edmx:Reference", a);
        emit_includes(out, &r.includes);
        emit_include_annotations(out, &r.include_annotations);
        end_tag(out, "edmx:Reference");
    }
    assert(out_views(out@) =~= o + reference_xml(*r));
}

fn emit_references(out: &mut Vec<XmlOut>, s: &Vec<Reference>)
    ensures
        out_views(final(out)@) == out_views(old(out)@) + flat(s@.map_values(reference_xml_fn())),
{
    let ghost o = out_views(out@);
    let mut i: usize = 0;
    while i < s.len()
        invariant
            i <= s@.len(),
            out_views(out@) == o + flat(s@.take(i as int).map_values(reference_xml_fn())),
        decreases s.len() - i,
    {
        let ghost before = out_views(out@);
        emit_reference(out, &s[i]);
        proof {
            let f = reference_xml_fn();
            assert(s@.take(i + 1).map_values(f).drop_last() =~= s@.take(i as int).map_values(f));
            assert(s@.take(i + 1).map_values(f).last() == f(s@[i as int]));
            assert(o + flat(s@.take(i + 1).map_values(f)) =~= before + f(s@[i as int]));
        }
        i = i + 1;
    }
    assert(s@.take(s@.len() as int) =~= s@);
}

fn emit_schemas(out: &mut Vec<XmlOut>, s: &Vec<Schema>)
    ensures
        out_views(final(out)@) == out_views(old(out)@) + flat(s@.map_values(schema_xml_fn())),
{
    let ghost o = out_views(out@);
    let mut i: usize = 0;
    while i < s.len()
        invariant
            i <= s@.len(),
            out_views(out@) == o + flat(s@.take(i as int).map_values(schema_xml_fn())),
        decreases s.len() - i,
    {
        let ghost before = out_views(out@);
        emit_schema(out, &s[i]);
        proof {
            let f = schema_xml_fn();
            assert(s@.take(i + 1).map_values(f).drop_last() =~= s@.take(i as int).map_values(f));
            assert(s@.take(i + 1).map_values(f).last() == f(s@[i as int]));
            assert(o + flat(s@.take(i + 1).map_values(f)) =~= before + f(s@[i as int]));
        }
        i = i + 1;
    }
    assert(s@.take(s@.len() as int) =~= s@);
}

fn edmx_attrs() -> (r: Vec<(String, String)>)
    ensures
        attrs_view(r@) == edmx_namespaces(),
{
    let mut a = attrs_of("xmlns:edmx", "http://docs.oasis-open.org/odata/ns/edmx");
    add_attr(&mut a, "xmlns", owned("http://docs.oasis-open.org/odata/ns/edm"));
    assert(attrs_view(a@) =~= edmx_namespaces());
    a
}

/// The XML events of a document's CSDL XML form (see [`document_xml`]).
pub fn xml_events(d: &CsdlDocument) -> (r: Vec<XmlOut>)
    ensures
        out_views(r@) == document_xml(*d),
{
    let mut out: Vec<XmlOut> = Vec::new();
    assert(out_views(out@) =~= Seq::<XmlOutView>::empty());
    push_out(&mut out, XmlOut::Decl);
    let ghost o = out_views(out@);
    match &d.edmx {
        Some(e) => {
            let mut a = edmx_attrs();
            opt_str_attr_exec(&mut a, "Version", &e.version);
            start_tag(&mut out, "edmx:Edmx", a);
            emit_references(&mut out, &e.references);
            start_tag(&mut out, "edmx:DataServices", no_attrs());
            emit_schemas(&mut out, &e.schemas);
            end_tag(&mut out, "edmx:DataServices");
            end_tag(&mut out, "edmx:Edmx");
        },
        None => {
            let mut a = edmx_attrs();
            add_attr(&mut a, "Version", owned("4.01"));
            start_tag(&mut out, "edmx:Edmx", a);
            empty_tag(&mut out, "edmx:DataServices", no_attrs());
            end_tag(&mut out, "edmx:Edmx");
        },
    }
    assert(out_views(out@) =~= document_xml(*d));
    out
}

} // verus!
