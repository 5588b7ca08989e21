//! Writing a CSDL document: as a CSDL JSON value, and as the sequence of XML
//! events of its CSDL XML form.

use vstd::prelude::*;

pub mod xml;
pub mod xml_text;

use crate::csdl::{
    ActionImport, Annotation, ComplexType, CsdlDocument, Edmx, EntityContainer, EntitySet,
    EntityType, EnumType, Function, FunctionImport, Include, IncludeAnnotations, MaxLengthFacet,
    NavigationProperty, NavigationPropertyBinding, Parameter, Property, Reference,
    ReferentialConstraint, ReturnType, ScaleFacet, Schema, SchemaElement, Singleton, SridFacet,
    Term, TypeDefinition,
};
use crate::expr::{BinaryOperator, CsdlAnnotationExpression, PropertyValue};
use crate::json::{
    insert_member, json_view, json_views, lemma_json_views, lemma_member_views, member_views,
    obj_insert, JsonNumber, JsonValue, JsonView, NumberView,
};
use crate::text::{concat, concat3, owned, parse_u64, spec_parse_u64, str_eq};

verus! {

/// The two CSDL formats.
#[derive(Debug, Clone, Copy, PartialEq, Eq, Structural)]
pub enum CsdlFormat {
    Json,
    Xml,
}

/// The code of `c` with an ASCII capital letter lowered.
pub open spec fn ascii_lower_code(c: char) -> u32 {
    if 'A' <= c && c <= 'Z' {
        (c as u32 + 32) as u32
    } else {
        c as u32
    }
}

/// `ext` is `lit` (a lower-case word) up to ASCII case.
pub open spec fn same_ascii_lower(ext: Seq<char>, lit: Seq<char>) -> bool {
    ext.len() == lit.len() && forall|i: int| 0 <= i < ext.len() ==> ascii_lower_code(#[trigger] ext[i]) == lit[i] as u32
}

/// The format a file extension names: `xml` or `json`, in any ASCII case.
pub open spec fn extension_format(ext: Seq<char>) -> Option<CsdlFormat> {
    if same_ascii_lower(ext, "xml"@) {
        Some(CsdlFormat::Xml)
    } else if same_ascii_lower(ext, "json"@) {
        Some(CsdlFormat::Json)
    } else {
        None
    }
}

fn matches_ascii_lower(ext: &str, lit: &str) -> (r: bool)
    ensures
        r == same_ascii_lower(ext@, lit@),
{
    let e = crate::text::chars_of(ext);
    let l = crate::text::chars_of(lit);
    if e.len() != l.len() {
        return false;
    }
    let mut i: usize = 0;
    while i < e.len()
        invariant
            i <= e@.len(),
            e@ == ext@,
            l@ == lit@,
            e@.len() == l@.len(),
            forall|j: int| 0 <= j < i ==> ascii_lower_code(#[trigger] e@[j]) == l@[j] as u32,
        decreases e.len() - i,
    {
        let c = e[i];
        let code: u32 = if 'A' <= c && c <= 'Z' {
            (c as u32) + 32
        } else {
            c as u32
        };
        if code != (l[i] as u32) {
            assert(ascii_lower_code(ext@[i as int]) != lit@[i as int] as u32);
            return false;
        }
        i = i + 1;
    }
    true
}

/// The format of a CSDL file by its extension (`xml` or `json`, any case).
pub fn format_for_extension(ext: &str) -> (r: Option<CsdlFormat>)
    ensures
        r == extension_format(ext@),
{
    if matches_ascii_lower(ext, "xml") {
        Some(CsdlFormat::Xml)
    } else if matches_ascii_lower(ext, "json") {
        Some(CsdlFormat::Json)
    } else {
        None
    }
}

/// What `String::from_utf8_lossy` makes of some bytes.
pub uninterp spec fn utf8_lossy(bytes: Seq<u8>) -> Seq<char>;

/// `String::from_utf8_lossy`: the string the bytes spell, with every invalid
/// sequence replaced by U+FFFD; for valid UTF-8 that is the decoded text.
#[verifier::external_body]
pub(crate) fn lossy_string(bytes: &[u8]) -> (r: String)
    ensures
        r@ == utf8_lossy(bytes@),
        vstd::utf8::valid_utf8(bytes@) ==> r@ == vstd::utf8::decode_utf8(bytes@),
{
    String::from_utf8_lossy(bytes).into_owned()
}

// ---------------------------------------------------------------------------
// Annotation expressions as JSON
// ---------------------------------------------------------------------------

pub open spec fn jstr(s: Seq<char>) -> JsonView {
    JsonView::String(s)
}

/// The JSON number of an integer.
pub open spec fn int_number(v: i64) -> NumberView {
    if v >= 0 {
        NumberView::PosInt(v as u64)
    } else {
        NumberView::NegInt(v)
    }
}

/// A one-member object.
pub open spec fn single(k: Seq<char>, v: JsonView) -> JsonView {
    JsonView::Object(seq![(k, v)])
}

pub open spec fn op_key(op: BinaryOperator) -> Seq<char> {
    match op {
        BinaryOperator::And => "$And"@,
        BinaryOperator::Or => "$Or"@,
        BinaryOperator::Eq => "$Eq"@,
        BinaryOperator::Ne => "$Ne"@,
        BinaryOperator::Gt => "$Gt"@,
        BinaryOperator::Ge => "$Ge"@,
        BinaryOperator::Lt => "$Lt"@,
        BinaryOperator::Le => "$Le"@,
    }
}

/// The CSDL JSON form of an annotation expression.
pub open spec fn expr_json(e: CsdlAnnotationExpression) -> JsonView
    decreases e,
{
    match e {
        CsdlAnnotationExpression::Bool(v) => JsonView::Bool(v),
        CsdlAnnotationExpression::Int(v) => JsonView::Number(int_number(v)),
        CsdlAnnotationExpression::Float(t) => JsonView::Number(NumberView::Float(t@)),
        CsdlAnnotationExpression::String(v) => jstr(v@),
        CsdlAnnotationExpression::Path(v) => single("$Path"@, jstr(v@)),
        CsdlAnnotationExpression::PropertyPath(v) => single("$PropertyPath"@, jstr(v@)),
        CsdlAnnotationExpression::NavigationPropertyPath(v) => single(
            "$NavigationPropertyPath"@,
            jstr(v@),
        ),
        CsdlAnnotationExpression::AnnotationPath(v) => single("$AnnotationPath"@, jstr(v@)),
        CsdlAnnotationExpression::Collection(items) => JsonView::Array(exprs_json(items@)),
        CsdlAnnotationExpression::Null => JsonView::Null,
        CsdlAnnotationExpression::Record { type_, properties, annotations } => {
            let m0 = match type_ {
                Some(t) => seq![("$Type"@, jstr(t@))],
                None => Seq::empty(),
            };
            JsonView::Object(
                insert_annotations(record_members(m0, properties@), annotations@, Seq::empty()),
            )
        },
        CsdlAnnotationExpression::Binary(v) => jstr(utf8_lossy(v@)),
        CsdlAnnotationExpression::Date(v) => jstr(v@),
        CsdlAnnotationExpression::DateTimeOffset(v) => jstr(v@),
        CsdlAnnotationExpression::Decimal(v) => jstr(v@),
        CsdlAnnotationExpression::Duration(v) => jstr(v@),
        CsdlAnnotationExpression::EnumMember(v) => jstr(v@),
        CsdlAnnotationExpression::Guid(v) => jstr(v@),
        CsdlAnnotationExpression::TimeOfDay(v) => jstr(v@),
        CsdlAnnotationExpression::LabeledElementReference(v) => jstr(v@),
        CsdlAnnotationExpression::Not(inner) => single("$Not"@, expr_json(*inner)),
        CsdlAnnotationExpression::BinaryExpression { op, lhs, rhs } => single(
            op_key(op),
            JsonView::Array(seq![expr_json(*lhs), expr_json(*rhs)]),
        ),
        CsdlAnnotationExpression::If { test, then_, else_ } => single(
            "$If"@,
            JsonView::Array(
                match else_ {
                    Some(x) => seq![expr_json(*test), expr_json(*then_), expr_json(*x)],
                    None => seq![expr_json(*test), expr_json(*then_)],
                },
            ),
        ),
        CsdlAnnotationExpression::Apply { function, args } => JsonView::Object(
            seq![("$Function"@, jstr(function@)), ("$Apply"@, JsonView::Array(exprs_json(args@)))],
        ),
        CsdlAnnotationExpression::Cast { type_, expr } => JsonView::Object(
            seq![("$Cast"@, expr_json(*expr)), ("$Type"@, jstr(type_@))],
        ),
        CsdlAnnotationExpression::IsOf { type_, expr } => JsonView::Object(
            seq![("$IsOf"@, expr_json(*expr)), ("$Type"@, jstr(type_@))],
        ),
        CsdlAnnotationExpression::LabeledElement { name, expr } => JsonView::Object(
            seq![("$LabeledElement"@, expr_json(*expr)), ("$Name"@, jstr(name@))],
        ),
        CsdlAnnotationExpression::UrlRef(inner) => single("$UrlRef"@, expr_json(*inner)),
    }
}

pub open spec fn exprs_json(s: Seq<CsdlAnnotationExpression>) -> Seq<JsonView>
    decreases s,
{
    if s.len() == 0 {
        Seq::empty()
    } else {
        exprs_json(s.subrange(0, s.len() - 1)).push(expr_json(s[s.len() - 1]))
    }
}

/// The members of a record for its property values: each value under its
/// property's name, each of its annotations under `Property@Term`.
pub open spec fn record_members(m: Seq<(Seq<char>, JsonView)>, props: Seq<PropertyValue>) -> Seq<
    (Seq<char>, JsonView),
>
    decreases props,
{
    if props.len() == 0 {
        m
    } else {
        let m1 = record_members(m, props.subrange(0, props.len() - 1));
        let pv = props[props.len() - 1];
        let m2 = match pv.value {
            Some(v) => insert_member(m1, pv.property@, expr_json(v)),
            None => m1,
        };
        insert_annotations(m2, pv.annotations@, pv.property@)
    }
}

/// The key of an annotation: `Target@Term` or `@Term`, then `#Qualifier`
/// if qualified.
pub open spec fn annotation_key(a: Annotation) -> Seq<char> {
    let head = match a.target {
        Some(t) => t@ + "@"@ + a.term@,
        None => "@"@ + a.term@,
    };
    match a.qualifier {
        Some(q) => head + "#"@ + q@,
        None => head,
    }
}

/// An annotation as an object member; none for an annotation without a
/// term. An annotation without expression is the marker `true`.
pub open spec fn annotation_member(a: Annotation) -> Option<(Seq<char>, JsonView)>
    decreases a,
{
    if a.term@.len() == 0 {
        None
    } else {
        Some(
            (
                annotation_key(a),
                match a.expression {
                    Some(e) => expr_json(e),
                    None => JsonView::Bool(true),
                },
            ),
        )
    }
}

/// `m` with the members of the annotations set in order, each key prefixed
/// with `prefix`.
pub open spec fn insert_annotations(
    m: Seq<(Seq<char>, JsonView)>,
    anns: Seq<Annotation>,
    prefix: Seq<char>,
) -> Seq<(Seq<char>, JsonView)>
    decreases anns,
{
    if anns.len() == 0 {
        m
    } else {
        let m1 = insert_annotations(m, anns.subrange(0, anns.len() - 1), prefix);
        match annotation_member(anns[anns.len() - 1]) {
            Some(kv) => insert_member(m1, prefix + kv.0, kv.1),
            None => m1,
        }
    }
}

// ---------------------------------------------------------------------------
// The document as JSON
// ---------------------------------------------------------------------------

pub type Members = Seq<(Seq<char>, JsonView)>;

/// `m` with the member `f(x)` set for each `x` of `s` in order.
pub open spec fn put_all<T>(m: Members, s: Seq<T>, f: spec_fn(T) -> (Seq<char>, JsonView)) -> Members
    decreases s.len(),
{
    if s.len() == 0 {
        m
    } else {
        let kv = f(s.last());
        insert_member(put_all(m, s.drop_last(), f), kv.0, kv.1)
    }
}

pub open spec fn put_bool(m: Members, k: Seq<char>, v: Option<bool>) -> Members {
    match v {
        Some(b) => insert_member(m, k, JsonView::Bool(b)),
        None => m,
    }
}

pub open spec fn put_str(m: Members, k: Seq<char>, v: Option<String>) -> Members {
    match v {
        Some(x) => insert_member(m, k, jstr(x@)),
        None => m,
    }
}

pub open spec fn max_length_json(v: MaxLengthFacet) -> JsonView {
    match v {
        MaxLengthFacet::Number(n) => JsonView::Number(NumberView::PosInt(n)),
        MaxLengthFacet::Max => jstr("max"@),
    }
}

pub open spec fn scale_json(v: ScaleFacet) -> JsonView {
    match v {
        ScaleFacet::Number(n) => JsonView::Number(NumberView::PosInt(n)),
        ScaleFacet::Variable => jstr("variable"@),
    }
}

pub open spec fn srid_json(v: SridFacet) -> JsonView {
    match v {
        SridFacet::Number(n) => JsonView::Number(NumberView::PosInt(n)),
        SridFacet::Variable => jstr("variable"@),
    }
}

/// A precision: the number it spells, else the text.
pub open spec fn facet_json(raw: Seq<char>) -> JsonView {
    match spec_parse_u64(raw) {
        Some(n) => JsonView::Number(NumberView::PosInt(n)),
        None => jstr(raw),
    }
}

/// `$Collection`, `$Type` (left out when `Edm.String`), `$Nullable`,
/// `$MaxLength`.
pub open spec fn type_facets(
    m: Members,
    type_ref: Option<String>,
    coll: bool,
    nullable: Option<bool>,
    max_length: Option<MaxLengthFacet>,
) -> Members {
    let m1 = if coll {
        insert_member(m, "$Collection"@, JsonView::Bool(true))
    } else {
        m
    };
    let m2 = match type_ref {
        Some(t) => if t@ != "Edm.String"@ {
            insert_member(m1, "$Type"@, jstr(t@))
        } else {
            m1
        },
        None => m1,
    };
    let m3 = put_bool(m2, "$Nullable"@, nullable);
    match max_length {
        Some(x) => insert_member(m3, "$MaxLength"@, max_length_json(x)),
        None => m3,
    }
}

/// `$Precision`, `$Scale`, `$SRID`, `$Unicode`.
pub open spec fn numeric_facets(
    m: Members,
    precision: Option<String>,
    scale: Option<ScaleFacet>,
    srid: Option<SridFacet>,
    unicode: Option<bool>,
) -> Members {
    let m1 = match precision {
        Some(p) => insert_member(m, "$Precision"@, facet_json(p@)),
        None => m,
    };
    let m2 = match scale {
        Some(x) => insert_member(m1, "$Scale"@, scale_json(x)),
        None => m1,
    };
    let m3 = match srid {
        Some(x) => insert_member(m2, "$SRID"@, srid_json(x)),
        None => m2,
    };
    put_bool(m3, "$Unicode"@, unicode)
}

pub open spec fn anns(m: Members, a: Vec<Annotation>) -> Members {
    insert_annotations(m, a@, Seq::empty())
}

pub open spec fn only_type_key(m: Members) -> bool {
    forall|i: int| 0 <= i < m.len() ==> m[i].0 == "$Type"@
}

pub open spec fn is_str(v: Option<String>, s: Seq<char>) -> bool {
    match v {
        Some(x) => x@ == s,
        None => false,
    }
}

/// A property; `id_shape` where the owner has a stream and the property is
/// `ID`.
pub open spec fn property_json(p: Property, id_shape: bool) -> JsonView {
    let m1 = type_facets(Seq::empty(), p.type_ref, p.is_collection, p.nullable, p.max_length);
    let m2 = if id_shape && is_str(p.type_ref, "Edm.Int32"@) && p.nullable == Some(false)
        && only_type_key(m1) {
        Seq::empty()
    } else {
        m1
    };
    let m3 = numeric_facets(m2, p.precision, p.scale, p.srid, p.unicode);
    JsonView::Object(anns(put_str(m3, "$DefaultValue"@, p.default_value), p.annotations))
}

/// Whether an annotation targets one of the named constraint properties.
pub open spec fn targets(a: Annotation, names: Seq<Seq<char>>) -> bool {
    match a.target {
        Some(t) => names.contains(t@),
        None => false,
    }
}

/// The annotations that do (`want`) or do not target one of `names`, set in
/// order.
pub open spec fn put_annotations_where(m: Members, s: Seq<Annotation>, names: Seq<Seq<char>>, want: bool) -> Members
    decreases s.len(),
{
    if s.len() == 0 {
        m
    } else {
        let m1 = put_annotations_where(m, s.drop_last(), names, want);
        if targets(s.last(), names) == want {
            match annotation_member(s.last()) {
                Some(kv) => insert_member(m1, kv.0, kv.1),
                None => m1,
            }
        } else {
            m1
        }
    }
}

pub open spec fn constraint_names(cs: Seq<ReferentialConstraint>) -> Seq<Seq<char>> {
    cs.map_values(|c: ReferentialConstraint| c.property@)
}

/// The constraint map: each constraint's referenced property under its
/// property, and its annotations under `Property@Term`.
pub open spec fn constraint_members(m: Members, cs: Seq<ReferentialConstraint>) -> Members
    decreases cs.len(),
{
    if cs.len() == 0 {
        m
    } else {
        let c = cs.last();
        let m1 = insert_member(
            constraint_members(m, cs.drop_last()),
            c.property@,
            jstr(c.referenced_property@),
        );
        insert_annotations(m1, c.annotations@, c.property@)
    }
}

pub open spec fn has_targeted(s: Seq<Annotation>, names: Seq<Seq<char>>) -> bool {
    exists|i: int| 0 <= i < s.len() && targets(#[trigger] s[i], names)
}

pub open spec fn navigation_json(n: NavigationProperty) -> JsonView {
    let m1 = seq![("$Kind"@, jstr("NavigationProperty"@))];
    let m2 = if n.is_collection {
        insert_member(m1, "$Collection"@, JsonView::Bool(true))
    } else {
        m1
    };
    let m3 = put_str(m2, "$Type"@, n.type_ref);
    let m4 = put_bool(m3, "$Nullable"@, n.nullable);
    let m5 = put_str(m4, "$Partner"@, n.partner);
    let m6 = put_bool(m5, "$ContainsTarget"@, n.contains_target);
    let m7 = match n.on_delete {
        Some(a) => insert_member(m6, "$OnDelete"@, jstr(a.spec_as_str())),
        None => m6,
    };
    let names = constraint_names(n.referential_constraints@);
    let m8 = if n.referential_constraints@.len() > 0 || has_targeted(n.annotations@, names) {
        let cm = put_annotations_where(
            constraint_members(Seq::empty(), n.referential_constraints@),
            n.annotations@,
            names,
            true,
        );
        insert_member(m7, "$ReferentialConstraint"@, JsonView::Object(cm))
    } else {
        m7
    };
    JsonView::Object(put_annotations_where(m8, n.annotations@, names, false))
}

pub open spec fn structured_members(
    m: Members,
    props: Seq<Property>,
    navs: Seq<NavigationProperty>,
    streams: bool,
) -> Members {
    put_all(put_all(m, props, prop_entry(streams)), navs, nav_entry())
}

pub open spec fn prop_entry(streams: bool) -> spec_fn(Property) -> (Seq<char>, JsonView) {
    |p: Property| (p.name@, property_json(p, streams && p.name@ == "ID"@))
}

pub open spec fn nav_entry() -> spec_fn(NavigationProperty) -> (Seq<char>, JsonView) {
    |n: NavigationProperty| (n.name@, navigation_json(n))
}

pub open spec fn ref_json() -> spec_fn(crate::csdl::PropertyRef) -> JsonView {
    |r: crate::csdl::PropertyRef| jstr(r.name@)
}

pub open spec fn entity_type_json(e: EntityType) -> JsonView {
    let m1 = put_str(seq![("$Kind"@, jstr("EntityType"@))], "$BaseType"@, e.base_type);
    let m2 = put_bool(put_bool(put_bool(m1, "$Abstract"@, e.abstract_), "$OpenType"@, e.open_type), "$HasStream"@, e.has_stream);
    let m3 = match e.key {
        Some(k) => if k.property_refs@.len() > 0 {
            insert_member(
                m2,
                "$Key"@,
                JsonView::Array(k.property_refs@.map_values(ref_json())),
            )
        } else {
            m2
        },
        None => m2,
    };
    let m4 = structured_members(m3, e.properties@, e.navigation_properties@, e.has_stream == Some(true));
    JsonView::Object(anns(m4, e.annotations))
}

pub open spec fn complex_type_json(c: ComplexType) -> JsonView {
    let m1 = put_str(seq![("$Kind"@, jstr("ComplexType"@))], "$BaseType"@, c.base_type);
    let m2 = put_bool(put_bool(m1, "$Abstract"@, c.abstract_), "$OpenType"@, c.open_type);
    let m3 = structured_members(m2, c.properties@, c.navigation_properties@, false);
    JsonView::Object(anns(m3, c.annotations))
}

/// Sets `k` to `v` unless the object has `k` already.
pub open spec fn put_new(m: Members, k: Seq<char>, v: JsonView) -> Members {
    if crate::json::has_key(m, k) {
        m
    } else {
        insert_member(m, k, v)
    }
}

/// Each member's annotations under `Member@Term`, unless taken.
pub open spec fn member_annotations(m: Members, name: Seq<char>, s: Seq<Annotation>) -> Members
    decreases s.len(),
{
    if s.len() == 0 {
        m
    } else {
        let m1 = member_annotations(m, name, s.drop_last());
        match annotation_member(s.last()) {
            Some(kv) => put_new(m1, name + kv.0, kv.1),
            None => m1,
        }
    }
}

pub open spec fn enum_members(m: Members, s: Seq<crate::csdl::EnumMember>) -> Members
    decreases s.len(),
{
    if s.len() == 0 {
        m
    } else {
        let x = s.last();
        let v = match x.value {
            Some(n) => JsonView::Number(int_number(n)),
            None => JsonView::Null,
        };
        member_annotations(put_new(enum_members(m, s.drop_last()), x.name@, v), x.name@, x.annotations@)
    }
}

pub open spec fn enum_type_json(e: EnumType) -> JsonView {
    let m0 = seq![("$Kind"@, jstr("EnumType"@))];
    let m1 = match e.underlying_type {
        Some(t) => if t@ != "Edm.Int32"@ {
            insert_member(m0, "$UnderlyingType"@, jstr(t@))
        } else {
            m0
        },
        None => m0,
    };
    let m2 = put_bool(m1, "$IsFlags"@, e.is_flags);
    JsonView::Object(anns(enum_members(m2, e.members@), e.annotations))
}

pub open spec fn type_definition_json(t: TypeDefinition) -> JsonView {
    let m0 = seq![("$Kind"@, jstr("TypeDefinition"@)), ("$UnderlyingType"@, jstr(t.underlying_type@))];
    let m1 = match t.max_length {
        Some(x) => insert_member(m0, "$MaxLength"@, max_length_json(x)),
        None => m0,
    };
    JsonView::Object(anns(numeric_facets(m1, t.precision, t.scale, t.srid, t.unicode), t.annotations))
}

pub open spec fn string_json() -> spec_fn(String) -> JsonView {
    |s: String| jstr(s@)
}

pub open spec fn term_json(t: Term) -> JsonView {
    let m0 = seq![("$Kind"@, jstr("Term"@))];
    let m1 = type_facets(m0, t.type_ref, t.is_collection, t.nullable, t.max_length);
    let m2 = numeric_facets(m1, t.precision, t.scale, t.srid, t.unicode);
    let m3 = put_str(put_str(m2, "$BaseTerm"@, t.base_term), "$DefaultValue"@, t.default_value);
    let m4 = if t.applies_to@.len() > 0 {
        insert_member(m3, "$AppliesTo"@, JsonView::Array(t.applies_to@.map_values(string_json())))
    } else {
        m3
    };
    JsonView::Object(anns(m4, t.annotations))
}

pub open spec fn parameter_json(p: Parameter) -> JsonView {
    let m0 = seq![("$Name"@, jstr(p.name@))];
    let m1 = type_facets(m0, p.type_ref, p.is_collection, p.nullable, p.max_length);
    let m2 = numeric_facets(m1, p.precision, p.scale, p.srid, p.unicode);
    JsonView::Object(anns(put_str(m2, "$DefaultValue"@, p.default_value), p.annotations))
}

pub open spec fn param_json() -> spec_fn(Parameter) -> JsonView {
    |p: Parameter| parameter_json(p)
}

pub open spec fn return_type_json(r: ReturnType) -> JsonView {
    let m1 = type_facets(Seq::empty(), r.type_ref, r.is_collection, r.nullable, r.max_length);
    JsonView::Object(anns(numeric_facets(m1, r.precision, r.scale, r.srid, r.unicode), r.annotations))
}

/// A function or action overload.
pub open spec fn callable_json(
    kind: Seq<char>,
    is_bound: Option<bool>,
    is_composable: Option<bool>,
    esp: Option<String>,
    params: Seq<Parameter>,
    rt: Option<ReturnType>,
    a: Vec<Annotation>,
) -> JsonView {
    let m1 = put_bool(seq![("$Kind"@, jstr(kind))], "$IsBound"@, is_bound);
    let m2 = put_str(m1, "$EntitySetPath"@, esp);
    let m3 = if kind == "Function"@ {
        put_bool(m2, "$IsComposable"@, is_composable)
    } else {
        m2
    };
    let m4 = if params.len() > 0 {
        insert_member(m3, "$Parameter"@, JsonView::Array(params.map_values(param_json())))
    } else {
        m3
    };
    let m5 = match rt {
        Some(r) => insert_member(m4, "$ReturnType"@, return_type_json(r)),
        None => m4,
    };
    JsonView::Object(anns(m5, a))
}

pub open spec fn function_json(f: Function) -> JsonView {
    callable_json("Function"@, f.is_bound, f.is_composable, f.entity_set_path, f.parameters@, f.return_type, f.annotations)
}

pub open spec fn action_json(a: crate::csdl::Action) -> JsonView {
    callable_json("Action"@, a.is_bound, None, a.entity_set_path, a.parameters@, a.return_type, a.annotations)
}

pub open spec fn binding_entry() -> spec_fn(NavigationPropertyBinding) -> (Seq<char>, JsonView) {
    |b: NavigationPropertyBinding| (b.path@, jstr(b.target@))
}

pub open spec fn bindings_json(m: Members, bs: Seq<NavigationPropertyBinding>) -> Members {
    if bs.len() == 0 {
        m
    } else {
        insert_member(
            m,
            "$NavigationPropertyBinding"@,
            JsonView::Object(put_all(Seq::empty(), bs, binding_entry())),
        )
    }
}

pub open spec fn entity_set_json(x: EntitySet) -> JsonView {
    let m1 = put_str(seq![("$Collection"@, JsonView::Bool(true))], "$Type"@, x.entity_type);
    let m2 = put_bool(m1, "$IncludeInServiceDocument"@, x.include_in_service_document);
    JsonView::Object(anns(bindings_json(m2, x.navigation_property_bindings@), x.annotations))
}

pub open spec fn singleton_json(x: Singleton) -> JsonView {
    let m1 = put_str(Seq::empty(), "$Type"@, x.type_ref);
    let m2 = put_bool(m1, "$IncludeInServiceDocument"@, x.include_in_service_document);
    JsonView::Object(anns(bindings_json(m2, x.navigation_property_bindings@), x.annotations))
}

pub open spec fn function_import_json(x: FunctionImport) -> JsonView {
    let m1 = put_str(put_str(Seq::empty(), "$EntitySet"@, x.entity_set), "$Function"@, x.function);
    JsonView::Object(anns(put_bool(m1, "$IncludeInServiceDocument"@, x.include_in_service_document), x.annotations))
}

pub open spec fn action_import_json(x: ActionImport) -> JsonView {
    let m1 = put_str(put_str(Seq::empty(), "$Action"@, x.action), "$EntitySet"@, x.entity_set);
    JsonView::Object(anns(put_bool(m1, "$IncludeInServiceDocument"@, x.include_in_service_document), x.annotations))
}

pub open spec fn set_entry() -> spec_fn(EntitySet) -> (Seq<char>, JsonView) {
    |x: EntitySet| (x.name@, entity_set_json(x))
}

pub open spec fn singleton_entry() -> spec_fn(Singleton) -> (Seq<char>, JsonView) {
    |x: Singleton| (x.name@, singleton_json(x))
}

pub open spec fn function_import_entry() -> spec_fn(FunctionImport) -> (Seq<char>, JsonView) {
    |x: FunctionImport| (x.name@, function_import_json(x))
}

pub open spec fn action_import_entry() -> spec_fn(ActionImport) -> (Seq<char>, JsonView) {
    |x: ActionImport| (x.name@, action_import_json(x))
}

pub open spec fn container_json(c: EntityContainer) -> JsonView {
    let m1 = put_str(seq![("$Kind"@, jstr("EntityContainer"@))], "$Extends"@, c.extends);
    let m2 = put_all(m1, c.entity_sets@, set_entry());
    let m3 = put_all(m2, c.singletons@, singleton_entry());
    let m4 = put_all(m3, c.function_imports@, function_import_entry());
    let m5 = put_all(m4, c.action_imports@, action_import_entry());
    JsonView::Object(anns(m5, c.annotations))
}

/// Strict order of strings by their characters (`<` on `String`).
pub open spec fn seq_lt(a: Seq<char>, b: Seq<char>) -> bool
    decreases a.len(),
{
    if a.len() == 0 {
        b.len() > 0
    } else if b.len() == 0 {
        false
    } else if a[0] != b[0] {
        (a[0] as u32) < (b[0] as u32)
    } else {
        seq_lt(a.drop_first(), b.drop_first())
    }
}

pub type Groups = Seq<(Seq<char>, Seq<JsonView>)>;

pub open spec fn group_pos(g: Groups, name: Seq<char>) -> Option<int>
    decreases g.len(),
{
    if g.len() == 0 {
        None
    } else if g[0].0 == name {
        Some(0)
    } else {
        match group_pos(g.drop_first(), name) {
            Some(i) => Some(i + 1),
            None => None,
        }
    }
}

/// How many groups have a name ordered before `name`.
pub open spec fn count_before(g: Groups, name: Seq<char>) -> nat
    decreases g.len(),
{
    if g.len() == 0 {
        0
    } else {
        count_before(g.drop_last(), name) + if seq_lt(g.last().0, name) {
            1nat
        } else {
            0nat
        }
    }
}

/// Adds an overload to the group of its name, the groups kept in name
/// order.
pub open spec fn group_add(g: Groups, name: Seq<char>, v: JsonView) -> Groups {
    match group_pos(g, name) {
        Some(i) => g.update(i, (name, g[i].1.push(v))),
        None => g.insert(count_before(g, name) as int, (name, seq![v])),
    }
}

/// The schema members of its elements (functions and actions excepted),
/// and the overload groups.
pub open spec fn schema_elements(m: Members, g: Groups, els: Seq<SchemaElement>) -> (Members, Groups)
    decreases els.len(),
{
    if els.len() == 0 {
        (m, g)
    } else {
        let r = schema_elements(m, g, els.drop_last());
        match els.last() {
            SchemaElement::EntityType(x) => (insert_member(r.0, x.name@, entity_type_json(x)), r.1),
            SchemaElement::ComplexType(x) => (insert_member(r.0, x.name@, complex_type_json(x)), r.1),
            SchemaElement::EnumType(x) => (insert_member(r.0, x.name@, enum_type_json(x)), r.1),
            SchemaElement::TypeDefinition(x) => (insert_member(r.0, x.name@, type_definition_json(x)), r.1),
            SchemaElement::Term(x) => (insert_member(r.0, x.name@, term_json(x)), r.1),
            SchemaElement::Function(x) => (r.0, group_add(r.1, x.name@, function_json(x))),
            SchemaElement::Action(x) => (r.0, group_add(r.1, x.name@, action_json(x))),
            SchemaElement::EntityContainer(x) => (insert_member(r.0, x.name@, container_json(x)), r.1),
        }
    }
}

pub open spec fn group_entry() -> spec_fn((Seq<char>, Seq<JsonView>)) -> (Seq<char>, JsonView) {
    |g: (Seq<char>, Seq<JsonView>)| (g.0, JsonView::Array(g.1))
}

/// A schema: its alias, its elements, the function and action overload
/// groups in name order, then its annotations.
pub open spec fn schema_json(s: Schema) -> JsonView {
    let m1 = put_str(Seq::empty(), "$Alias"@, s.alias);
    let r = schema_elements(m1, Seq::empty(), s.elements@);
    let m2 = put_all(r.0, r.1, group_entry());
    JsonView::Object(anns(m2, s.annotations))
}

pub open spec fn include_json(i: Include) -> JsonView {
    let m1 = put_str(seq![("$Namespace"@, jstr(i.namespace@))], "$Alias"@, i.alias);
    JsonView::Object(anns(m1, i.annotations))
}

pub open spec fn include_annotations_json(i: IncludeAnnotations) -> JsonView {
    let m1 = put_str(seq![("$TermNamespace"@, jstr(i.term_namespace@))], "$Qualifier"@, i.qualifier);
    JsonView::Object(put_str(m1, "$TargetNamespace"@, i.target_namespace))
}

pub open spec fn include_fn() -> spec_fn(Include) -> JsonView {
    |i: Include| include_json(i)
}

pub open spec fn include_annotations_fn() -> spec_fn(IncludeAnnotations) -> JsonView {
    |i: IncludeAnnotations| include_annotations_json(i)
}

pub open spec fn reference_json(r: Reference) -> JsonView {
    let m1 = seq![("$Include"@, JsonView::Array(r.includes@.map_values(include_fn())))];
    if r.include_annotations@.len() > 0 {
        JsonView::Object(
            insert_member(
                m1,
                "$IncludeAnnotations"@,
                JsonView::Array(r.include_annotations@.map_values(include_annotations_fn())),
            ),
        )
    } else {
        JsonView::Object(m1)
    }
}

/// The first entity container among a schema's elements.
pub open spec fn first_container(els: Seq<SchemaElement>) -> Option<EntityContainer>
    decreases els.len(),
{
    if els.len() == 0 {
        None
    } else {
        match els[0] {
            SchemaElement::EntityContainer(c) => Some(c),
            _ => first_container(els.drop_first()),
        }
    }
}

/// Each schema under its namespace, followed by `$EntityContainer` naming
/// its container if it has one.
pub open spec fn schemas_json(m: Members, s: Seq<Schema>) -> Members
    decreases s.len(),
{
    if s.len() == 0 {
        m
    } else {
        let x = s.last();
        let m1 = insert_member(schemas_json(m, s.drop_last()), x.namespace@, schema_json(x));
        match first_container(x.elements@) {
            Some(c) => insert_member(m1, "$EntityContainer"@, jstr(x.namespace@ + "."@ + c.name@)),
            None => m1,
        }
    }
}

pub open spec fn reference_entry() -> spec_fn(Reference) -> (Seq<char>, JsonView) {
    |r: Reference| (r.uri@, reference_json(r))
}

pub open spec fn edmx_json(e: Edmx) -> JsonView {
    let m1 = put_str(Seq::empty(), "$Version"@, e.version);
    let m2 = if e.references@.len() > 0 {
        insert_member(
            m1,
            "$Reference"@,
            JsonView::Object(put_all(Seq::empty(), e.references@, reference_entry())),
        )
    } else {
        m1
    };
    JsonView::Object(schemas_json(m2, e.schemas@))
}

/// The CSDL JSON form of a document; a document without `Edmx` is
/// `{"$Version": "4.01"}`.
pub open spec fn document_json(d: CsdlDocument) -> JsonView {
    match d.edmx {
        Some(e) => edmx_json(e),
        None => JsonView::Object(seq![("$Version"@, jstr("4.01"@))]),
    }
}

// ---------------------------------------------------------------------------
// Building JSON values
// ---------------------------------------------------------------------------

fn str_json(s: &str) -> (r: JsonValue)
    ensures
        r@ == jstr(s@),
{
    JsonValue::String(owned(s))
}

fn int_json(v: i64) -> (r: JsonValue)
    ensures
        r@ == JsonView::Number(int_number(v)),
{
    if v >= 0 {
        JsonValue::Number(JsonNumber::PosInt(v as u64))
    } else {
        JsonValue::Number(JsonNumber::NegInt(v))
    }
}

fn obj1(k: &str, v: JsonValue) -> (r: JsonValue)
    ensures
        r@ == single(k@, v@),
{
    let mut m: Vec<(String, JsonValue)> = Vec::new();
    m.push((owned(k), v));
    proof {
        lemma_member_views(m@);
        assert(member_views(m@) =~= seq![(k@, v@)]);
    }
    JsonValue::Object(m)
}

fn obj2(k1: &str, v1: JsonValue, k2: &str, v2: JsonValue) -> (r: JsonValue)
    ensures
        r@ == JsonView::Object(seq![(k1@, v1@), (k2@, v2@)]),
{
    let ghost a = v1@;
    let ghost b = v2@;
    let mut m: Vec<(String, JsonValue)> = Vec::new();
    m.push((owned(k1), v1));
    m.push((owned(k2), v2));
    proof {
        lemma_member_views(m@);
        assert(member_views(m@) =~= seq![(k1@, a), (k2@, b)]);
    }
    JsonValue::Object(m)
}

fn array_of(v: Vec<JsonValue>) -> (r: JsonValue)
    ensures
        r@ == JsonView::Array(json_views(v@)),
{
    JsonValue::Array(v)
}

fn op_name(op: BinaryOperator) -> (r: &'static str)
    ensures
        r@ == op_key(op),
{
    match op {
        BinaryOperator::And => "$And",
        BinaryOperator::Or => "$Or",
        BinaryOperator::Eq => "$Eq",
        BinaryOperator::Ne => "$Ne",
        BinaryOperator::Gt => "$Gt",
        BinaryOperator::Ge => "$Ge",
        BinaryOperator::Lt => "$Lt",
        BinaryOperator::Le => "$Le",
    }
}

/// The CSDL JSON form of an annotation expression.
pub fn expr_to_json(e: &CsdlAnnotationExpression) -> (r: JsonValue)
    ensures
        r@ == expr_json(*e),
    decreases e,
{
    match e {
        CsdlAnnotationExpression::Bool(v) => JsonValue::Bool(*v),
        CsdlAnnotationExpression::Int(v) => int_json(*v),
        CsdlAnnotationExpression::Float(t) => JsonValue::Number(JsonNumber::Float(owned(t.as_str()))),
        CsdlAnnotationExpression::String(v) => str_json(v.as_str()),
        CsdlAnnotationExpression::Path(v) => obj1("$Path", str_json(v.as_str())),
        CsdlAnnotationExpression::PropertyPath(v) => obj1("$PropertyPath", str_json(v.as_str())),
        CsdlAnnotationExpression::NavigationPropertyPath(v) => obj1(
            "$NavigationPropertyPath",
            str_json(v.as_str()),
        ),
        CsdlAnnotationExpression::AnnotationPath(v) => obj1("$AnnotationPath", str_json(v.as_str())),
        CsdlAnnotationExpression::Collection(items) => array_of(exprs_to_json(items)),
        CsdlAnnotationExpression::Null => JsonValue::Null,
        CsdlAnnotationExpression::Record { type_, properties, annotations } => {
            let mut m: Vec<(String, JsonValue)> = Vec::new();
            match type_ {
                Some(t) => {
                    m.push((owned("$Type"), str_json(t.as_str())));
                },
                None => {},
            }
            proof {
                lemma_member_views(m@);
                let m0 = match type_ {
                    Some(t) => seq![("$Type"@, jstr(t@))],
                    None => Seq::empty(),
                };
                assert(member_views(m@) =~= m0);
            }
            record_to_members(&mut m, properties);
            insert_annotation_members(&mut m, annotations, "");
            proof {
                reveal_strlit("");
                assert(Seq::<char>::empty() =~= ""@);
            }
            JsonValue::Object(m)
        },
        CsdlAnnotationExpression::Binary(v) => JsonValue::String(lossy_string(v.as_slice())),
        CsdlAnnotationExpression::Date(v) => str_json(v.as_str()),
        CsdlAnnotationExpression::DateTimeOffset(v) => str_json(v.as_str()),
        CsdlAnnotationExpression::Decimal(v) => str_json(v.as_str()),
        CsdlAnnotationExpression::Duration(v) => str_json(v.as_str()),
        CsdlAnnotationExpression::EnumMember(v) => str_json(v.as_str()),
        CsdlAnnotationExpression::Guid(v) => str_json(v.as_str()),
        CsdlAnnotationExpression::TimeOfDay(v) => str_json(v.as_str()),
        CsdlAnnotationExpression::LabeledElementReference(v) => str_json(v.as_str()),
        CsdlAnnotationExpression::Not(inner) => obj1("$Not", expr_to_json(inner)),
        CsdlAnnotationExpression::BinaryExpression { op, lhs, rhs } => {
            let mut a: Vec<JsonValue> = Vec::new();
            a.push(expr_to_json(lhs));
            a.push(expr_to_json(rhs));
            proof {
                lemma_json_views(a@);
                assert(json_views(a@) =~= seq![expr_json(**lhs), expr_json(**rhs)]);
            }
            obj1(op_name(*op), array_of(a))
        },
        CsdlAnnotationExpression::If { test, then_, else_ } => {
            let mut a: Vec<JsonValue> = Vec::new();
            a.push(expr_to_json(test));
            a.push(expr_to_json(then_));
            match else_ {
                Some(x) => {
                    a.push(expr_to_json(x));
                },
                None => {},
            }
            proof {
                lemma_json_views(a@);
                match else_ {
                    Some(x) => {
                        assert(json_views(a@) =~= seq![
                            expr_json(**test),
                            expr_json(**then_),
                            expr_json(**x),
                        ]);
                    },
                    None => {
                        assert(json_views(a@) =~= seq![expr_json(**test), expr_json(**then_)]);
                    },
                }
            }
            obj1("$If", array_of(a))
        },
        CsdlAnnotationExpression::Apply { function, args } => obj2(
            "$Function",
            str_json(function.as_str()),
            "$Apply",
            array_of(exprs_to_json(args)),
        ),
        CsdlAnnotationExpression::Cast { type_, expr } => obj2(
            "$Cast",
            expr_to_json(expr),
            "$Type",
            str_json(type_.as_str()),
        ),
        CsdlAnnotationExpression::IsOf { type_, expr } => obj2(
            "$IsOf",
            expr_to_json(expr),
            "$Type",
            str_json(type_.as_str()),
        ),
        CsdlAnnotationExpression::LabeledElement { name, expr } => obj2(
            "$LabeledElement",
            expr_to_json(expr),
            "$Name",
            str_json(name.as_str()),
        ),
        CsdlAnnotationExpression::UrlRef(inner) => obj1("$UrlRef", expr_to_json(inner)),
    }
}

fn exprs_to_json(items: &Vec<CsdlAnnotationExpression>) -> (r: Vec<JsonValue>)
    ensures
        json_views(r@) == exprs_json(items@),
    decreases items,
{
    let mut out: Vec<JsonValue> = Vec::new();
    let mut i: usize = 0;
    while i < items.len()
        invariant
            i <= items@.len(),
            json_views(out@) == exprs_json(items@.subrange(0, i as int)),
        decreases items.len() - i,
    {
        let ghost o = out@;
        let x = expr_to_json(&items[i]);
        out.push(x);
        proof {
            crate::json::lemma_json_views_push(o, x);
            assert(items@.subrange(0, i + 1).subrange(0, i as int) =~= items@.subrange(0, i as int));
        }
        i = i + 1;
    }
    assert(items@.subrange(0, items@.len() as int) =~= items@);
    out
}

fn record_to_members(m: &mut Vec<(String, JsonValue)>, props: &Vec<PropertyValue>)
    ensures
        member_views(final(m)@) == record_members(member_views(old(m)@), props@),
    decreases props,
{
    let ghost m0 = member_views(m@);
    let mut i: usize = 0;
    while i < props.len()
        invariant
            i <= props@.len(),
            member_views(m@) == record_members(m0, props@.subrange(0, i as int)),
        decreases props.len() - i,
    {
        let pv = &props[i];
        match &pv.value {
            Some(v) => {
                let x = expr_to_json(v);
                obj_insert(m, owned(pv.property.as_str()), x);
            },
            None => {},
        }
        insert_annotation_members(m, &pv.annotations, pv.property.as_str());
        proof {
            assert(props@.subrange(0, i + 1).subrange(0, i as int) =~= props@.subrange(0, i as int));
        }
        i = i + 1;
    }
    assert(props@.subrange(0, props@.len() as int) =~= props@);
}

/// The key of an annotation (see [`annotation_key`]).
fn annotation_key_of(a: &Annotation) -> (r: String)
    ensures
        r@ == annotation_key(*a),
{
    let head = match &a.target {
        Some(t) => concat3(t.as_str(), "@", a.term.as_str()),
        None => concat("@", a.term.as_str()),
    };
    match &a.qualifier {
        Some(q) => concat3(head.as_str(), "#", q.as_str()),
        None => head,
    }
}

fn annotation_to_member(a: &Annotation) -> (r: Option<(String, JsonValue)>)
    ensures
        match annotation_member(*a) {
            Some(kv) => r matches Some(p) && p.0@ == kv.0 && p.1@ == kv.1,
            None => r is None,
        },
    decreases a,
{
    if a.term.as_str().unicode_len() == 0 {
        return None;
    }
    let key = annotation_key_of(a);
    let value = match &a.expression {
        Some(e) => expr_to_json(e),
        None => JsonValue::Bool(true),
    };
    Some((key, value))
}

/// Sets the members of the annotations in order, each key prefixed with
/// `prefix` (see [`insert_annotations`]).
fn insert_annotation_members(m: &mut Vec<(String, JsonValue)>, anns: &Vec<Annotation>, prefix: &str)
    ensures
        member_views(final(m)@) == insert_annotations(member_views(old(m)@), anns@, prefix@),
    decreases anns,
{
    let ghost m0 = member_views(m@);
    let mut i: usize = 0;
    while i < anns.len()
        invariant
            i <= anns@.len(),
            member_views(m@) == insert_annotations(m0, anns@.subrange(0, i as int), prefix@),
        decreases anns.len() - i,
    {
        match annotation_to_member(&anns[i]) {
            Some(kv) => {
                let key = concat(prefix, kv.0.as_str());
                obj_insert(m, key, kv.1);
            },
            None => {},
        }
        proof {
            assert(anns@.subrange(0, i + 1).subrange(0, i as int) =~= anns@.subrange(0, i as int));
        }
        i = i + 1;
    }
    assert(anns@.subrange(0, anns@.len() as int) =~= anns@);
}

// ---------------------------------------------------------------------------
// Writing the document as JSON
// ---------------------------------------------------------------------------

fn obj_with(k: &str, v: JsonValue) -> (r: Vec<(String, JsonValue)>)
    ensures
        member_views(r@) == seq![(k@, v@)],
{
    let mut m: Vec<(String, JsonValue)> = Vec::new();
    m.push((owned(k), v));
    proof {
        lemma_member_views(m@);
        assert(member_views(m@) =~= seq![(k@, v@)]);
    }
    m
}

fn put_bool_exec(m: &mut Vec<(String, JsonValue)>, k: &str, v: Option<bool>)
    ensures
        member_views(final(m)@) == put_bool(member_views(old(m)@), k@, v),
{
    match v {
        Some(b) => obj_insert(m, owned(k), JsonValue::Bool(b)),
        None => {},
    }
}

fn put_str_exec(m: &mut Vec<(String, JsonValue)>, k: &str, v: &Option<String>)
    ensures
        member_views(final(m)@) == put_str(member_views(old(m)@), k@, *v),
{
    match v {
        Some(x) => obj_insert(m, owned(k), str_json(x.as_str())),
        None => {},
    }
}

fn max_length_value(v: MaxLengthFacet) -> (r: JsonValue)
    ensures
        r@ == max_length_json(v),
{
    match v {
        MaxLengthFacet::Number(n) => JsonValue::Number(JsonNumber::PosInt(n)),
        MaxLengthFacet::Max => str_json("max"),
    }
}

fn scale_value(v: ScaleFacet) -> (r: JsonValue)
    ensures
        r@ == scale_json(v),
{
    match v {
        ScaleFacet::Number(n) => JsonValue::Number(JsonNumber::PosInt(n)),
        ScaleFacet::Variable => str_json("variable"),
    }
}

fn srid_value(v: SridFacet) -> (r: JsonValue)
    ensures
        r@ == srid_json(v),
{
    match v {
        SridFacet::Number(n) => JsonValue::Number(JsonNumber::PosInt(n)),
        SridFacet::Variable => str_json("variable"),
    }
}

fn facet_value(raw: &str) -> (r: JsonValue)
    ensures
        r@ == facet_json(raw@),
{
    match parse_u64(raw) {
        Some(n) => JsonValue::Number(JsonNumber::PosInt(n)),
        None => str_json(raw),
    }
}

fn type_facets_exec(
    m: &mut Vec<(String, JsonValue)>,
    type_ref: &Option<String>,
    coll: bool,
    nullable: Option<bool>,
    max_length: Option<MaxLengthFacet>,
)
    ensures
        member_views(final(m)@) == type_facets(member_views(old(m)@), *type_ref, coll, nullable, max_length),
{
    if coll {
        obj_insert(m, owned("$Collection"), JsonValue::Bool(true));
    }
    match type_ref {
        Some(t) => {
            if !str_eq(t.as_str(), "Edm.String") {
                obj_insert(m, owned("$Type"), str_json(t.as_str()));
            }
        },
        None => {},
    }
    put_bool_exec(m, "$Nullable", nullable);
    match max_length {
        Some(x) => obj_insert(m, owned("$MaxLength"), max_length_value(x)),
        None => {},
    }
}

fn numeric_facets_exec(
    m: &mut Vec<(String, JsonValue)>,
    precision: &Option<String>,
    scale: Option<ScaleFacet>,
    srid: Option<SridFacet>,
    unicode: Option<bool>,
)
    ensures
        member_views(final(m)@) == numeric_facets(member_views(old(m)@), *precision, scale, srid, unicode),
{
    match precision {
        Some(p) => obj_insert(m, owned("$Precision"), facet_value(p.as_str())),
        None => {},
    }
    match scale {
        Some(x) => obj_insert(m, owned("$Scale"), scale_value(x)),
        None => {},
    }
    match srid {
        Some(x) => obj_insert(m, owned("$SRID"), srid_value(x)),
        None => {},
    }
    put_bool_exec(m, "$Unicode", unicode);
}

fn put_anns(m: &mut Vec<(String, JsonValue)>, a: &Vec<Annotation>)
    ensures
        member_views(final(m)@) == anns(member_views(old(m)@), *a),
{
    insert_annotation_members(m, a, "");
    proof {
        reveal_strlit("");
        assert(Seq::<char>::empty() =~= ""@);
    }
}

fn only_type_keys(m: &Vec<(String, JsonValue)>) -> (r: bool)
    ensures
        r == only_type_key(member_views(m@)),
{
    proof {
        lemma_member_views(m@);
    }
    let mut i: usize = 0;
    while i < m.len()
        invariant
            i <= m@.len(),
            member_views(m@).len() == m@.len(),
            forall|j: int| 0 <= j < m@.len() ==> #[trigger] member_views(m@)[j] == (m@[j].0@, json_view(m@[j].1)),
            forall|j: int| 0 <= j < i ==> member_views(m@)[j].0 == "$Type"@,
        decreases m.len() - i,
    {
        if !str_eq(m[i].0.as_str(), "$Type") {
            assert(member_views(m@)[i as int].0 != "$Type"@);
            return false;
        }
        i = i + 1;
    }
    true
}

/// A property (see [`property_json`]).
fn property_to_json(p: &Property, id_shape: bool) -> (r: JsonValue)
    ensures
        r@ == property_json(*p, id_shape),
{
    let mut m: Vec<(String, JsonValue)> = Vec::new();
    proof {
        lemma_member_views(m@);
    }
    type_facets_exec(&mut m, &p.type_ref, p.is_collection, p.nullable, p.max_length);
    let int32 = match &p.type_ref {
        Some(t) => str_eq(t.as_str(), "Edm.Int32"),
        None => false,
    };
    if id_shape && int32 && p.nullable == Some(false) && only_type_keys(&m) {
        m = Vec::new();
        proof {
            lemma_member_views(m@);
        }
    }
    numeric_facets_exec(&mut m, &p.precision, p.scale, p.srid, p.unicode);
    put_str_exec(&mut m, "$DefaultValue", &p.default_value);
    put_anns(&mut m, &p.annotations);
    JsonValue::Object(m)
}

fn targets_constraint(a: &Annotation, cs: &Vec<ReferentialConstraint>) -> (r: bool)
    ensures
        r == targets(*a, constraint_names(cs@)),
{
    let t = match &a.target {
        Some(t) => t,
        None => {
            return false;
        },
    };
    let ghost names = constraint_names(cs@);
    let mut i: usize = 0;
    while i < cs.len()
        invariant
            i <= cs@.len(),
            names == constraint_names(cs@),
            names.len() == cs@.len(),
            a.target == Some(*t),
            forall|j: int| 0 <= j < i ==> names[j] != t@,
        decreases cs.len() - i,
    {
        if str_eq(cs[i].property.as_str(), t.as_str()) {
            assert(names[i as int] == t@);
            assert(names.contains(t@));
            return true;
        }
        i = i + 1;
    }
    false
}

fn any_targeted(a: &Vec<Annotation>, cs: &Vec<ReferentialConstraint>) -> (r: bool)
    ensures
        r == has_targeted(a@, constraint_names(cs@)),
{
    let mut i: usize = 0;
    while i < a.len()
        invariant
            i <= a@.len(),
            forall|j: int| 0 <= j < i ==> !targets(#[trigger] a@[j], constraint_names(cs@)),
        decreases a.len() - i,
    {
        if targets_constraint(&a[i], cs) {
            return true;
        }
        i = i + 1;
    }
    false
}

fn put_annotations_where_exec(
    m: &mut Vec<(String, JsonValue)>,
    a: &Vec<Annotation>,
    cs: &Vec<ReferentialConstraint>,
    want: bool,
)
    ensures
        member_views(final(m)@) == put_annotations_where(
            member_views(old(m)@),
            a@,
            constraint_names(cs@),
            want,
        ),
{
    let ghost m0 = member_views(m@);
    let mut i: usize = 0;
    while i < a.len()
        invariant
            i <= a@.len(),
            member_views(m@) == put_annotations_where(m0, a@.take(i as int), constraint_names(cs@), want),
        decreases a.len() - i,
    {
        if targets_constraint(&a[i], cs) == want {
            match annotation_to_member(&a[i]) {
                Some(kv) => obj_insert(m, kv.0, kv.1),
                None => {},
            }
        }
        proof {
            assert(a@.take(i + 1).drop_last() =~= a@.take(i as int));
        }
        i = i + 1;
    }
    assert(a@.take(a@.len() as int) =~= a@);
}

fn constraint_members_exec(m: &mut Vec<(String, JsonValue)>, cs: &Vec<ReferentialConstraint>)
    ensures
        member_views(final(m)@) == constraint_members(member_views(old(m)@), cs@),
{
    let ghost m0 = member_views(m@);
    let mut i: usize = 0;
    while i < cs.len()
        invariant
            i <= cs@.len(),
            member_views(m@) == constraint_members(m0, cs@.take(i as int)),
        decreases cs.len() - i,
    {
        let c = &cs[i];
        obj_insert(m, owned(c.property.as_str()), str_json(c.referenced_property.as_str()));
        insert_annotation_members(m, &c.annotations, c.property.as_str());
        proof {
            assert(cs@.take(i + 1).drop_last() =~= cs@.take(i as int));
        }
        i = i + 1;
    }
    assert(cs@.take(cs@.len() as int) =~= cs@);
}

/// A navigation property (see [`navigation_json`]).
fn navigation_to_json(n: &NavigationProperty) -> (r: JsonValue)
    ensures
        r@ == navigation_json(*n),
{
    let mut m = obj_with("$Kind", str_json("NavigationProperty"));
    if n.is_collection {
        obj_insert(&mut m, owned("$Collection"), JsonValue::Bool(true));
    }
    put_str_exec(&mut m, "$Type", &n.type_ref);
    put_bool_exec(&mut m, "$Nullable", n.nullable);
    put_str_exec(&mut m, "$Partner", &n.partner);
    put_bool_exec(&mut m, "$ContainsTarget", n.contains_target);
    match n.on_delete {
        Some(a) => obj_insert(&mut m, owned("$OnDelete"), str_json(a.as_str())),
        None => {},
    }
    if n.referential_constraints.len() > 0 || any_targeted(&n.annotations, &n.referential_constraints) {
        let mut cm: Vec<(String, JsonValue)> = Vec::new();
        proof {
            lemma_member_views(cm@);
        }
        constraint_members_exec(&mut cm, &n.referential_constraints);
        put_annotations_where_exec(&mut cm, &n.annotations, &n.referential_constraints, true);
        obj_insert(&mut m, owned("$ReferentialConstraint"), JsonValue::Object(cm));
    }
    put_annotations_where_exec(&mut m, &n.annotations, &n.referential_constraints, false);
    JsonValue::Object(m)
}

fn put_properties(m: &mut Vec<(String, JsonValue)>, s: &Vec<Property>, streams: bool)
    ensures
        member_views(final(m)@) == put_all(member_views(old(m)@), s@, prop_entry(streams)),
{
    let ghost m0 = member_views(m@);
    let mut i: usize = 0;
    while i < s.len()
        invariant
            i <= s@.len(),
            member_views(m@) == put_all(m0, s@.take(i as int), prop_entry(streams)),
        decreases s.len() - i,
    {
        let x = &s[i];
        let v = property_to_json(x, streams && str_eq(x.name.as_str(), "ID"));
        obj_insert(m, owned(x.name.as_str()), v);
        proof {
            assert(s@.take(i + 1).drop_last() =~= s@.take(i as int));
        }
        i = i + 1;
    }
    assert(s@.take(s@.len() as int) =~= s@);
}

fn put_navigations(m: &mut Vec<(String, JsonValue)>, s: &Vec<NavigationProperty>)
    ensures
        member_views(final(m)@) == put_all(member_views(old(m)@), s@, nav_entry()),
{
    let ghost m0 = member_views(m@);
    let mut i: usize = 0;
    while i < s.len()
        invariant
            i <= s@.len(),
            member_views(m@) == put_all(m0, s@.take(i as int), nav_entry()),
        decreases s.len() - i,
    {
        let x = &s[i];
        let v = navigation_to_json(x);
        obj_insert(m, owned(x.name.as_str()), v);
        proof {
            assert(s@.take(i + 1).drop_last() =~= s@.take(i as int));
        }
        i = i + 1;
    }
    assert(s@.take(s@.len() as int) =~= s@);
}

fn key_refs_json(s: &Vec<crate::csdl::PropertyRef>) -> (r: Vec<JsonValue>)
    ensures
        json_views(r@) == s@.map_values(ref_json()),
{
    let mut out: Vec<JsonValue> = Vec::new();
    let mut i: usize = 0;
    while i < s.len()
        invariant
            i <= s@.len(),
            json_views(out@) == s@.take(i as int).map_values(ref_json()),
        decreases s.len() - i,
    {
        let x = &s[i];
        let v = str_json(x.name.as_str());
        let ghost o = out@;
        out.push(v);
        proof {
            crate::json::lemma_json_views_push(o, v);
            assert(s@.take(i + 1).map_values(ref_json()) =~= s@.take(i as int).map_values(ref_json()).push(
                (ref_json())(s@[i as int]),
            ));
        }
        i = i + 1;
    }
    assert(s@.take(s@.len() as int) =~= s@);
    out
}

fn entity_type_to_json(e: &EntityType) -> (r: JsonValue)
    ensures
        r@ == entity_type_json(*e),
{
    let mut m = obj_with("$Kind", str_json("EntityType"));
    put_str_exec(&mut m, "$BaseType", &e.base_type);
    put_bool_exec(&mut m, "$Abstract", e.abstract_);
    put_bool_exec(&mut m, "$OpenType", e.open_type);
    put_bool_exec(&mut m, "$HasStream", e.has_stream);
    match &e.key {
        Some(k) => {
            if k.property_refs.len() > 0 {
                obj_insert(&mut m, owned("$Key"), JsonValue::Array(key_refs_json(&k.property_refs)));
            }
        },
        None => {},
    }
    let streams = e.has_stream == Some(true);
    put_properties(&mut m, &e.properties, streams);
    put_navigations(&mut m, &e.navigation_properties);
    put_anns(&mut m, &e.annotations);
    JsonValue::Object(m)
}

fn complex_type_to_json(c: &ComplexType) -> (r: JsonValue)
    ensures
        r@ == complex_type_json(*c),
{
    let mut m = obj_with("$Kind", str_json("ComplexType"));
    put_str_exec(&mut m, "$BaseType", &c.base_type);
    put_bool_exec(&mut m, "$Abstract", c.abstract_);
    put_bool_exec(&mut m, "$OpenType", c.open_type);
    put_properties(&mut m, &c.properties, false);
    put_navigations(&mut m, &c.navigation_properties);
    put_anns(&mut m, &c.annotations);
    JsonValue::Object(m)
}

fn put_new_exec(m: &mut Vec<(String, JsonValue)>, k: String, v: JsonValue)
    ensures
        member_views(final(m)@) == put_new(member_views(old(m)@), k@, v@),
{
    if !crate::json::obj_has(m, k.as_str()) {
        obj_insert(m, k, v);
    }
}

fn enum_type_to_json(e: &EnumType) -> (r: JsonValue)
    ensures
        r@ == enum_type_json(*e),
{
    let mut m = obj_with("$Kind", str_json("EnumType"));
    match &e.underlying_type {
        Some(t) => {
            if !str_eq(t.as_str(), "Edm.Int32") {
                obj_insert(&mut m, owned("$UnderlyingType"), str_json(t.as_str()));
            }
        },
        None => {},
    }
    put_bool_exec(&mut m, "$IsFlags", e.is_flags);
    let ghost m0 = member_views(m@);
    let mut i: usize = 0;
    while i < e.members.len()
        invariant
            i <= e.members@.len(),
            member_views(m@) == enum_members(m0, e.members@.take(i as int)),
        decreases e.members.len() - i,
    {
        let x = &e.members[i];
        let v = match x.value {
            Some(n) => int_json(n),
            None => JsonValue::Null,
        };
        put_new_exec(&mut m, owned(x.name.as_str()), v);
        let ghost m1 = member_views(m@);
        let mut j: usize = 0;
        while j < x.annotations.len()
            invariant
                j <= x.annotations@.len(),
                member_views(m@) == member_annotations(m1, x.name@, x.annotations@.take(j as int)),
            decreases x.annotations.len() - j,
        {
            match annotation_to_member(&x.annotations[j]) {
                Some(kv) => put_new_exec(&mut m, concat(x.name.as_str(), kv.0.as_str()), kv.1),
                None => {},
            }
            proof {
                assert(x.annotations@.take(j + 1).drop_last() =~= x.annotations@.take(j as int));
            }
            j = j + 1;
        }
        proof {
            assert(x.annotations@.take(x.annotations@.len() as int) =~= x.annotations@);
            assert(e.members@.take(i + 1).drop_last() =~= e.members@.take(i as int));
        }
        i = i + 1;
    }
    assert(e.members@.take(e.members@.len() as int) =~= e.members@);
    put_anns(&mut m, &e.annotations);
    JsonValue::Object(m)
}

fn type_definition_to_json(t: &TypeDefinition) -> (r: JsonValue)
    ensures
        r@ == type_definition_json(*t),
{
    let mut m = obj_with("$Kind", str_json("TypeDefinition"));
    let ghost m0 = member_views(m@);
    obj_insert(&mut m, owned("$UnderlyingType"), str_json(t.underlying_type.as_str()));
    proof {
        crate::json::lemma_key_pos(m0, "$UnderlyingType"@);
        reveal_strlit("$Kind");
        reveal_strlit("$UnderlyingType");
        assert(m0[0].0 == "$Kind"@);
        assert("$Kind"@.len() != "$UnderlyingType"@.len());
        assert(m0[0].0 != "$UnderlyingType"@);
        assert(member_views(m@) =~= seq![("$Kind"@, jstr("TypeDefinition"@)), ("$UnderlyingType"@, jstr(t.underlying_type@))]);
    }
    match t.max_length {
        Some(x) => obj_insert(&mut m, owned("$MaxLength"), max_length_value(x)),
        None => {},
    }
    numeric_facets_exec(&mut m, &t.precision, t.scale, t.srid, t.unicode);
    put_anns(&mut m, &t.annotations);
    JsonValue::Object(m)
}

fn strings_json(s: &Vec<String>) -> (r: Vec<JsonValue>)
    ensures
        json_views(r@) == s@.map_values(string_json()),
{
    let mut out: Vec<JsonValue> = Vec::new();
    let mut i: usize = 0;
    while i < s.len()
        invariant
            i <= s@.len(),
            json_views(out@) == s@.take(i as int).map_values(string_json()),
        decreases s.len() - i,
    {
        let x = &s[i];
        let v = str_json(x.as_str());
        let ghost o = out@;
        out.push(v);
        proof {
            crate::json::lemma_json_views_push(o, v);
            assert(s@.take(i + 1).map_values(string_json()) =~= s@.take(i as int).map_values(string_json()).push(
                (string_json())(s@[i as int]),
            ));
        }
        i = i + 1;
    }
    assert(s@.take(s@.len() as int) =~= s@);
    out
}

fn term_to_json(t: &Term) -> (r: JsonValue)
    ensures
        r@ == term_json(*t),
{
    let mut m = obj_with("$Kind", str_json("Term"));
    type_facets_exec(&mut m, &t.type_ref, t.is_collection, t.nullable, t.max_length);
    numeric_facets_exec(&mut m, &t.precision, t.scale, t.srid, t.unicode);
    put_str_exec(&mut m, "$BaseTerm", &t.base_term);
    put_str_exec(&mut m, "$DefaultValue", &t.default_value);
    if t.applies_to.len() > 0 {
        obj_insert(&mut m, owned("$AppliesTo"), JsonValue::Array(strings_json(&t.applies_to)));
    }
    put_anns(&mut m, &t.annotations);
    JsonValue::Object(m)
}

fn parameter_to_json(p: &Parameter) -> (r: JsonValue)
    ensures
        r@ == parameter_json(*p),
{
    let mut m = obj_with("$Name", str_json(p.name.as_str()));
    type_facets_exec(&mut m, &p.type_ref, p.is_collection, p.nullable, p.max_length);
    numeric_facets_exec(&mut m, &p.precision, p.scale, p.srid, p.unicode);
    put_str_exec(&mut m, "$DefaultValue", &p.default_value);
    put_anns(&mut m, &p.annotations);
    JsonValue::Object(m)
}

fn return_type_to_json(rt: &ReturnType) -> (r: JsonValue)
    ensures
        r@ == return_type_json(*rt),
{
    let mut m: Vec<(String, JsonValue)> = Vec::new();
    proof {
        lemma_member_views(m@);
    }
    type_facets_exec(&mut m, &rt.type_ref, rt.is_collection, rt.nullable, rt.max_length);
    numeric_facets_exec(&mut m, &rt.precision, rt.scale, rt.srid, rt.unicode);
    put_anns(&mut m, &rt.annotations);
    JsonValue::Object(m)
}

fn parameters_json(s: &Vec<Parameter>) -> (r: Vec<JsonValue>)
    ensures
        json_views(r@) == s@.map_values(param_json()),
{
    let mut out: Vec<JsonValue> = Vec::new();
    let mut i: usize = 0;
    while i < s.len()
        invariant
            i <= s@.len(),
            json_views(out@) == s@.take(i as int).map_values(param_json()),
        decreases s.len() - i,
    {
        let x = &s[i];
        let v = parameter_to_json(x);
        let ghost o = out@;
        out.push(v);
        proof {
            crate::json::lemma_json_views_push(o, v);
            assert(s@.take(i + 1).map_values(param_json()) =~= s@.take(i as int).map_values(param_json()).push(
                (param_json())(s@[i as int]),
            ));
        }
        i = i + 1;
    }
    assert(s@.take(s@.len() as int) =~= s@);
    out
}

fn callable_to_json(
    kind: &str,
    is_bound: Option<bool>,
    is_composable: Option<bool>,
    esp: &Option<String>,
    params: &Vec<Parameter>,
    rt: &Option<ReturnType>,
    a: &Vec<Annotation>,
) -> (r: JsonValue)
    ensures
        r@ == callable_json(kind@, is_bound, is_composable, *esp, params@, *rt, *a),
{
    let mut m = obj_with("$Kind", str_json(kind));
    put_bool_exec(&mut m, "$IsBound", is_bound);
    put_str_exec(&mut m, "$EntitySetPath", esp);
    if str_eq(kind, "Function") {
        put_bool_exec(&mut m, "$IsComposable", is_composable);
    }
    if params.len() > 0 {
        obj_insert(&mut m, owned("$Parameter"), JsonValue::Array(parameters_json(params)));
    }
    match rt {
        Some(x) => obj_insert(&mut m, owned("$ReturnType"), return_type_to_json(x)),
        None => {},
    }
    put_anns(&mut m, a);
    JsonValue::Object(m)
}

fn put_bindings(m: &mut Vec<(String, JsonValue)>, bs: &Vec<NavigationPropertyBinding>)
    ensures
        member_views(final(m)@) == bindings_json(member_views(old(m)@), bs@),
{
    if bs.len() == 0 {
        return;
    }
    let mut bm: Vec<(String, JsonValue)> = Vec::new();
    proof {
        lemma_member_views(bm@);
    }
    put_binding_entries(&mut bm, bs);
    obj_insert(m, owned("$NavigationPropertyBinding"), JsonValue::Object(bm));
}

fn put_binding_entries(m: &mut Vec<(String, JsonValue)>, s: &Vec<NavigationPropertyBinding>)
    ensures
        member_views(final(m)@) == put_all(member_views(old(m)@), s@, binding_entry()),
{
    let ghost m0 = member_views(m@);
    let mut i: usize = 0;
    while i < s.len()
        invariant
            i <= s@.len(),
            member_views(m@) == put_all(m0, s@.take(i as int), binding_entry()),
        decreases s.len() - i,
    {
        let x = &s[i];
        let v = str_json(x.target.as_str());
        obj_insert(m, owned(x.path.as_str()), v);
        proof {
            assert(s@.take(i + 1).drop_last() =~= s@.take(i as int));
        }
        i = i + 1;
    }
    assert(s@.take(s@.len() as int) =~= s@);
}

fn entity_set_to_json(x: &EntitySet) -> (r: JsonValue)
    ensures
        r@ == entity_set_json(*x),
{
    let mut m = obj_with("$Collection", JsonValue::Bool(true));
    put_str_exec(&mut m, "$Type", &x.entity_type);
    put_bool_exec(&mut m, "$IncludeInServiceDocument", x.include_in_service_document);
    put_bindings(&mut m, &x.navigation_property_bindings);
    put_anns(&mut m, &x.annotations);
    JsonValue::Object(m)
}

fn singleton_to_json(x: &Singleton) -> (r: JsonValue)
    ensures
        r@ == singleton_json(*x),
{
    let mut m: Vec<(String, JsonValue)> = Vec::new();
    proof {
        lemma_member_views(m@);
    }
    put_str_exec(&mut m, "$Type", &x.type_ref);
    put_bool_exec(&mut m, "$IncludeInServiceDocument", x.include_in_service_document);
    put_bindings(&mut m, &x.navigation_property_bindings);
    put_anns(&mut m, &x.annotations);
    JsonValue::Object(m)
}

fn function_import_to_json(x: &FunctionImport) -> (r: JsonValue)
    ensures
        r@ == function_import_json(*x),
{
    let mut m: Vec<(String, JsonValue)> = Vec::new();
    proof {
        lemma_member_views(m@);
    }
    put_str_exec(&mut m, "$EntitySet", &x.entity_set);
    put_str_exec(&mut m, "$Function", &x.function);
    put_bool_exec(&mut m, "$IncludeInServiceDocument", x.include_in_service_document);
    put_anns(&mut m, &x.annotations);
    JsonValue::Object(m)
}

fn action_import_to_json(x: &ActionImport) -> (r: JsonValue)
    ensures
        r@ == action_import_json(*x),
{
    let mut m: Vec<(String, JsonValue)> = Vec::new();
    proof {
        lemma_member_views(m@);
    }
    put_str_exec(&mut m, "$Action", &x.action);
    put_str_exec(&mut m, "$EntitySet", &x.entity_set);
    put_bool_exec(&mut m, "$IncludeInServiceDocument", x.include_in_service_document);
    put_anns(&mut m, &x.annotations);
    JsonValue::Object(m)
}

fn put_entity_sets(m: &mut Vec<(String, JsonValue)>, s: &Vec<EntitySet>)
    ensures
        member_views(final(m)@) == put_all(member_views(old(m)@), s@, set_entry()),
{
    let ghost m0 = member_views(m@);
    let mut i: usize = 0;
    while i < s.len()
        invariant
            i <= s@.len(),
            member_views(m@) == put_all(m0, s@.take(i as int), set_entry()),
        decreases s.len() - i,
    {
        let x = &s[i];
        let v = entity_set_to_json(x);
        obj_insert(m, owned(x.name.as_str()), v);
        proof {
            assert(s@.take(i + 1).drop_last() =~= s@.take(i as int));
        }
        i = i + 1;
    }
    assert(s@.take(s@.len() as int) =~= s@);
}

fn put_singletons(m: &mut Vec<(String, JsonValue)>, s: &Vec<Singleton>)
    ensures
        member_views(final(m)@) == put_all(member_views(old(m)@), s@, singleton_entry()),
{
    let ghost m0 = member_views(m@);
    let mut i: usize = 0;
    while i < s.len()
        invariant
            i <= s@.len(),
            member_views(m@) == put_all(m0, s@.take(i as int), singleton_entry()),
        decreases s.len() - i,
    {
        let x = &s[i];
        let v = singleton_to_json(x);
        obj_insert(m, owned(x.name.as_str()), v);
        proof {
            assert(s@.take(i + 1).drop_last() =~= s@.take(i as int));
        }
        i = i + 1;
    }
    assert(s@.take(s@.len() as int) =~= s@);
}

fn put_function_imports(m: &mut Vec<(String, JsonValue)>, s: &Vec<FunctionImport>)
    ensures
        member_views(final(m)@) == put_all(member_views(old(m)@), s@, function_import_entry()),
{
    let ghost m0 = member_views(m@);
    let mut i: usize = 0;
    while i < s.len()
        invariant
            i <= s@.len(),
            member_views(m@) == put_all(m0, s@.take(i as int), function_import_entry()),
        decreases s.len() - i,
    {
        let x = &s[i];
        let v = function_import_to_json(x);
        obj_insert(m, owned(x.name.as_str()), v);
        proof {
            assert(s@.take(i + 1).drop_last() =~= s@.take(i as int));
        }
        i = i + 1;
    }
    assert(s@.take(s@.len() as int) =~= s@);
}

fn put_action_imports(m: &mut Vec<(String, JsonValue)>, s: &Vec<ActionImport>)
    ensures
        member_views(final(m)@) == put_all(member_views(old(m)@), s@, action_import_entry()),
{
    let ghost m0 = member_views(m@);
    let mut i: usize = 0;
    while i < s.len()
        invariant
            i <= s@.len(),
            member_views(m@) == put_all(m0, s@.take(i as int), action_import_entry()),
        decreases s.len() - i,
    {
        let x = &s[i];
        let v = action_import_to_json(x);
        obj_insert(m, owned(x.name.as_str()), v);
        proof {
            assert(s@.take(i + 1).drop_last() =~= s@.take(i as int));
        }
        i = i + 1;
    }
    assert(s@.take(s@.len() as int) =~= s@);
}

fn container_to_json(c: &EntityContainer) -> (r: JsonValue)
    ensures
        r@ == container_json(*c),
{
    let mut m = obj_with("$Kind", str_json("EntityContainer"));
    put_str_exec(&mut m, "$Extends", &c.extends);
    put_entity_sets(&mut m, &c.entity_sets);
    put_singletons(&mut m, &c.singletons);
    put_function_imports(&mut m, &c.function_imports);
    put_action_imports(&mut m, &c.action_imports);
    put_anns(&mut m, &c.annotations);
    JsonValue::Object(m)
}

/// `a < b` on strings: by their characters in order.
pub fn str_lt(a: &str, b: &str) -> (r: bool)
    ensures
        r == seq_lt(a@, b@),
{
    let av = crate::text::chars_of(a);
    let bv = crate::text::chars_of(b);
    let mut i: usize = 0;
    assert(a@.skip(0) =~= a@);
    assert(b@.skip(0) =~= b@);
    loop
        invariant
            av@ == a@,
            bv@ == b@,
            i <= av@.len(),
            i <= bv@.len(),
            seq_lt(a@, b@) == seq_lt(a@.skip(i as int), b@.skip(i as int)),
        decreases av@.len() - i,
    {
        if i == av.len() {
            assert(a@.skip(i as int).len() == 0);
            return i < bv.len();
        }
        if i == bv.len() {
            assert(b@.skip(i as int).len() == 0);
            return false;
        }
        assert(a@.skip(i as int)[0] == av@[i as int]);
        assert(b@.skip(i as int)[0] == bv@[i as int]);
        if av[i] != bv[i] {
            return (av[i] as u32) < (bv[i] as u32);
        }
        assert(a@.skip(i as int).drop_first() =~= a@.skip(i + 1));
        assert(b@.skip(i as int).drop_first() =~= b@.skip(i + 1));
        i = i + 1;
    }
}

pub open spec fn groups_view(g: Seq<(String, Vec<JsonValue>)>) -> Groups {
    g.map_values(|x: (String, Vec<JsonValue>)| (x.0@, json_views(x.1@)))
}

proof fn lemma_group_pos(g: Groups, name: Seq<char>)
    ensures
        match group_pos(g, name) {
            Some(i) => 0 <= i < g.len() && g[i].0 == name && forall|j: int| 0 <= j < i ==> g[j].0 != name,
            None => forall|j: int| 0 <= j < g.len() ==> g[j].0 != name,
        },
    decreases g.len(),
{
    if g.len() > 0 {
        lemma_group_pos(g.drop_first(), name);
        if g[0].0 != name {
            assert forall|j: int| 0 < j < g.len() implies g[j] == g.drop_first()[j - 1] by {}
        }
    }
}

/// Adds an overload to its group (see [`group_add`]).
fn group_add_exec(g: &mut Vec<(String, Vec<JsonValue>)>, name: &str, v: JsonValue)
    ensures
        groups_view(final(g)@) == group_add(groups_view(old(g)@), name@, v@),
{
    let ghost gv = groups_view(g@);
    proof {
        lemma_group_pos(gv, name@);
    }
    let mut i: usize = 0;
    let mut count: usize = 0;
    while i < g.len()
        invariant
            i <= g@.len(),
            gv == groups_view(g@),
            gv == groups_view(old(g)@),
            count <= i,
            count == count_before(gv.take(i as int), name@),
            forall|j: int| 0 <= j < i ==> gv[j].0 != name@,
        decreases g.len() - i,
    {
        if str_eq(g[i].0.as_str(), name) {
            assert(gv[i as int].0 == name@);
            proof {
                lemma_group_pos(gv, name@);
                match group_pos(gv, name@) {
                    Some(p) => {
                        if p < i {
                            assert(gv[p].0 != name@);
                        } else if p > i {
                            assert(gv[i as int].0 != name@);
                        }
                    },
                    None => {
                        assert(gv[i as int].0 != name@);
                    },
                }
            }
            let mut e = g.remove(i);
            let ghost ev = e.1@;
            let ghost vv = v@;
            let ghost vx = v;
            e.1.push(v);
            g.insert(i, e);
            proof {
                crate::json::lemma_json_views_push(ev, vx);
                assert(groups_view(g@) =~= gv.update(i as int, (name@, gv[i as int].1.push(vv))));
            }
            return;
        }
        let lt = str_lt(g[i].0.as_str(), name);
        proof {
            assert(gv.take(i + 1).drop_last() =~= gv.take(i as int));
        }
        if lt {
            count = count + 1;
        }
        i = i + 1;
    }
    assert(gv.take(i as int) =~= gv);
    let ghost vv = v@;
    let mut one: Vec<JsonValue> = Vec::new();
    one.push(v);
    proof {
        lemma_json_views(one@);
        assert(json_views(one@) =~= seq![vv]);
    }
    g.insert(count, (owned(name), one));
    proof {
        assert(groups_view(g@) =~= gv.insert(count as int, (name@, seq![vv])));
    }
}

/// A schema (see [`schema_json`]).
fn schema_to_json(s: &Schema) -> (r: JsonValue)
    ensures
        r@ == schema_json(*s),
{
    let mut m: Vec<(String, JsonValue)> = Vec::new();
    proof {
        lemma_member_views(m@);
    }
    put_str_exec(&mut m, "$Alias", &s.alias);
    let ghost m1 = member_views(m@);
    let mut groups: Vec<(String, Vec<JsonValue>)> = Vec::new();
    assert(groups_view(groups@) =~= Seq::<(Seq<char>, Seq<JsonView>)>::empty());
    let mut i: usize = 0;
    while i < s.elements.len()
        invariant
            i <= s.elements@.len(),
            (member_views(m@), groups_view(groups@)) == schema_elements(
                m1,
                Seq::empty(),
                s.elements@.take(i as int),
            ),
        decreases s.elements.len() - i,
    {
        match &s.elements[i] {
            SchemaElement::EntityType(x) => obj_insert(&mut m, owned(x.name.as_str()), entity_type_to_json(x)),
            SchemaElement::ComplexType(x) => obj_insert(&mut m, owned(x.name.as_str()), complex_type_to_json(x)),
            SchemaElement::EnumType(x) => obj_insert(&mut m, owned(x.name.as_str()), enum_type_to_json(x)),
            SchemaElement::TypeDefinition(x) => obj_insert(
                &mut m,
                owned(x.name.as_str()),
                type_definition_to_json(x),
            ),
            SchemaElement::Term(x) => obj_insert(&mut m, owned(x.name.as_str()), term_to_json(x)),
            SchemaElement::Function(x) => {
                let v = callable_to_json(
                    "Function",
                    x.is_bound,
                    x.is_composable,
                    &x.entity_set_path,
                    &x.parameters,
                    &x.return_type,
                    &x.annotations,
                );
                group_add_exec(&mut groups, x.name.as_str(), v);
            },
            SchemaElement::Action(x) => {
                let v = callable_to_json(
                    "Action",
                    x.is_bound,
                    None,
                    &x.entity_set_path,
                    &x.parameters,
                    &x.return_type,
                    &x.annotations,
                );
                group_add_exec(&mut groups, x.name.as_str(), v);
            },
            SchemaElement::EntityContainer(x) => obj_insert(&mut m, owned(x.name.as_str()), container_to_json(x)),
        }
        proof {
            assert(s.elements@.take(i + 1).drop_last() =~= s.elements@.take(i as int));
        }
        i = i + 1;
    }
    assert(s.elements@.take(s.elements@.len() as int) =~= s.elements@);
    let ghost gv = groups_view(groups@);
    let ghost m2 = member_views(m@);
    let ghost n = groups@.len();
    let total = groups.len();
    assert(n == total);
    let mut k: usize = 0;
    while groups.len() > 0
        invariant
            k <= n,
            n <= usize::MAX,
            groups@.len() == n - k,
            groups_view(groups@) == gv.skip(k as int),
            gv.len() == n,
            member_views(m@) == put_all(m2, gv.take(k as int), group_entry()),
        decreases groups.len(),
    {
        let ghost before = groups@;
        let g = groups.remove(0);
        proof {
            assert(groups_view(before)[0] == gv[k as int]);
            assert forall|j: int| 0 <= j < groups@.len() implies #[trigger] groups_view(groups@)[j] == gv.skip(k + 1)[j] by {
                assert(groups@[j] == before[j + 1]);
                assert(groups_view(before)[j + 1] == gv.skip(k as int)[j + 1]);
            }
            assert(groups_view(groups@) =~= gv.skip(k + 1));
            assert(gv.take(k + 1).drop_last() =~= gv.take(k as int));
        }
        obj_insert(&mut m, g.0, JsonValue::Array(g.1));
        k = k + 1;
    }
    assert(gv.take(k as int) =~= gv);
    put_anns(&mut m, &s.annotations);
    JsonValue::Object(m)
}

fn include_to_json(x: &Include) -> (r: JsonValue)
    ensures
        r@ == include_json(*x),
{
    let mut m = obj_with("$Namespace", str_json(x.namespace.as_str()));
    put_str_exec(&mut m, "$Alias", &x.alias);
    put_anns(&mut m, &x.annotations);
    JsonValue::Object(m)
}

fn include_annotations_to_json(x: &IncludeAnnotations) -> (r: JsonValue)
    ensures
        r@ == include_annotations_json(*x),
{
    let mut m = obj_with("$TermNamespace", str_json(x.term_namespace.as_str()));
    put_str_exec(&mut m, "$Qualifier", &x.qualifier);
    put_str_exec(&mut m, "$TargetNamespace", &x.target_namespace);
    JsonValue::Object(m)
}

fn includes_json(s: &Vec<Include>) -> (r: Vec<JsonValue>)
    ensures
        json_views(r@) == s@.map_values(include_fn()),
{
    let mut out: Vec<JsonValue> = Vec::new();
    let mut i: usize = 0;
    while i < s.len()
        invariant
            i <= s@.len(),
            json_views(out@) == s@.take(i as int).map_values(include_fn()),
        decreases s.len() - i,
    {
        let x = &s[i];
        let v = include_to_json(x);
        let ghost o = out@;
        out.push(v);
        proof {
            crate::json::lemma_json_views_push(o, v);
            assert(s@.take(i + 1).map_values(include_fn()) =~= s@.take(i as int).map_values(include_fn()).push(
                (include_fn())(s@[i as int]),
            ));
        }
        i = i + 1;
    }
    assert(s@.take(s@.len() as int) =~= s@);
    out
}

fn include_annotations_list_json(s: &Vec<IncludeAnnotations>) -> (r: Vec<JsonValue>)
    ensures
        json_views(r@) == s@.map_values(include_annotations_fn()),
{
    let mut out: Vec<JsonValue> = Vec::new();
    let mut i: usize = 0;
    while i < s.len()
        invariant
            i <= s@.len(),
            json_views(out@) == s@.take(i as int).map_values(include_annotations_fn()),
        decreases s.len() - i,
    {
        let x = &s[i];
        let v = include_annotations_to_json(x);
        let ghost o = out@;
        out.push(v);
        proof {
            crate::json::lemma_json_views_push(o, v);
            assert(s@.take(i + 1).map_values(include_annotations_fn()) =~= s@.take(i as int).map_values(include_annotations_fn()).push(
                (include_annotations_fn())(s@[i as int]),
            ));
        }
        i = i + 1;
    }
    assert(s@.take(s@.len() as int) =~= s@);
    out
}

fn reference_to_json(x: &Reference) -> (r: JsonValue)
    ensures
        r@ == reference_json(*x),
{
    let mut m = obj_with("$Include", JsonValue::Array(includes_json(&x.includes)));
    if x.include_annotations.len() > 0 {
        obj_insert(
            &mut m,
            owned("$IncludeAnnotations"),
            JsonValue::Array(include_annotations_list_json(&x.include_annotations)),
        );
    }
    JsonValue::Object(m)
}

fn put_references(m: &mut Vec<(String, JsonValue)>, s: &Vec<Reference>)
    ensures
        member_views(final(m)@) == put_all(member_views(old(m)@), s@, reference_entry()),
{
    let ghost m0 = member_views(m@);
    let mut i: usize = 0;
    while i < s.len()
        invariant
            i <= s@.len(),
            member_views(m@) == put_all(m0, s@.take(i as int), reference_entry()),
        decreases s.len() - i,
    {
        let x = &s[i];
        let v = reference_to_json(x);
        obj_insert(m, owned(x.uri.as_str()), v);
        proof {
            assert(s@.take(i + 1).drop_last() =~= s@.take(i as int));
        }
        i = i + 1;
    }
    assert(s@.take(s@.len() as int) =~= s@);
}

fn first_container_of(els: &Vec<SchemaElement>) -> (r: Option<&EntityContainer>)
    ensures
        match first_container(els@) {
            Some(c) => r == Some(&c),
            None => r is None,
        },
{
    let mut i: usize = 0;
    assert(els@.skip(0) =~= els@);
    while i < els.len()
        invariant
            i <= els@.len(),
            first_container(els@) == first_container(els@.skip(i as int)),
        decreases els.len() - i,
    {
        assert(els@.skip(i as int)[0] == els@[i as int]);
        match &els[i] {
            SchemaElement::EntityContainer(c) => {
                return Some(c);
            },
            _ => {},
        }
        assert(els@.skip(i as int).drop_first() =~= els@.skip(i + 1));
        i = i + 1;
    }
    assert(els@.skip(i as int).len() == 0);
    None
}

fn edmx_to_json(e: &Edmx) -> (r: JsonValue)
    ensures
        r@ == edmx_json(*e),
{
    let mut m: Vec<(String, JsonValue)> = Vec::new();
    proof {
        lemma_member_views(m@);
    }
    put_str_exec(&mut m, "$Version", &e.version);
    if e.references.len() > 0 {
        let mut refs: Vec<(String, JsonValue)> = Vec::new();
        proof {
            lemma_member_views(refs@);
        }
        put_references(&mut refs, &e.references);
        obj_insert(&mut m, owned("$Reference"), JsonValue::Object(refs));
    }
    let ghost m0 = member_views(m@);
    let mut i: usize = 0;
    while i < e.schemas.len()
        invariant
            i <= e.schemas@.len(),
            member_views(m@) == schemas_json(m0, e.schemas@.take(i as int)),
        decreases e.schemas.len() - i,
    {
        let x = &e.schemas[i];
        obj_insert(&mut m, owned(x.namespace.as_str()), schema_to_json(x));
        match first_container_of(&x.elements) {
            Some(c) => {
                let name = concat3(x.namespace.as_str(), ".", c.name.as_str());
                obj_insert(&mut m, owned("$EntityContainer"), JsonValue::String(name));
            },
            None => {},
        }
        proof {
            assert(e.schemas@.take(i + 1).drop_last() =~= e.schemas@.take(i as int));
        }
        i = i + 1;
    }
    assert(e.schemas@.take(e.schemas@.len() as int) =~= e.schemas@);
    JsonValue::Object(m)
}

impl CsdlDocument {
    /// The document in the CSDL JSON format.
    pub fn to_json_value(&self) -> (r: JsonValue)
        ensures
            r@ == document_json(*self),
    {
        match &self.edmx {
            Some(e) => edmx_to_json(e),
            None => JsonValue::Object(obj_with("$Version", str_json("4.01"))),
        }
    }
}

} // verus!
