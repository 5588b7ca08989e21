//! Reading a CSDL JSON document as the stream of syntax units the XML reader
//! produces, so that one parser builds the model from either format.
//!
//! Schema members are keyed object entries (the key is the name, `$Kind`
//! the element), keyed objects and string arrays stand for sequences of
//! child elements, and annotations are `@Term` / `Target@Term#Qualifier`
//! keys whose value is the expression.

use vstd::prelude::*;

use crate::csdl_xml_reader::{attr_views, unit_view, unit_views, SyntaxUnit, UnitView};
use crate::error::ReadError;
use crate::expr::{
    annotation_view, annotation_views, expr_view, expr_views, lemma_annotation_views_push,
    lemma_expr_views_push, lemma_property_value_views, lemma_property_value_views_push,
    property_value_view, property_value_views, AnnotationView, BinaryOperator,
    CsdlAnnotationExpression, ExprView, PropertyValue, PropertyValueView,
};
use crate::csdl::Annotation;
use crate::json::{
    json_view, json_views, key_pos, lemma_json_views, lemma_key_pos, lemma_member_views,
    member_views, JsonNumber, JsonValue, JsonView, NumberView,
};
use crate::text::{
    concat, decimal, join, join_with, owned, parse_i64, signed_decimal, spec_parse_i64,
    split_once, split_once_char, str_eq, strs, to_decimal, i64_to_decimal,
};

verus! {

pub type Members = Seq<(Seq<char>, JsonView)>;

pub type Attrs = Seq<(Seq<char>, Seq<char>)>;

/// Units, or the message of the error that stops reading.
pub type Units = Result<Seq<UnitView>, Seq<char>>;

/// Reads a CSDL JSON document, held as a [`JsonValue`].
pub struct JsonCsdlReader {
    value: JsonValue,
}

// ---------------------------------------------------------------------------
// Specification: values
// ---------------------------------------------------------------------------

/// `a`, then `b` if `a` did not fail.
pub open spec fn then(a: Units, b: Units) -> Units {
    match a {
        Err(e) => Err(e),
        Ok(x) => match b {
            Err(e) => Err(e),
            Ok(y) => Ok(x + y),
        },
    }
}

pub open spec fn begins(k: Seq<char>, c: char) -> bool {
    k.len() > 0 && k[0] == c
}

/// The value of member `k` (its first occurrence).
pub open spec fn member(m: Members, k: Seq<char>) -> Option<JsonView> {
    match key_pos(m, k) {
        Some(i) => Some(m[i].1),
        None => None,
    }
}

pub open spec fn str_member(m: Members, k: Seq<char>) -> Option<Seq<char>> {
    match member(m, k) {
        Some(JsonView::String(s)) => Some(s),
        _ => None,
    }
}

pub open spec fn bool_member(m: Members, k: Seq<char>) -> Option<bool> {
    match member(m, k) {
        Some(JsonView::Bool(b)) => Some(b),
        _ => None,
    }
}

/// A string member, or empty.
pub open spec fn str_or_empty(m: Members, k: Seq<char>) -> Seq<char> {
    match str_member(m, k) {
        Some(s) => s,
        None => Seq::empty(),
    }
}

/// The text of a number (`Number::to_string`).
pub open spec fn number_text(n: NumberView) -> Seq<char> {
    match n {
        NumberView::PosInt(u) => decimal(u as nat),
        NumberView::NegInt(i) => signed_decimal(i),
        NumberView::Float(t) => t,
    }
}

/// A string member, or the text of a number member.
pub open spec fn text_member(m: Members, k: Seq<char>) -> Option<Seq<char>> {
    match member(m, k) {
        Some(JsonView::String(s)) => Some(s),
        Some(JsonView::Number(n)) => Some(number_text(n)),
        _ => None,
    }
}

/// A string, the text of a number or of a boolean; else empty.
pub open spec fn string_or_default(v: JsonView) -> Seq<char> {
    match v {
        JsonView::String(s) => s,
        JsonView::Number(n) => number_text(n),
        JsonView::Bool(b) => if b {
            "true"@
        } else {
            "false"@
        },
        _ => Seq::empty(),
    }
}

/// `Number::as_i64`.
pub open spec fn as_i64(n: NumberView) -> Option<i64> {
    match n {
        NumberView::PosInt(u) => if u <= i64::MAX {
            Some(u as i64)
        } else {
            None
        },
        NumberView::NegInt(i) => Some(i),
        NumberView::Float(_) => None,
    }
}

/// An annotation key `Target@Term#Qualifier`: target (none when empty),
/// term and qualifier; none without `@`.
pub open spec fn annotation_key_parts(k: Seq<char>) -> Option<(Option<Seq<char>>, Seq<char>, Option<Seq<char>>)> {
    match split_once(k, '@') {
        None => None,
        Some((before, rest)) => Some(
            (
                if before.len() == 0 {
                    None
                } else {
                    Some(before)
                },
                match split_once(rest, '#') {
                    Some((t, _)) => t,
                    None => rest,
                },
                match split_once(rest, '#') {
                    Some((_, q)) => Some(q),
                    None => None,
                },
            ),
        ),
    }
}

pub open spec fn binary_op(k: Seq<char>) -> Option<BinaryOperator> {
    if k == "$And"@ {
        Some(BinaryOperator::And)
    } else if k == "$Or"@ {
        Some(BinaryOperator::Or)
    } else if k == "$Eq"@ {
        Some(BinaryOperator::Eq)
    } else if k == "$Ne"@ {
        Some(BinaryOperator::Ne)
    } else if k == "$Gt"@ {
        Some(BinaryOperator::Gt)
    } else if k == "$Ge"@ {
        Some(BinaryOperator::Ge)
    } else if k == "$Lt"@ {
        Some(BinaryOperator::Lt)
    } else if k == "$Le"@ {
        Some(BinaryOperator::Le)
    } else {
        None
    }
}

/// A `$`-key that names a dynamic expression.
pub open spec fn is_dynamic_key(k: Seq<char>) -> bool {
    begins(k, '$') && k != "$Type"@ && k != "$Function"@ && k != "$Name"@ && k != "$Null"@ && k
        != "$Annotations"@
}

pub open spec fn dyn_pos(m: Members) -> Option<int>
    decreases m.len(),
{
    if m.len() == 0 {
        None
    } else if is_dynamic_key(m[0].0) {
        Some(0)
    } else {
        match dyn_pos(m.drop_first()) {
            Some(i) => Some(i + 1),
            None => None,
        }
    }
}

pub open spec fn number_expr(n: NumberView) -> ExprView {
    match n {
        NumberView::PosInt(u) => if u <= i64::MAX {
            ExprView::Int(u as i64)
        } else {
            ExprView::Float(decimal(u as nat))
        },
        NumberView::NegInt(i) => ExprView::Int(i),
        NumberView::Float(t) => ExprView::Float(t),
    }
}

/// The expression a constant's key holds.
pub open spec fn constant_expr(k: Seq<char>, s: Seq<char>) -> Option<ExprView> {
    if k == "$Path"@ {
        Some(ExprView::Path(s))
    } else if k == "$PropertyPath"@ {
        Some(ExprView::PropertyPath(s))
    } else if k == "$NavigationPropertyPath"@ {
        Some(ExprView::NavigationPropertyPath(s))
    } else if k == "$AnnotationPath"@ {
        Some(ExprView::AnnotationPath(s))
    } else if k == "$LabeledElementReference"@ {
        Some(ExprView::LabeledElementReference(s))
    } else if k == "$Binary"@ {
        Some(ExprView::Binary(vstd::utf8::encode_utf8(s)))
    } else if k == "$Date"@ {
        Some(ExprView::Date(s))
    } else if k == "$DateTimeOffset"@ {
        Some(ExprView::DateTimeOffset(s))
    } else if k == "$Decimal"@ {
        Some(ExprView::Decimal(s))
    } else if k == "$Duration"@ {
        Some(ExprView::Duration(s))
    } else if k == "$EnumMember"@ {
        Some(ExprView::EnumMember(s))
    } else if k == "$Guid"@ {
        Some(ExprView::Guid(s))
    } else if k == "$TimeOfDay"@ {
        Some(ExprView::TimeOfDay(s))
    } else {
        None
    }
}

pub type ExprResult = Result<ExprView, Seq<char>>;

/// The record fields read so far: property values, record annotations,
/// and the annotations addressed to a property value by name.
pub type RecordParts = (Seq<PropertyValueView>, Seq<AnnotationView>, Seq<(Seq<char>, AnnotationView)>);

/// The expression a JSON value holds (CSDL JSON 14.4, 14.5).
pub open spec fn json_expr(j: JsonView) -> ExprResult
    decreases j,
{
    match j {
        JsonView::Null => Ok(ExprView::Null),
        JsonView::Bool(b) => Ok(ExprView::Bool(b)),
        JsonView::Number(n) => Ok(number_expr(n)),
        JsonView::String(s) => Ok(ExprView::String(s)),
        JsonView::Array(items) => match json_exprs(items) {
            Ok(v) => Ok(ExprView::Collection(v)),
            Err(e) => Err(e),
        },
        JsonView::Object(m) => match dyn_pos(m) {
            Some(p) => if 0 <= p < m.len() {
                let key = m[p].0;
                match constant_expr(key, string_or_default(m[p].1)) {
                    Some(x) => Ok(x),
                    None => match binary_op(key) {
                        Some(op) => match m[p].1 {
                            JsonView::Array(a) => if a.len() == 2 {
                                match json_expr(a[0]) {
                                    Err(e) => Err(e),
                                    Ok(l) => match json_expr(a[1]) {
                                        Err(e) => Err(e),
                                        Ok(r) => Ok(
                                            ExprView::BinaryExpression { op, lhs: Box::new(l), rhs: Box::new(r) },
                                        ),
                                    },
                                }
                            } else {
                                Err(key + " expects [lhs, rhs]"@)
                            },
                            _ => Err(key + " expects [lhs, rhs]"@),
                        },
                        None => if key == "$Not"@ {
                            match json_expr(m[p].1) {
                                Ok(x) => Ok(ExprView::Not(Box::new(x))),
                                Err(e) => Err(e),
                            }
                        } else if key == "$If"@ {
                            match m[p].1 {
                                JsonView::Array(a) => if a.len() == 2 || a.len() == 3 {
                                    match json_expr(a[0]) {
                                        Err(e) => Err(e),
                                        Ok(t) => match json_expr(a[1]) {
                                            Err(e) => Err(e),
                                            Ok(th) => if a.len() == 3 {
                                                match json_expr(a[2]) {
                                                    Err(e) => Err(e),
                                                    Ok(el) => Ok(
                                                        ExprView::If {
                                                            test: Box::new(t),
                                                            then_: Box::new(th),
                                                            else_: Some(Box::new(el)),
                                                        },
                                                    ),
                                                }
                                            } else {
                                                Ok(ExprView::If { test: Box::new(t), then_: Box::new(th), else_: None })
                                            },
                                        },
                                    }
                                } else {
                                    Err("$If expects [test, then] or [test, then, else]"@)
                                },
                                _ => Err("$If expects [test, then] or [test, then, else]"@),
                            }
                        } else if key == "$Apply"@ {
                            match m[p].1 {
                                JsonView::Array(a) => match json_exprs(a) {
                                    Ok(args) => Ok(
                                        ExprView::Apply {
                                            function: match str_member(m, "$Function"@) {
                                                Some(f) => f,
                                                None => Seq::empty(),
                                            },
                                            args,
                                        },
                                    ),
                                    Err(e) => Err(e),
                                },
                                _ => Err("$Apply expects an array of arguments"@),
                            }
                        } else if key == "$Cast"@ || key == "$IsOf"@ || key == "$LabeledElement"@ {
                            match json_expr(m[p].1) {
                                Err(e) => Err(e),
                                Ok(x) => if key == "$Cast"@ {
                                    Ok(ExprView::Cast { type_: str_or_empty(m, "$Type"@), expr: Box::new(x) })
                                } else if key == "$IsOf"@ {
                                    Ok(ExprView::IsOf { type_: str_or_empty(m, "$Type"@), expr: Box::new(x) })
                                } else {
                                    Ok(ExprView::LabeledElement { name: str_or_empty(m, "$Name"@), expr: Box::new(x) })
                                },
                            }
                        } else if key == "$UrlRef"@ {
                            match json_expr(m[p].1) {
                                Ok(x) => Ok(ExprView::UrlRef(Box::new(x))),
                                Err(e) => Err(e),
                            }
                        } else {
                            Err("unknown JSON annotation-expression discriminator "@ + key)
                        },
                    },
                }
            } else {
                Err(Seq::empty())
            },
            None => match record_parts(m) {
                Err(e) => Err(e),
                Ok(parts) => {
                    let attached = attach(parts.0, parts.1, parts.2);
                    Ok(
                        ExprView::Record {
                            type_: str_member(m, "$Type"@),
                            properties: attached.0,
                            annotations: attached.1,
                        },
                    )
                },
            },
        },
    }
}

pub open spec fn json_exprs(s: Seq<JsonView>) -> Result<Seq<ExprView>, Seq<char>>
    decreases s,
{
    if s.len() == 0 {
        Ok(Seq::empty())
    } else {
        match json_exprs(s.subrange(0, s.len() - 1)) {
            Err(e) => Err(e),
            Ok(v) => match json_expr(s[s.len() - 1]) {
                Err(e) => Err(e),
                Ok(x) => Ok(v.push(x)),
            },
        }
    }
}

/// The members of a record object in order: `$`-keys skipped, annotation
/// keys read as annotations (kept aside when they name a property value),
/// every other key a property value.
pub open spec fn record_parts(m: Members) -> Result<RecordParts, Seq<char>>
    decreases m,
{
    if m.len() == 0 {
        Ok((Seq::empty(), Seq::empty(), Seq::empty()))
    } else {
        match record_parts(m.subrange(0, m.len() - 1)) {
            Err(e) => Err(e),
            Ok(acc) => {
                let k = m[m.len() - 1].0;
                if begins(k, '$') {
                    Ok(acc)
                } else {
                    match json_expr(m[m.len() - 1].1) {
                        Err(e) => Err(e),
                        Ok(x) => match annotation_key_parts(k) {
                            Some((pv, term, q)) => {
                                let ann = AnnotationView { term, qualifier: q, target: None, expression: Some(x) };
                                match pv {
                                    Some(name) => Ok((acc.0, acc.1, acc.2.push((name, ann)))),
                                    None => Ok((acc.0, acc.1.push(ann), acc.2)),
                                }
                            },
                            None => Ok(
                                (
                                    acc.0.push(PropertyValueView { property: k, value: Some(x), annotations: Seq::empty() }),
                                    acc.1,
                                    acc.2,
                                ),
                            ),
                        },
                    }
                }
            },
        }
    }
}

/// The first property value with the given name.
pub open spec fn pv_pos(props: Seq<PropertyValueView>, name: Seq<char>) -> Option<int>
    decreases props.len(),
{
    if props.len() == 0 {
        None
    } else if props[0].property == name {
        Some(0)
    } else {
        match pv_pos(props.drop_first(), name) {
            Some(i) => Some(i + 1),
            None => None,
        }
    }
}

/// Each property-value annotation goes to the first property value of its
/// name; one whose property value is missing stays on the record, targeted
/// at the name.
pub open spec fn attach(
    props: Seq<PropertyValueView>,
    anns: Seq<AnnotationView>,
    pending: Seq<(Seq<char>, AnnotationView)>,
) -> (Seq<PropertyValueView>, Seq<AnnotationView>)
    decreases pending.len(),
{
    if pending.len() == 0 {
        (props, anns)
    } else {
        let r = attach(props, anns, pending.drop_last());
        let (name, ann) = pending.last();
        match pv_pos(r.0, name) {
            Some(i) => (
                r.0.update(
                    i,
                    PropertyValueView { annotations: r.0[i].annotations.push(ann), ..r.0[i] },
                ),
                r.1,
            ),
            None => (r.0, r.1.push(AnnotationView { target: Some(name), ..ann })),
        }
    }
}

// ---------------------------------------------------------------------------
// Specification: units
// ---------------------------------------------------------------------------

pub open spec fn start(name: Seq<char>, attrs: Attrs) -> UnitView {
    UnitView::Start { name, attributes: attrs }
}

pub open spec fn end(name: Seq<char>) -> UnitView {
    UnitView::End { name }
}

/// `<name attrs/>` as a start and an end unit.
pub open spec fn leaf(name: Seq<char>, attrs: Attrs) -> Seq<UnitView> {
    seq![start(name, attrs), end(name)]
}

/// An element around the units of `body`.
pub open spec fn wrap(name: Seq<char>, attrs: Attrs, body: Units) -> Units {
    then(Ok(seq![start(name, attrs)]), then(body, Ok(seq![end(name)])))
}

pub open spec fn opt_attr(a: Attrs, k: Seq<char>, v: Option<Seq<char>>) -> Attrs {
    match v {
        Some(x) => a.push((k, x)),
        None => a,
    }
}

pub open spec fn bool_text(b: bool) -> Seq<char> {
    if b {
        "true"@
    } else {
        "false"@
    }
}

pub open spec fn bool_attr(a: Attrs, k: Seq<char>, v: Option<bool>) -> Attrs {
    match v {
        Some(b) => a.push((k, bool_text(b))),
        None => a,
    }
}

/// `Type`, then `Collection="true"` for a collection.
pub open spec fn type_attrs(a: Attrs, m: Members) -> Attrs {
    let a1 = opt_attr(a, "Type"@, str_member(m, "$Type"@));
    if bool_member(m, "$Collection"@) == Some(true) {
        a1.push(("Collection"@, "true"@))
    } else {
        a1
    }
}

/// `MaxLength`, `Precision`, `Scale`, `SRID`.
pub open spec fn size_attrs(a: Attrs, m: Members) -> Attrs {
    let a1 = opt_attr(a, "MaxLength"@, text_member(m, "$MaxLength"@));
    let a2 = opt_attr(a1, "Precision"@, text_member(m, "$Precision"@));
    opt_attr(opt_attr(a2, "Scale"@, text_member(m, "$Scale"@)), "SRID"@, text_member(m, "$SRID"@))
}

/// An annotation element holding its expression; nothing for a key
/// without `@`.
pub open spec fn annotation_units(k: Seq<char>, v: JsonView) -> Units {
    match annotation_key_parts(k) {
        None => Ok(Seq::empty()),
        Some((target, term, q)) => {
            let attrs = opt_attr(opt_attr(seq![("Term"@, term)], "Qualifier"@, q), "Target"@, target);
            match json_expr(v) {
                Ok(e) => Ok(seq![start("Annotation"@, attrs), UnitView::Expression(e), end("Annotation"@)]),
                Err(msg) => Err(msg),
            }
        },
    }
}

/// `step` applied to each member in order, the units concatenated; the
/// first error stops.
pub open spec fn fold_units(m: Members, step: spec_fn((Seq<char>, JsonView)) -> Units) -> Units
    decreases m.len(),
{
    if m.len() == 0 {
        Ok(Seq::empty())
    } else {
        then(fold_units(m.drop_last(), step), step(m.last()))
    }
}

/// `step` applied to each item in order, the units concatenated; the
/// first error stops.
pub open spec fn fold_items(a: Seq<JsonView>, step: spec_fn(JsonView) -> Units) -> Units
    decreases a.len(),
{
    if a.len() == 0 {
        Ok(Seq::empty())
    } else {
        then(fold_items(a.drop_last(), step), step(a.last()))
    }
}

/// An error within the first `n` members is the error of the whole fold.
pub proof fn lemma_fold_units_err(m: Members, step: spec_fn((Seq<char>, JsonView)) -> Units, n: nat)
    requires
        n <= m.len(),
        fold_units(m.take(n as int), step) is Err,
    ensures
        fold_units(m, step) == fold_units(m.take(n as int), step),
    decreases m.len() - n,
{
    if n < m.len() {
        assert(m.take((n + 1) as int).drop_last() =~= m.take(n as int));
        lemma_fold_units_err(m, step, n + 1);
    } else {
        assert(m.take(n as int) =~= m);
    }
}

pub proof fn lemma_fold_items_err(a: Seq<JsonView>, step: spec_fn(JsonView) -> Units, n: nat)
    requires
        n <= a.len(),
        fold_items(a.take(n as int), step) is Err,
    ensures
        fold_items(a, step) == fold_items(a.take(n as int), step),
    decreases a.len() - n,
{
    if n < a.len() {
        assert(a.take((n + 1) as int).drop_last() =~= a.take(n as int));
        lemma_fold_items_err(a, step, n + 1);
    } else {
        assert(a.take(n as int) =~= a);
    }
}

/// Annotation keys (`@`, not `$`) become annotations.
pub open spec fn ann_step() -> spec_fn((Seq<char>, JsonView)) -> Units {
    |kv: (Seq<char>, JsonView)|
        if kv.0.contains('@') && !begins(kv.0, '$') {
            annotation_units(kv.0, kv.1)
        } else {
            Ok(Seq::empty())
        }
}

pub open spec fn inline_annotations(m: Members) -> Units {
    fold_units(m, ann_step())
}

/// A plain member name: neither a `$`-key nor an annotation key.
pub open spec fn plain(k: Seq<char>) -> bool {
    !begins(k, '$') && !k.contains('@')
}

pub open spec fn property_units(name: Seq<char>, m: Members) -> Units {
    let a1 = bool_attr(type_attrs(seq![("Name"@, name)], m), "Nullable"@, bool_member(m, "$Nullable"@));
    let a2 = bool_attr(size_attrs(a1, m), "Unicode"@, bool_member(m, "$Unicode"@));
    wrap("Property"@, opt_attr(a2, "DefaultValue"@, str_member(m, "$DefaultValue"@)), inline_annotations(m))
}

/// The plain entries of a referential-constraint map with a string value.
pub open spec fn constraint_step() -> spec_fn((Seq<char>, JsonView)) -> Units {
    |kv: (Seq<char>, JsonView)|
        if kv.0.contains('@') {
            Ok(Seq::empty())
        } else {
            match kv.1 {
                JsonView::String(s) => Ok(
                    leaf("ReferentialConstraint"@, seq![("Property"@, kv.0), ("ReferencedProperty"@, s)]),
                ),
                _ => Ok(Seq::empty()),
            }
        }
}

/// The annotation entries of a referential-constraint map.
pub open spec fn sibling_step() -> spec_fn((Seq<char>, JsonView)) -> Units {
    |kv: (Seq<char>, JsonView)|
        if kv.0.contains('@') {
            annotation_units(kv.0, kv.1)
        } else {
            Ok(Seq::empty())
        }
}

pub open spec fn navigation_units(name: Seq<char>, m: Members) -> Units {
    let a1 = bool_attr(type_attrs(seq![("Name"@, name)], m), "Nullable"@, bool_member(m, "$Nullable"@));
    let a2 = bool_attr(opt_attr(a1, "Partner"@, str_member(m, "$Partner"@)), "ContainsTarget"@, bool_member(m, "$ContainsTarget"@));
    let on_delete = match str_member(m, "$OnDelete"@) {
        Some(a) => leaf("OnDelete"@, seq![("Action"@, a)]),
        None => Seq::empty(),
    };
    let rc = match member(m, "$ReferentialConstraint"@) {
        Some(JsonView::Object(c)) => c,
        _ => Seq::empty(),
    };
    wrap(
        "NavigationProperty"@,
        a2,
        then(Ok(on_delete), then(fold_units(rc, constraint_step()), then(inline_annotations(m), fold_units(rc, sibling_step())))),
    )
}

pub open spec fn type_member_step() -> spec_fn((Seq<char>, JsonView)) -> Units {
    |kv: (Seq<char>, JsonView)|
        if plain(kv.0) {
            match kv.1 {
                JsonView::Object(inner) => if str_member(inner, "$Kind"@) == Some("NavigationProperty"@) {
                    navigation_units(kv.0, inner)
                } else {
                    property_units(kv.0, inner)
                },
                _ => Ok(Seq::empty()),
            }
        } else {
            Ok(Seq::empty())
        }
}

/// Properties and navigation properties first, then the type's annotations.
pub open spec fn type_members(m: Members) -> Units {
    then(fold_units(m, type_member_step()), inline_annotations(m))
}

pub open spec fn property_ref_units(refs: Seq<JsonView>) -> Seq<UnitView>
    decreases refs.len(),
{
    if refs.len() == 0 {
        Seq::empty()
    } else {
        property_ref_units(refs.drop_last()) + match refs.last() {
            JsonView::String(s) => leaf("PropertyRef"@, seq![("Name"@, s)]),
            _ => Seq::empty(),
        }
    }
}

pub open spec fn entity_type_units(name: Seq<char>, m: Members) -> Units {
    let a1 = opt_attr(seq![("Name"@, name)], "BaseType"@, str_member(m, "$BaseType"@));
    let a2 = bool_attr(bool_attr(bool_attr(a1, "Abstract"@, bool_member(m, "$Abstract"@)), "OpenType"@, bool_member(m, "$OpenType"@)), "HasStream"@, bool_member(m, "$HasStream"@));
    let key = match member(m, "$Key"@) {
        Some(JsonView::Array(refs)) => seq![start("Key"@, Seq::empty())] + property_ref_units(refs) + seq![end("Key"@)],
        _ => Seq::empty(),
    };
    wrap("EntityType"@, a2, then(Ok(key), type_members(m)))
}

/// The name and attributes of a start unit.
pub open spec fn start_of(u: UnitView) -> Option<(Seq<char>, Attrs)> {
    match u {
        UnitView::Start { name, attributes } => Some((name, attributes)),
        _ => None,
    }
}

/// The text of a boolean attribute.
pub open spec fn truth_text(b: bool) -> Seq<char> {
    if b {
        "true"@
    } else {
        "false"@
    }
}

/// A boolean member `k` of `m`, where present, is carried by `at` as the
/// attribute `a` with the text `true` or `false`.
pub open spec fn carries_bool(at: Attrs, a: Seq<char>, m: Members, k: Seq<char>) -> bool {
    match bool_member(m, k) {
        Some(b) => at.contains((a, truth_text(b))),
        None => true,
    }
}

/// `u` is an `EntityType` start unit carrying the name, the `$BaseType` and
/// the three booleans of the JSON members `m`.
pub open spec fn entity_start_carries(name: Seq<char>, m: Members, u: UnitView) -> bool {
    match start_of(u) {
        Some(st) => {
            &&& st.0 == "EntityType"@
            &&& st.1.contains(("Name"@, name))
            &&& match str_member(m, "$BaseType"@) {
                Some(t) => st.1.contains(("BaseType"@, t)),
                None => true,
            }
            &&& carries_bool(st.1, "Abstract"@, m, "$Abstract"@)
            &&& carries_bool(st.1, "OpenType"@, m, "$OpenType"@)
            &&& carries_bool(st.1, "HasStream"@, m, "$HasStream"@)
        },
        None => false,
    }
}

/// An entity type read from CSDL JSON starts with an `EntityType` start
/// unit that carries its name, its `$BaseType` as `BaseType`, and its
/// `$Abstract`, `$OpenType` and `$HasStream` booleans as the attributes
/// `Abstract`, `OpenType` and `HasStream` with the text `true` or `false`,
/// as its XML twin does.
pub proof fn lemma_entity_type_attributes(name: Seq<char>, m: Members)
    ensures
        entity_type_units(name, m) matches Ok(u) ==> (u.len() > 0 && entity_start_carries(name, m, u[0])),
{
    let a0 = seq![("Name"@, name)];
    let a1 = opt_attr(a0, "BaseType"@, str_member(m, "$BaseType"@));
    let b1 = bool_attr(a1, "Abstract"@, bool_member(m, "$Abstract"@));
    let b2 = bool_attr(b1, "OpenType"@, bool_member(m, "$OpenType"@));
    let b3 = bool_attr(b2, "HasStream"@, bool_member(m, "$HasStream"@));
    assert forall|x: (Seq<char>, Seq<char>)| a1.contains(x) implies b3.contains(x) by {
        let k = choose|k: int| 0 <= k < a1.len() && a1[k] == x;
        assert(b3[k] == x);
    }
    assert forall|x: (Seq<char>, Seq<char>)| b1.contains(x) implies b3.contains(x) by {
        let k = choose|k: int| 0 <= k < b1.len() && b1[k] == x;
        assert(b3[k] == x);
    }
    assert forall|x: (Seq<char>, Seq<char>)| b2.contains(x) implies b3.contains(x) by {
        let k = choose|k: int| 0 <= k < b2.len() && b2[k] == x;
        assert(b3[k] == x);
    }
    assert(a1[0] == ("Name"@, name));
    if let Some(t) = str_member(m, "$BaseType"@) {
        assert(a1[1] == ("BaseType"@, t));
    }
    if let Some(b) = bool_member(m, "$Abstract"@) {
        assert(b1[a1.len() as int] == ("Abstract"@, truth_text(b)));
    }
    if let Some(b) = bool_member(m, "$OpenType"@) {
        assert(b2[b1.len() as int] == ("OpenType"@, truth_text(b)));
    }
    if let Some(b) = bool_member(m, "$HasStream"@) {
        assert(b3[b2.len() as int] == ("HasStream"@, truth_text(b)));
    }
}

/// A string member `k` of `m`, where present, is carried by `at` as the
/// attribute `a` with that text.
pub open spec fn carries_str(at: Attrs, a: Seq<char>, m: Members, k: Seq<char>) -> bool {
    match str_member(m, k) {
        Some(t) => at.contains((a, t)),
        None => true,
    }
}

proof fn lemma_prefix_contains(a: Attrs, b: Attrs)
    requires
        a.is_prefix_of(b),
    ensures
        forall|x: (Seq<char>, Seq<char>)| a.contains(x) ==> b.contains(x),
{
    assert forall|x: (Seq<char>, Seq<char>)| a.contains(x) implies b.contains(x) by {
        let k = choose|k: int| 0 <= k < a.len() && a[k] == x;
        assert(b[k] == x);
    }
}

proof fn lemma_attr_grows(a: Attrs, k: Seq<char>, v: Option<Seq<char>>, c: Seq<char>, w: Option<bool>)
    ensures
        a.is_prefix_of(opt_attr(a, k, v)),
        a.is_prefix_of(bool_attr(a, c, w)),
        v matches Some(x) ==> opt_attr(a, k, v).contains((k, x)),
        w matches Some(b) ==> bool_attr(a, c, w).contains((c, truth_text(b))),
{
    if let Some(x) = v {
        assert(opt_attr(a, k, v)[a.len() as int] == (k, x));
    }
    if let Some(b) = w {
        assert(bool_attr(a, c, w)[a.len() as int] == (c, truth_text(b)));
    }
}

proof fn lemma_prefix_trans(a: Attrs, b: Attrs, c: Attrs)
    requires
        a.is_prefix_of(b),
        b.is_prefix_of(c),
    ensures
        a.is_prefix_of(c),
{
    assert forall|i: int| 0 <= i < a.len() implies a[i] == c[i] by {
        assert(b[i] == c[i]);
    }
}

/// `u` is a start unit named `element`, carrying the name, and the string
/// and boolean members of `m` listed (JSON key, attribute) as attributes.
pub open spec fn start_carries(
    element: Seq<char>,
    name: Seq<char>,
    m: Members,
    strings: Seq<(Seq<char>, Seq<char>)>,
    bools: Seq<(Seq<char>, Seq<char>)>,
    u: UnitView,
) -> bool {
    match start_of(u) {
        Some(st) => {
            &&& st.0 == element
            &&& st.1.contains(("Name"@, name))
            &&& forall|i: int| 0 <= i < strings.len() ==> carries_str(st.1, #[trigger] strings[i].1, m, strings[i].0)
            &&& forall|i: int| 0 <= i < bools.len() ==> carries_bool(st.1, #[trigger] bools[i].1, m, bools[i].0)
        },
        None => false,
    }
}

/// A complex type read from CSDL JSON starts with a `ComplexType` start
/// unit carrying its name, its `$BaseType` as `BaseType`, and its
/// `$Abstract` and `$OpenType` booleans as `Abstract` and `OpenType`.
pub proof fn lemma_complex_type_attributes(name: Seq<char>, m: Members)
    ensures
        complex_type_units(name, m) matches Ok(u) ==> (u.len() > 0 && start_carries(
            "ComplexType"@,
            name,
            m,
            seq![("$BaseType"@, "BaseType"@)],
            seq![("$Abstract"@, "Abstract"@), ("$OpenType"@, "OpenType"@)],
            u[0],
        )),
{
    let a0 = seq![("Name"@, name)];
    let a1 = opt_attr(a0, "BaseType"@, str_member(m, "$BaseType"@));
    let b1 = bool_attr(a1, "Abstract"@, bool_member(m, "$Abstract"@));
    let b2 = bool_attr(b1, "OpenType"@, bool_member(m, "$OpenType"@));
    lemma_attr_grows(a0, "BaseType"@, str_member(m, "$BaseType"@), "Abstract"@, None);
    lemma_attr_grows(a1, "BaseType"@, None, "Abstract"@, bool_member(m, "$Abstract"@));
    lemma_attr_grows(b1, "BaseType"@, None, "OpenType"@, bool_member(m, "$OpenType"@));
    lemma_prefix_trans(a0, a1, b1);
    lemma_prefix_trans(a0, b1, b2);
    lemma_prefix_trans(a1, b1, b2);
    lemma_prefix_contains(a0, b2);
    lemma_prefix_contains(a1, b2);
    lemma_prefix_contains(b1, b2);
    assert(a0[0] == ("Name"@, name));
}

/// A structural property read from CSDL JSON starts with a `Property` start
/// unit carrying its name, its `$Type` as `Type`, its `$DefaultValue` as
/// `DefaultValue`, and its `$Nullable` and `$Unicode` booleans as
/// `Nullable` and `Unicode`.
pub proof fn lemma_property_attributes(name: Seq<char>, m: Members)
    ensures
        property_units(name, m) matches Ok(u) ==> (u.len() > 0 && start_carries(
            "Property"@,
            name,
            m,
            seq![("$Type"@, "Type"@), ("$DefaultValue"@, "DefaultValue"@)],
            seq![("$Nullable"@, "Nullable"@), ("$Unicode"@, "Unicode"@)],
            u[0],
        )),
{
    let a0 = seq![("Name"@, name)];
    let t1 = opt_attr(a0, "Type"@, str_member(m, "$Type"@));
    let t = type_attrs(a0, m);
    let a1 = bool_attr(t, "Nullable"@, bool_member(m, "$Nullable"@));
    let z = size_attrs(a1, m);
    let a2 = bool_attr(z, "Unicode"@, bool_member(m, "$Unicode"@));
    let a3 = opt_attr(a2, "DefaultValue"@, str_member(m, "$DefaultValue"@));
    lemma_attr_grows(a0, "Type"@, str_member(m, "$Type"@), "Nullable"@, None);
    assert(t1.is_prefix_of(t));
    lemma_attr_grows(t, "Type"@, None, "Nullable"@, bool_member(m, "$Nullable"@));
    let z1 = opt_attr(a1, "MaxLength"@, text_member(m, "$MaxLength"@));
    let z2 = opt_attr(z1, "Precision"@, text_member(m, "$Precision"@));
    let z3 = opt_attr(z2, "Scale"@, text_member(m, "$Scale"@));
    lemma_attr_grows(a1, "MaxLength"@, text_member(m, "$MaxLength"@), "Nullable"@, None);
    lemma_attr_grows(z1, "Precision"@, text_member(m, "$Precision"@), "Nullable"@, None);
    lemma_attr_grows(z2, "Scale"@, text_member(m, "$Scale"@), "Nullable"@, None);
    lemma_attr_grows(z3, "SRID"@, text_member(m, "$SRID"@), "Nullable"@, None);
    lemma_prefix_trans(a1, z1, z2);
    lemma_prefix_trans(a1, z2, z3);
    lemma_prefix_trans(a1, z3, z);
    lemma_attr_grows(z, "Type"@, None, "Unicode"@, bool_member(m, "$Unicode"@));
    lemma_attr_grows(a2, "DefaultValue"@, str_member(m, "$DefaultValue"@), "Unicode"@, None);
    lemma_prefix_trans(a1, z, a2);
    lemma_prefix_trans(a1, a2, a3);
    lemma_prefix_trans(t, a1, a3);
    lemma_prefix_trans(t1, t, a3);
    lemma_prefix_trans(a0, t1, a3);
    lemma_prefix_contains(a0, a3);
    lemma_prefix_contains(t1, a3);
    lemma_prefix_contains(a1, a3);
    lemma_prefix_contains(a2, a3);
    assert(a0[0] == ("Name"@, name));
}

/// A navigation property read from CSDL JSON starts with a
/// `NavigationProperty` start unit carrying its name, its `$Type` as
/// `Type`, its `$Partner` as `Partner`, and its `$Nullable` and
/// `$ContainsTarget` booleans as `Nullable` and `ContainsTarget`.
pub proof fn lemma_navigation_attributes(name: Seq<char>, m: Members)
    ensures
        navigation_units(name, m) matches Ok(u) ==> (u.len() > 0 && start_carries(
            "NavigationProperty"@,
            name,
            m,
            seq![("$Type"@, "Type"@), ("$Partner"@, "Partner"@)],
            seq![("$Nullable"@, "Nullable"@), ("$ContainsTarget"@, "ContainsTarget"@)],
            u[0],
        )),
{
    let a0 = seq![("Name"@, name)];
    let t1 = opt_attr(a0, "Type"@, str_member(m, "$Type"@));
    let t = type_attrs(a0, m);
    let a1 = bool_attr(t, "Nullable"@, bool_member(m, "$Nullable"@));
    let p = opt_attr(a1, "Partner"@, str_member(m, "$Partner"@));
    let a2 = bool_attr(p, "ContainsTarget"@, bool_member(m, "$ContainsTarget"@));
    lemma_attr_grows(a0, "Type"@, str_member(m, "$Type"@), "Nullable"@, None);
    assert(t1.is_prefix_of(t));
    lemma_attr_grows(t, "Type"@, None, "Nullable"@, bool_member(m, "$Nullable"@));
    lemma_attr_grows(a1, "Partner"@, str_member(m, "$Partner"@), "Nullable"@, None);
    lemma_attr_grows(p, "Partner"@, None, "ContainsTarget"@, bool_member(m, "$ContainsTarget"@));
    lemma_prefix_trans(a1, p, a2);
    lemma_prefix_trans(t, a1, a2);
    lemma_prefix_trans(t1, t, a2);
    lemma_prefix_trans(a0, t1, a2);
    lemma_prefix_contains(a0, a2);
    lemma_prefix_contains(t1, a2);
    lemma_prefix_contains(a1, a2);
    lemma_prefix_contains(p, a2);
    assert(a0[0] == ("Name"@, name));
}

/// An enum type read from CSDL JSON starts with an `EnumType` start unit
/// carrying its name, its `$UnderlyingType` as `UnderlyingType`, and its
/// `$IsFlags` boolean as `IsFlags`.
pub proof fn lemma_enum_type_attributes(name: Seq<char>, m: Members)
    ensures
        enum_type_units(name, m) matches Ok(u) ==> (u.len() > 0 && start_carries(
            "EnumType"@,
            name,
            m,
            seq![("$UnderlyingType"@, "UnderlyingType"@)],
            seq![("$IsFlags"@, "IsFlags"@)],
            u[0],
        )),
{
    let a0 = seq![("Name"@, name)];
    let a1 = opt_attr(a0, "UnderlyingType"@, str_member(m, "$UnderlyingType"@));
    let a2 = bool_attr(a1, "IsFlags"@, bool_member(m, "$IsFlags"@));
    lemma_attr_grows(a0, "UnderlyingType"@, str_member(m, "$UnderlyingType"@), "IsFlags"@, None);
    lemma_attr_grows(a1, "UnderlyingType"@, None, "IsFlags"@, bool_member(m, "$IsFlags"@));
    lemma_prefix_trans(a0, a1, a2);
    lemma_prefix_contains(a0, a2);
    lemma_prefix_contains(a1, a2);
    assert(a0[0] == ("Name"@, name));
}

/// A function or action overload read from CSDL JSON starts with a start
/// unit of its element kind carrying its name, its `$EntitySetPath` as
/// `EntitySetPath`, its `$IsBound` boolean as `IsBound`, and, for a
/// function, its `$IsComposable` boolean as `IsComposable`.
pub proof fn lemma_callable_attributes(element: Seq<char>, name: Seq<char>, m: Members)
    ensures
        callable_units(element, name, m) matches Ok(u) ==> (u.len() > 0 && start_carries(
            element,
            name,
            m,
            seq![("$EntitySetPath"@, "EntitySetPath"@)],
            seq![("$IsBound"@, "IsBound"@)],
            u[0],
        ) && (element == "Function"@ ==> start_carries(
            element,
            name,
            m,
            Seq::empty(),
            seq![("$IsComposable"@, "IsComposable"@)],
            u[0],
        ))),
{
    let a0 = seq![("Name"@, name)];
    let b = bool_attr(a0, "IsBound"@, bool_member(m, "$IsBound"@));
    let a1 = opt_attr(b, "EntitySetPath"@, str_member(m, "$EntitySetPath"@));
    let a2 = bool_attr(a1, "IsComposable"@, bool_member(m, "$IsComposable"@));
    lemma_attr_grows(a0, "EntitySetPath"@, None, "IsBound"@, bool_member(m, "$IsBound"@));
    lemma_attr_grows(b, "EntitySetPath"@, str_member(m, "$EntitySetPath"@), "IsBound"@, None);
    lemma_attr_grows(a1, "EntitySetPath"@, None, "IsComposable"@, bool_member(m, "$IsComposable"@));
    lemma_prefix_trans(a0, b, a1);
    lemma_prefix_trans(a0, a1, a2);
    lemma_prefix_trans(b, a1, a2);
    lemma_prefix_contains(a0, a1);
    lemma_prefix_contains(b, a1);
    lemma_prefix_contains(a0, a2);
    lemma_prefix_contains(b, a2);
    lemma_prefix_contains(a1, a2);
    assert(a0[0] == ("Name"@, name));
}

/// An entity container read from CSDL JSON starts with an
/// `EntityContainer` start unit carrying its name and its `$Extends` as
/// `Extends`.
pub proof fn lemma_container_attributes(name: Seq<char>, m: Members)
    ensures
        container_units(name, m) matches Ok(u) ==> (u.len() > 0 && start_carries(
            "EntityContainer"@,
            name,
            m,
            seq![("$Extends"@, "Extends"@)],
            Seq::empty(),
            u[0],
        )),
{
    let a0 = seq![("Name"@, name)];
    let a1 = opt_attr(a0, "Extends"@, str_member(m, "$Extends"@));
    lemma_attr_grows(a0, "Extends"@, str_member(m, "$Extends"@), "IsBound"@, None);
    lemma_prefix_contains(a0, a1);
    assert(a0[0] == ("Name"@, name));
}

pub open spec fn complex_type_units(name: Seq<char>, m: Members) -> Units {
    let a1 = opt_attr(seq![("Name"@, name)], "BaseType"@, str_member(m, "$BaseType"@));
    let a2 = bool_attr(bool_attr(a1, "Abstract"@, bool_member(m, "$Abstract"@)), "OpenType"@, bool_member(m, "$OpenType"@));
    wrap("ComplexType"@, a2, type_members(m))
}

/// An enum member's value: a number that is an `i64`, or a string that
/// spells one.
pub open spec fn member_value(v: JsonView) -> Option<i64> {
    match v {
        JsonView::Number(n) => as_i64(n),
        JsonView::String(s) => spec_parse_i64(s),
        _ => None,
    }
}

pub open spec fn enum_member_step() -> spec_fn((Seq<char>, JsonView)) -> Units {
    |kv: (Seq<char>, JsonView)|
        if plain(kv.0) {
            Ok(
                leaf(
                    "Member"@,
                    match member_value(kv.1) {
                        Some(v) => seq![("Name"@, kv.0), ("Value"@, signed_decimal(v))],
                        None => seq![("Name"@, kv.0)],
                    },
                ),
            )
        } else {
            Ok(Seq::empty())
        }
}

pub open spec fn enum_type_units(name: Seq<char>, m: Members) -> Units {
    let a = bool_attr(opt_attr(seq![("Name"@, name)], "UnderlyingType"@, str_member(m, "$UnderlyingType"@)), "IsFlags"@, bool_member(m, "$IsFlags"@));
    wrap("EnumType"@, a, then(fold_units(m, enum_member_step()), inline_annotations(m)))
}

pub open spec fn type_definition_units(name: Seq<char>, m: Members) -> Units {
    let u = match str_member(m, "$UnderlyingType"@) {
        Some(t) => t,
        None => Seq::empty(),
    };
    let a = bool_attr(size_attrs(seq![("Name"@, name), ("UnderlyingType"@, u)], m), "Unicode"@, bool_member(m, "$Unicode"@));
    wrap("TypeDefinition"@, a, inline_annotations(m))
}

/// The strings of an array, in order.
pub open spec fn string_items(a: Seq<JsonView>) -> Seq<Seq<char>>
    decreases a.len(),
{
    if a.len() == 0 {
        Seq::empty()
    } else {
        match a.last() {
            JsonView::String(s) => string_items(a.drop_last()).push(s),
            _ => string_items(a.drop_last()),
        }
    }
}

pub open spec fn term_units(name: Seq<char>, m: Members) -> Units {
    let a1 = opt_attr(opt_attr(type_attrs(seq![("Name"@, name)], m), "BaseTerm"@, str_member(m, "$BaseTerm"@)), "DefaultValue"@, str_member(m, "$DefaultValue"@));
    let a2 = bool_attr(size_attrs(bool_attr(a1, "Nullable"@, bool_member(m, "$Nullable"@)), m), "Unicode"@, bool_member(m, "$Unicode"@));
    let a3 = match member(m, "$AppliesTo"@) {
        Some(JsonView::Array(arr)) => if join(string_items(arr), " "@).len() > 0 {
            a2.push(("AppliesTo"@, join(string_items(arr), " "@)))
        } else {
            a2
        },
        _ => a2,
    };
    wrap("Term"@, a3, inline_annotations(m))
}

pub open spec fn parameter_units(pm: Members) -> Units {
    let pname = match str_member(pm, "$Name"@) {
        Some(n) => n,
        None => Seq::empty(),
    };
    let a1 = bool_attr(type_attrs(seq![("Name"@, pname)], pm), "Nullable"@, bool_member(pm, "$Nullable"@));
    let a2 = bool_attr(size_attrs(a1, pm), "Unicode"@, bool_member(pm, "$Unicode"@));
    wrap("Parameter"@, opt_attr(a2, "DefaultValue"@, str_member(pm, "$DefaultValue"@)), inline_annotations(pm))
}

pub open spec fn parameter_item() -> spec_fn(JsonView) -> Units {
    |v: JsonView|
        match v {
            JsonView::Object(pm) => parameter_units(pm),
            _ => Err("expected object at $Parameter[i]"@),
        }
}

pub open spec fn return_type_units(rt: Members) -> Units {
    let a1 = bool_attr(type_attrs(Seq::empty(), rt), "Nullable"@, bool_member(rt, "$Nullable"@));
    wrap("ReturnType"@, bool_attr(size_attrs(a1, rt), "Unicode"@, bool_member(rt, "$Unicode"@)), inline_annotations(rt))
}

/// A `Function` or `Action` overload.
pub open spec fn callable_units(element: Seq<char>, name: Seq<char>, m: Members) -> Units {
    let a1 = opt_attr(bool_attr(seq![("Name"@, name)], "IsBound"@, bool_member(m, "$IsBound"@)), "EntitySetPath"@, str_member(m, "$EntitySetPath"@));
    let a2 = if element == "Function"@ {
        bool_attr(a1, "IsComposable"@, bool_member(m, "$IsComposable"@))
    } else {
        a1
    };
    let params = match member(m, "$Parameter"@) {
        Some(JsonView::Array(arr)) => fold_items(arr, parameter_item()),
        _ => Ok(Seq::empty()),
    };
    let rt = match member(m, "$ReturnType"@) {
        Some(JsonView::Object(r)) => return_type_units(r),
        _ => Ok(Seq::empty()),
    };
    wrap(element, a2, then(params, rt))
}

pub open spec fn binding_step() -> spec_fn((Seq<char>, JsonView)) -> Units {
    |kv: (Seq<char>, JsonView)|
        match kv.1 {
            JsonView::String(s) => Ok(leaf("NavigationPropertyBinding"@, seq![("Path"@, kv.0), ("Target"@, s)])),
            _ => Ok(Seq::empty()),
        }
}

/// An entity set (a `$Collection`), singleton, function import (a
/// `$Function`) or action import (an `$Action`).
pub open spec fn container_child_units(name: Seq<char>, m: Members) -> Units {
    let es = str_member(m, "$EntitySet"@);
    let isd = bool_member(m, "$IncludeInServiceDocument"@);
    match str_member(m, "$Function"@) {
        Some(f) => Ok(leaf("FunctionImport"@, bool_attr(opt_attr(seq![("Name"@, name), ("Function"@, f)], "EntitySet"@, es), "IncludeInServiceDocument"@, isd))),
        None => match str_member(m, "$Action"@) {
            Some(a) => Ok(leaf("ActionImport"@, bool_attr(opt_attr(seq![("Name"@, name), ("Action"@, a)], "EntitySet"@, es), "IncludeInServiceDocument"@, isd))),
            None => {
                let set = bool_member(m, "$Collection"@) == Some(true);
                let kind = if set {
                    "EntitySet"@
                } else {
                    "Singleton"@
                };
                let tkey = if set {
                    "EntityType"@
                } else {
                    "Type"@
                };
                let attrs = bool_attr(opt_attr(seq![("Name"@, name)], tkey, str_member(m, "$Type"@)), "IncludeInServiceDocument"@, isd);
                let bindings = match member(m, "$NavigationPropertyBinding"@) {
                    Some(JsonView::Object(b)) => fold_units(b, binding_step()),
                    _ => Ok(Seq::empty()),
                };
                wrap(kind, attrs, then(bindings, inline_annotations(m)))
            },
        },
    }
}

pub open spec fn container_child_step() -> spec_fn((Seq<char>, JsonView)) -> Units {
    |kv: (Seq<char>, JsonView)|
        if plain(kv.0) {
            match kv.1 {
                JsonView::Object(inner) => container_child_units(kv.0, inner),
                _ => Ok(Seq::empty()),
            }
        } else {
            Ok(Seq::empty())
        }
}

pub open spec fn container_units(name: Seq<char>, m: Members) -> Units {
    let a = opt_attr(seq![("Name"@, name)], "Extends"@, str_member(m, "$Extends"@));
    wrap("EntityContainer"@, a, then(fold_units(m, container_child_step()), inline_annotations(m)))
}

/// A schema member by its `$Kind`; without one, an entity type; of an
/// unknown kind, nothing.
pub open spec fn schema_member_units(name: Seq<char>, m: Members) -> Units {
    match str_member(m, "$Kind"@) {
        None => entity_type_units(name, m),
        Some(k) => if k == "EntityType"@ {
            entity_type_units(name, m)
        } else if k == "ComplexType"@ {
            complex_type_units(name, m)
        } else if k == "EnumType"@ {
            enum_type_units(name, m)
        } else if k == "TypeDefinition"@ {
            type_definition_units(name, m)
        } else if k == "Term"@ {
            term_units(name, m)
        } else if k == "EntityContainer"@ {
            container_units(name, m)
        } else if k == "Function"@ {
            callable_units("Function"@, name, m)
        } else if k == "Action"@ {
            callable_units("Action"@, name, m)
        } else {
            Ok(Seq::empty())
        },
    }
}

/// An overload of a function or action: an object.
pub open spec fn overload_item(name: Seq<char>) -> spec_fn(JsonView) -> Units {
    |v: JsonView|
        match v {
            JsonView::Object(om) => schema_member_units(name, om),
            _ => Err("expected object at "@ + name),
        }
}

pub open spec fn schema_member_step() -> spec_fn((Seq<char>, JsonView)) -> Units {
    |kv: (Seq<char>, JsonView)|
        if plain(kv.0) {
            match kv.1 {
                JsonView::Array(os) => fold_items(os, overload_item(kv.0)),
                JsonView::Object(inner) => schema_member_units(kv.0, inner),
                _ => Ok(Seq::empty()),
            }
        } else {
            Ok(Seq::empty())
        }
}

/// Annotation keys of a schema (`@`, not `$`).
pub open spec fn schema_ann_step() -> spec_fn((Seq<char>, JsonView)) -> Units {
    |kv: (Seq<char>, JsonView)|
        if !begins(kv.0, '$') && kv.0.contains('@') {
            annotation_units(kv.0, kv.1)
        } else {
            Ok(Seq::empty())
        }
}

pub open spec fn schema_units(ns: Seq<char>, m: Members) -> Units {
    let a = opt_attr(seq![("Namespace"@, ns)], "Alias"@, str_member(m, "$Alias"@));
    wrap("Schema"@, a, then(fold_units(m, schema_member_step()), fold_units(m, schema_ann_step())))
}

pub open spec fn include_ann_step() -> spec_fn((Seq<char>, JsonView)) -> Units {
    |kv: (Seq<char>, JsonView)|
        if begins(kv.0, '@') {
            annotation_units(kv.0, kv.1)
        } else {
            Ok(Seq::empty())
        }
}

pub open spec fn include_units(im: Members) -> Units {
    let ns = match str_member(im, "$Namespace"@) {
        Some(n) => n,
        None => Seq::empty(),
    };
    wrap("Include"@, opt_attr(seq![("Namespace"@, ns)], "Alias"@, str_member(im, "$Alias"@)), fold_units(im, include_ann_step()))
}

pub open spec fn include_item() -> spec_fn(JsonView) -> Units {
    |v: JsonView|
        match v {
            JsonView::Object(im) => include_units(im),
            _ => Err("expected object at $Include[i]"@),
        }
}

pub open spec fn include_annotations_leaf(o: Members) -> Seq<UnitView> {
    let tn = match str_member(o, "$TermNamespace"@) {
        Some(t) => t,
        None => Seq::empty(),
    };
    leaf(
        "IncludeAnnotations"@,
        opt_attr(
            opt_attr(seq![("TermNamespace"@, tn)], "Qualifier"@, str_member(o, "$Qualifier"@)),
            "TargetNamespace"@,
            str_member(o, "$TargetNamespace"@),
        ),
    )
}

pub open spec fn include_annotations_item() -> spec_fn(JsonView) -> Units {
    |v: JsonView|
        match v {
            JsonView::Object(o) => Ok(include_annotations_leaf(o)),
            _ => Err("expected object at $IncludeAnnotations[i]"@),
        }
}

pub open spec fn reference_body_step() -> spec_fn((Seq<char>, JsonView)) -> Units {
    |kv: (Seq<char>, JsonView)|
        if kv.0 == "$Include"@ {
            match kv.1 {
                JsonView::Array(a) => fold_items(a, include_item()),
                _ => Err("$Include must be an array"@),
            }
        } else if kv.0 == "$IncludeAnnotations"@ {
            match kv.1 {
                JsonView::Array(a) => fold_items(a, include_annotations_item()),
                _ => Err("$IncludeAnnotations must be an array"@),
            }
        } else if begins(kv.0, '@') {
            annotation_units(kv.0, kv.1)
        } else {
            Ok(Seq::empty())
        }
}

pub open spec fn reference_step() -> spec_fn((Seq<char>, JsonView)) -> Units {
    |kv: (Seq<char>, JsonView)|
        match kv.1 {
            JsonView::Object(body) => wrap("Reference"@, seq![("Uri"@, kv.0)], fold_units(body, reference_body_step())),
            _ => Err("expected object at "@ + kv.0),
        }
}

pub open spec fn schema_step() -> spec_fn((Seq<char>, JsonView)) -> Units {
    |kv: (Seq<char>, JsonView)|
        if begins(kv.0, '$') || begins(kv.0, '@') {
            Ok(Seq::empty())
        } else {
            match kv.1 {
                JsonView::Object(sm) => schema_units(kv.0, sm),
                _ => Err("expected object at "@ + kv.0),
            }
        }
}

/// The units of a document root: `Edmx` with its `Version` (4.01 when not
/// given), the references, then the schemas.
pub open spec fn edmx_units(root: Members) -> Units {
    let version = match str_member(root, "$Version"@) {
        Some(v) => v,
        None => "4.01"@,
    };
    let refs = match member(root, "$Reference"@) {
        Some(JsonView::Object(r)) => fold_units(r, reference_step()),
        Some(_) => Err("expected object at $Reference"@),
        None => Ok(Seq::empty()),
    };
    wrap("Edmx"@, seq![("Version"@, version)], then(refs, fold_units(root, schema_step())))
}

/// The units of a CSDL JSON document.
pub open spec fn document_units(v: JsonView) -> Units {
    match v {
        JsonView::Object(root) => edmx_units(root),
        _ => Err("expected object at document root"@),
    }
}

// ---------------------------------------------------------------------------
// Reading values
// ---------------------------------------------------------------------------

/// `r` is what `u` says: the units appended on success, the message of a
/// CSDL error on failure.
pub open spec fn emitted(r: Result<(), ReadError>, u: Units, before: Seq<UnitView>, after: Seq<UnitView>) -> bool {
    match r {
        Ok(_) => u matches Ok(x) && after == before + x,
        Err(e) => e matches ReadError::Csdl(msg) && u == Err::<Seq<UnitView>, Seq<char>>(msg@),
    }
}

/// `r` is the expression `x` says, or the error it names.
pub open spec fn read_as(r: Result<CsdlAnnotationExpression, ReadError>, x: ExprResult) -> bool {
    match r {
        Ok(e) => x == Ok::<ExprView, Seq<char>>(expr_view(e)),
        Err(e) => e matches ReadError::Csdl(msg) && x == Err::<ExprView, Seq<char>>(msg@),
    }
}

fn csdl_error(msg: String) -> (e: ReadError)
    ensures
        e matches ReadError::Csdl(m) && m@ == msg@,
{
    ReadError::Csdl(msg)
}

fn begins_with(k: &str, c: char) -> (r: bool)
    ensures
        r == begins(k@, c),
{
    let cs = crate::text::chars_of(k);
    cs.len() > 0 && cs[0] == c
}

fn has_char(k: &str, c: char) -> (r: bool)
    ensures
        r == k@.contains(c),
{
    let cs = crate::text::chars_of(k);
    let mut i: usize = 0;
    while i < cs.len()
        invariant
            i <= cs@.len(),
            cs@ == k@,
            forall|j: int| 0 <= j < i ==> cs@[j] != c,
        decreases cs.len() - i,
    {
        if cs[i] == c {
            assert(k@[i as int] == c);
            return true;
        }
        i = i + 1;
    }
    false
}

/// The value of member `k`.
fn find<'a>(m: &'a Vec<(String, JsonValue)>, k: &str) -> (r: Option<&'a JsonValue>)
    ensures
        match member(member_views(m@), k@) {
            Some(v) => r matches Some(x) && json_view(*x) == v,
            None => r is None,
        },
{
    let ghost mv = member_views(m@);
    proof {
        lemma_member_views(m@);
        lemma_key_pos(mv, k@);
    }
    let mut i: usize = 0;
    while i < m.len()
        invariant
            i <= m@.len(),
            mv == member_views(m@),
            mv.len() == m@.len(),
            forall|j: int| 0 <= j < m@.len() ==> #[trigger] mv[j] == (m@[j].0@, json_view(m@[j].1)),
            forall|j: int| 0 <= j < i ==> mv[j].0 != k@,
        decreases m.len() - i,
    {
        if str_eq(m[i].0.as_str(), k) {
            proof {
                lemma_key_pos(mv, k@);
                assert(mv[i as int].0 == k@);
                match key_pos(mv, k@) {
                    Some(p) => {
                        if p < i {
                            assert(mv[p].0 != k@);
                        } else if p > i {
                            assert(mv[i as int].0 != k@);
                        }
                    },
                    None => {
                        assert(mv[i as int].0 != k@);
                    },
                }
            }
            return Some(&m[i].1);
        }
        i = i + 1;
    }
    proof {
        lemma_key_pos(mv, k@);
    }
    None
}

fn str_member_of(m: &Vec<(String, JsonValue)>, k: &str) -> (r: Option<String>)
    ensures
        crate::expr::opt_chars(r) == str_member(member_views(m@), k@),
{
    match find(m, k) {
        Some(JsonValue::String(s)) => Some(owned(s.as_str())),
        _ => None,
    }
}

fn str_or_empty_of(m: &Vec<(String, JsonValue)>, k: &str) -> (r: String)
    ensures
        r@ == str_or_empty(member_views(m@), k@),
{
    match str_member_of(m, k) {
        Some(s) => s,
        None => String::new(),
    }
}

fn bool_member_of(m: &Vec<(String, JsonValue)>, k: &str) -> (r: Option<bool>)
    ensures
        r == bool_member(member_views(m@), k@),
{
    match find(m, k) {
        Some(JsonValue::Bool(b)) => Some(*b),
        _ => None,
    }
}

fn number_text_of(n: &JsonNumber) -> (r: String)
    ensures
        r@ == number_text(crate::json::number_view(*n)),
{
    match n {
        JsonNumber::PosInt(u) => to_decimal(*u as u128),
        JsonNumber::NegInt(i) => i64_to_decimal(*i),
        JsonNumber::Float(t) => owned(t.as_str()),
    }
}

fn text_member_of(m: &Vec<(String, JsonValue)>, k: &str) -> (r: Option<String>)
    ensures
        crate::expr::opt_chars(r) == text_member(member_views(m@), k@),
{
    match find(m, k) {
        Some(JsonValue::String(s)) => Some(owned(s.as_str())),
        Some(JsonValue::Number(n)) => Some(number_text_of(n)),
        _ => None,
    }
}

fn string_or_default_of(v: &JsonValue) -> (r: String)
    ensures
        r@ == string_or_default(json_view(*v)),
{
    match v {
        JsonValue::String(s) => owned(s.as_str()),
        JsonValue::Number(n) => number_text_of(n),
        JsonValue::Bool(b) => if *b {
            owned("true")
        } else {
            owned("false")
        },
        _ => {
            let e = String::new();
            e
        },
    }
}

/// Splits an annotation key (see [`annotation_key_parts`]).
fn annotation_key_split(k: &str) -> (r: Option<(Option<String>, String, Option<String>)>)
    ensures
        match annotation_key_parts(k@) {
            Some(p) => r matches Some(x) && crate::expr::opt_chars(x.0) == p.0 && x.1@ == p.1
                && crate::expr::opt_chars(x.2) == p.2,
            None => r is None,
        },
{
    match split_once_char(k, '@') {
        None => None,
        Some((before, rest)) => {
            let target = if before.as_str().unicode_len() == 0 {
                None
            } else {
                Some(before)
            };
            match split_once_char(rest.as_str(), '#') {
                Some((t, q)) => Some((target, t, Some(q))),
                None => Some((target, rest, None)),
            }
        },
    }
}

fn binary_op_of(k: &str) -> (r: Option<BinaryOperator>)
    ensures
        r == binary_op(k@),
{
    if str_eq(k, "$And") {
        Some(BinaryOperator::And)
    } else if str_eq(k, "$Or") {
        Some(BinaryOperator::Or)
    } else if str_eq(k, "$Eq") {
        Some(BinaryOperator::Eq)
    } else if str_eq(k, "$Ne") {
        Some(BinaryOperator::Ne)
    } else if str_eq(k, "$Gt") {
        Some(BinaryOperator::Gt)
    } else if str_eq(k, "$Ge") {
        Some(BinaryOperator::Ge)
    } else if str_eq(k, "$Lt") {
        Some(BinaryOperator::Lt)
    } else if str_eq(k, "$Le") {
        Some(BinaryOperator::Le)
    } else {
        None
    }
}

fn is_dynamic(k: &str) -> (r: bool)
    ensures
        r == is_dynamic_key(k@),
{
    begins_with(k, '$') && !str_eq(k, "$Type") && !str_eq(k, "$Function") && !str_eq(k, "$Name")
        && !str_eq(k, "$Null") && !str_eq(k, "$Annotations")
}

proof fn lemma_dyn_pos(m: Members)
    ensures
        match dyn_pos(m) {
            Some(i) => 0 <= i < m.len() && is_dynamic_key(m[i].0) && forall|j: int| 0 <= j < i ==> !is_dynamic_key(m[j].0),
            None => forall|j: int| 0 <= j < m.len() ==> !is_dynamic_key(m[j].0),
        },
    decreases m.len(),
{
    if m.len() > 0 {
        lemma_dyn_pos(m.drop_first());
        if !is_dynamic_key(m[0].0) {
            assert forall|j: int| 0 < j < m.len() implies m[j] == m.drop_first()[j - 1] by {}
        }
    }
}

/// The position of the first dynamic-expression key.
fn dyn_pos_of(m: &Vec<(String, JsonValue)>) -> (r: Option<usize>)
    ensures
        match r {
            Some(i) => dyn_pos(member_views(m@)) == Some(i as int) && i < m@.len(),
            None => dyn_pos(member_views(m@)) is None,
        },
{
    let ghost mv = member_views(m@);
    proof {
        lemma_member_views(m@);
        lemma_dyn_pos(mv);
    }
    let mut i: usize = 0;
    while i < m.len()
        invariant
            i <= m@.len(),
            mv == member_views(m@),
            mv.len() == m@.len(),
            forall|j: int| 0 <= j < m@.len() ==> #[trigger] mv[j] == (m@[j].0@, json_view(m@[j].1)),
            forall|j: int| 0 <= j < i ==> !is_dynamic_key(mv[j].0),
        decreases m.len() - i,
    {
        if is_dynamic(m[i].0.as_str()) {
            proof {
                lemma_dyn_pos(mv);
                match dyn_pos(mv) {
                    Some(p) => {
                        if p < i {
                            assert(!is_dynamic_key(mv[p].0));
                        } else if p > i {
                            assert(is_dynamic_key(mv[i as int].0));
                        }
                    },
                    None => {
                        assert(is_dynamic_key(mv[i as int].0));
                    },
                }
            }
            return Some(i);
        }
        i = i + 1;
    }
    proof {
        lemma_dyn_pos(mv);
    }
    None
}

/// A constant expression by its key (see [`constant_expr`]).
fn constant_of(k: &str, s: String) -> (r: Option<CsdlAnnotationExpression>)
    ensures
        match constant_expr(k@, s@) {
            Some(x) => r matches Some(e) && expr_view(e) == x,
            None => r is None,
        },
{
    if str_eq(k, "$Path") {
        Some(CsdlAnnotationExpression::Path(s))
    } else if str_eq(k, "$PropertyPath") {
        Some(CsdlAnnotationExpression::PropertyPath(s))
    } else if str_eq(k, "$NavigationPropertyPath") {
        Some(CsdlAnnotationExpression::NavigationPropertyPath(s))
    } else if str_eq(k, "$AnnotationPath") {
        Some(CsdlAnnotationExpression::AnnotationPath(s))
    } else if str_eq(k, "$LabeledElementReference") {
        Some(CsdlAnnotationExpression::LabeledElementReference(s))
    } else if str_eq(k, "$Binary") {
        Some(CsdlAnnotationExpression::Binary(s.as_str().as_bytes_vec()))
    } else if str_eq(k, "$Date") {
        Some(CsdlAnnotationExpression::Date(s))
    } else if str_eq(k, "$DateTimeOffset") {
        Some(CsdlAnnotationExpression::DateTimeOffset(s))
    } else if str_eq(k, "$Decimal") {
        Some(CsdlAnnotationExpression::Decimal(s))
    } else if str_eq(k, "$Duration") {
        Some(CsdlAnnotationExpression::Duration(s))
    } else if str_eq(k, "$EnumMember") {
        Some(CsdlAnnotationExpression::EnumMember(s))
    } else if str_eq(k, "$Guid") {
        Some(CsdlAnnotationExpression::Guid(s))
    } else if str_eq(k, "$TimeOfDay") {
        Some(CsdlAnnotationExpression::TimeOfDay(s))
    } else {
        None
    }
}

fn number_to_expr(n: &JsonNumber) -> (r: CsdlAnnotationExpression)
    ensures
        expr_view(r) == number_expr(crate::json::number_view(*n)),
{
    match n {
        JsonNumber::PosInt(u) => if *u <= 0x7fff_ffff_ffff_ffffu64 {
            CsdlAnnotationExpression::Int(*u as i64)
        } else {
            CsdlAnnotationExpression::Float(to_decimal(*u as u128))
        },
        JsonNumber::NegInt(i) => CsdlAnnotationExpression::Int(*i),
        JsonNumber::Float(t) => CsdlAnnotationExpression::Float(owned(t.as_str())),
    }
}

/// The expression a JSON value holds (see [`json_expr`]).
pub fn json_to_expr(v: &JsonValue) -> (r: Result<CsdlAnnotationExpression, ReadError>)
    ensures
        read_as(r, json_expr(json_view(*v))),
    decreases v,
{
    match v {
        JsonValue::Null => Ok(CsdlAnnotationExpression::Null),
        JsonValue::Bool(b) => Ok(CsdlAnnotationExpression::Bool(*b)),
        JsonValue::Number(n) => Ok(number_to_expr(n)),
        JsonValue::String(s) => Ok(CsdlAnnotationExpression::String(owned(s.as_str()))),
        JsonValue::Array(items) => {
            proof {
                lemma_json_views(items@);
            }
            match json_to_exprs(items) {
                Ok(xs) => Ok(CsdlAnnotationExpression::Collection(xs)),
                Err(e) => Err(e),
            }
        },
        JsonValue::Object(m) => {
            let ghost mv = member_views(m@);
            proof {
                lemma_member_views(m@);
            }
            assert(json_view(*v) == JsonView::Object(mv));
            proof {
                lemma_dyn_pos(mv);
            }
            match dyn_pos_of(m) {
                Some(p) => {
                    let key = m[p].0.as_str();
                    let val = &m[p].1;
                    assert(mv[p as int] == (key@, json_view(*val)));
                    match constant_of(key, string_or_default_of(val)) {
                        Some(x) => {
                            return Ok(x);
                        },
                        None => {},
                    }
                    match binary_op_of(key) {
                        Some(op) => {
                            match val {
                                JsonValue::Array(a) => {
                                    proof {
                                        lemma_json_views(a@);
                                    }
                                    if a.len() == 2 {
                                        let l = match json_to_expr(&a[0]) {
                                            Ok(x) => x,
                                            Err(e) => {
                                                return Err(e);
                                            },
                                        };
                                        let r = match json_to_expr(&a[1]) {
                                            Ok(x) => x,
                                            Err(e) => {
                                                return Err(e);
                                            },
                                        };
                                        return Ok(
                                            CsdlAnnotationExpression::BinaryExpression {
                                                op,
                                                lhs: Box::new(l),
                                                rhs: Box::new(r),
                                            },
                                        );
                                    }
                                    return Err(csdl_error(concat(key, " expects [lhs, rhs]")));
                                },
                                _ => {
                                    return Err(csdl_error(concat(key, " expects [lhs, rhs]")));
                                },
                            }
                        },
                        None => {},
                    }
                    if str_eq(key, "$Not") {
                        return match json_to_expr(val) {
                            Ok(x) => Ok(CsdlAnnotationExpression::Not(Box::new(x))),
                            Err(e) => Err(e),
                        };
                    }
                    if str_eq(key, "$If") {
                        return match val {
                            JsonValue::Array(a) => {
                                proof {
                                    lemma_json_views(a@);
                                }
                                if a.len() == 2 || a.len() == 3 {
                                    let t = match json_to_expr(&a[0]) {
                                        Ok(x) => x,
                                        Err(e) => {
                                            return Err(e);
                                        },
                                    };
                                    let th = match json_to_expr(&a[1]) {
                                        Ok(x) => x,
                                        Err(e) => {
                                            return Err(e);
                                        },
                                    };
                                    if a.len() == 3 {
                                        let el = match json_to_expr(&a[2]) {
                                            Ok(x) => x,
                                            Err(e) => {
                                                return Err(e);
                                            },
                                        };
                                        Ok(
                                            CsdlAnnotationExpression::If {
                                                test: Box::new(t),
                                                then_: Box::new(th),
                                                else_: Some(Box::new(el)),
                                            },
                                        )
                                    } else {
                                        Ok(
                                            CsdlAnnotationExpression::If {
                                                test: Box::new(t),
                                                then_: Box::new(th),
                                                else_: None,
                                            },
                                        )
                                    }
                                } else {
                                    Err(csdl_error(owned("$If expects [test, then] or [test, then, else]")))
                                }
                            },
                            _ => Err(csdl_error(owned("$If expects [test, then] or [test, then, else]"))),
                        };
                    }
                    if str_eq(key, "$Apply") {
                        return match val {
                            JsonValue::Array(a) => {
                                proof {
                                    lemma_json_views(a@);
                                }
                                match json_to_exprs(a) {
                                    Ok(args) => {
                                        let function = match str_member_of(m, "$Function") {
                                            Some(f) => f,
                                            None => String::new(),
                                        };
                                        Ok(CsdlAnnotationExpression::Apply { function, args })
                                    },
                                    Err(e) => Err(e),
                                }
                            },
                            _ => Err(csdl_error(owned("$Apply expects an array of arguments"))),
                        };
                    }
                    if str_eq(key, "$Cast") || str_eq(key, "$IsOf") || str_eq(key, "$LabeledElement") {
                        let x = match json_to_expr(val) {
                            Ok(x) => x,
                            Err(e) => {
                                return Err(e);
                            },
                        };
                        return if str_eq(key, "$Cast") {
                            Ok(CsdlAnnotationExpression::Cast { type_: str_or_empty_of(m, "$Type"), expr: Box::new(x) })
                        } else if str_eq(key, "$IsOf") {
                            Ok(CsdlAnnotationExpression::IsOf { type_: str_or_empty_of(m, "$Type"), expr: Box::new(x) })
                        } else {
                            Ok(
                                CsdlAnnotationExpression::LabeledElement {
                                    name: str_or_empty_of(m, "$Name"),
                                    expr: Box::new(x),
                                },
                            )
                        };
                    }
                    if str_eq(key, "$UrlRef") {
                        return match json_to_expr(val) {
                            Ok(x) => Ok(CsdlAnnotationExpression::UrlRef(Box::new(x))),
                            Err(e) => Err(e),
                        };
                    }
                    Err(csdl_error(concat("unknown JSON annotation-expression discriminator ", key)))
                },
                None => record_to_expr(m),
            }
        },
    }
}

fn json_to_exprs(items: &Vec<JsonValue>) -> (r: Result<Vec<CsdlAnnotationExpression>, ReadError>)
    ensures
        match r {
            Ok(xs) => json_exprs(json_views(items@)) == Ok::<Seq<ExprView>, Seq<char>>(expr_views(xs@)),
            Err(e) => e matches ReadError::Csdl(msg) && json_exprs(json_views(items@)) == Err::<Seq<ExprView>, Seq<char>>(msg@),
        },
    decreases items,
{
    let ghost iv = json_views(items@);
    proof {
        lemma_json_views(items@);
    }
    let mut out: Vec<CsdlAnnotationExpression> = Vec::new();
    let mut i: usize = 0;
    while i < items.len()
        invariant
            i <= items@.len(),
            iv == json_views(items@),
            iv.len() == items@.len(),
            forall|j: int| 0 <= j < items@.len() ==> #[trigger] iv[j] == json_view(items@[j]),
            json_exprs(iv.subrange(0, i as int)) == Ok::<Seq<ExprView>, Seq<char>>(expr_views(out@)),
        decreases items.len() - i,
    {
        let x = json_to_expr(&items[i]);
        proof {
            assert(iv.subrange(0, i + 1).subrange(0, i as int) =~= iv.subrange(0, i as int));
        }
        match x {
            Ok(e) => {
                let ghost o = out@;
                let ghost ev = e;
                out.push(e);
                proof {
                    lemma_expr_views_push(o, ev);
                }
            },
            Err(e) => {
                proof {
                    lemma_json_exprs_err(iv, (i + 1) as nat);
                }
                return Err(e);
            },
        }
        i = i + 1;
    }
    assert(iv.subrange(0, i as int) =~= iv);
    Ok(out)
}

proof fn lemma_json_exprs_err(s: Seq<JsonView>, n: nat)
    requires
        n <= s.len(),
        json_exprs(s.subrange(0, n as int)) is Err,
    ensures
        json_exprs(s) == json_exprs(s.subrange(0, n as int)),
    decreases s.len() - n,
{
    if n < s.len() {
        assert(s.subrange(0, (n + 1) as int).subrange(0, n as int) =~= s.subrange(0, n as int));
        lemma_json_exprs_err(s, n + 1);
    } else {
        assert(s.subrange(0, n as int) =~= s);
    }
}

pub open spec fn pending_views(p: Seq<(String, Annotation)>) -> Seq<(Seq<char>, AnnotationView)> {
    p.map_values(|x: (String, Annotation)| (x.0@, annotation_view(x.1)))
}

proof fn lemma_record_parts_err(m: Members, n: nat)
    requires
        n <= m.len(),
        record_parts(m.subrange(0, n as int)) is Err,
    ensures
        record_parts(m) == record_parts(m.subrange(0, n as int)),
    decreases m.len() - n,
{
    if n < m.len() {
        assert(m.subrange(0, (n + 1) as int).subrange(0, n as int) =~= m.subrange(0, n as int));
        lemma_record_parts_err(m, n + 1);
    } else {
        assert(m.subrange(0, n as int) =~= m);
    }
}

proof fn lemma_pv_pos(props: Seq<PropertyValueView>, name: Seq<char>)
    ensures
        match pv_pos(props, name) {
            Some(i) => 0 <= i < props.len() && props[i].property == name && forall|j: int| 0 <= j < i ==> props[j].property != name,
            None => forall|j: int| 0 <= j < props.len() ==> props[j].property != name,
        },
    decreases props.len(),
{
    if props.len() > 0 {
        lemma_pv_pos(props.drop_first(), name);
        if props[0].property != name {
            assert forall|j: int| 0 < j < props.len() implies props[j] == props.drop_first()[j - 1] by {}
        }
    }
}

fn pv_pos_of(props: &Vec<PropertyValue>, name: &str) -> (r: Option<usize>)
    ensures
        match r {
            Some(i) => pv_pos(property_value_views(props@), name@) == Some(i as int) && i < props@.len(),
            None => pv_pos(property_value_views(props@), name@) is None,
        },
{
    let ghost pv = property_value_views(props@);
    proof {
        lemma_property_value_views(props@);
        lemma_pv_pos(pv, name@);
    }
    let mut i: usize = 0;
    while i < props.len()
        invariant
            i <= props@.len(),
            pv == property_value_views(props@),
            pv.len() == props@.len(),
            forall|j: int| 0 <= j < props@.len() ==> #[trigger] pv[j] == property_value_view(props@[j]),
            forall|j: int| 0 <= j < i ==> pv[j].property != name@,
        decreases props.len() - i,
    {
        if str_eq(props[i].property.as_str(), name) {
            proof {
                lemma_pv_pos(pv, name@);
                assert(pv[i as int].property == name@);
                match pv_pos(pv, name@) {
                    Some(p) => {
                        if p < i {
                            assert(pv[p].property != name@);
                        } else if p > i {
                            assert(pv[i as int].property != name@);
                        }
                    },
                    None => {
                        assert(pv[i as int].property != name@);
                    },
                }
            }
            return Some(i);
        }
        i = i + 1;
    }
    proof {
        lemma_pv_pos(pv, name@);
    }
    None
}

/// A record expression: an object without a dynamic-expression key.
fn record_to_expr(m: &Vec<(String, JsonValue)>) -> (r: Result<CsdlAnnotationExpression, ReadError>)
    ensures
        read_as(
            r,
            match record_parts(member_views(m@)) {
                Err(e) => Err(e),
                Ok(parts) => {
                    let attached = attach(parts.0, parts.1, parts.2);
                    Ok(
                        ExprView::Record {
                            type_: str_member(member_views(m@), "$Type"@),
                            properties: attached.0,
                            annotations: attached.1,
                        },
                    )
                },
            },
        ),
    decreases m,
{
    let ghost mv = member_views(m@);
    proof {
        lemma_member_views(m@);
    }
    let mut props: Vec<PropertyValue> = Vec::new();
    let mut anns: Vec<Annotation> = Vec::new();
    let mut pending: Vec<(String, Annotation)> = Vec::new();
    proof {
        assert(pending_views(pending@) =~= Seq::<(Seq<char>, AnnotationView)>::empty());
        assert(mv.subrange(0, 0) =~= Seq::<(Seq<char>, JsonView)>::empty());
    }
    let mut i: usize = 0;
    while i < m.len()
        invariant
            i <= m@.len(),
            mv == member_views(m@),
            mv.len() == m@.len(),
            forall|j: int| 0 <= j < m@.len() ==> #[trigger] mv[j] == (m@[j].0@, json_view(m@[j].1)),
            record_parts(mv.subrange(0, i as int)) == Ok::<RecordParts, Seq<char>>(
                (property_value_views(props@), annotation_views(anns@), pending_views(pending@)),
            ),
        decreases m.len() - i,
    {
        proof {
            assert(mv.subrange(0, i + 1).subrange(0, i as int) =~= mv.subrange(0, i as int));
        }
        let k = m[i].0.as_str();
        if !begins_with(k, '$') {
            let x = match json_to_expr(&m[i].1) {
                Ok(x) => x,
                Err(e) => {
                    proof {
                        lemma_record_parts_err(mv, (i + 1) as nat);
                    }
                    return Err(e);
                },
            };
            match annotation_key_split(k) {
                Some((pv, term, q)) => {
                    let ann = Annotation { term, qualifier: q, target: None, expression: Some(x) };
                    match pv {
                        Some(name) => {
                            let ghost p0 = pending@;
                            pending.push((name, ann));
                            assert(pending_views(pending@) =~= pending_views(p0).push(
                                (pending@.last().0@, annotation_view(pending@.last().1)),
                            ));
                        },
                        None => {
                            let ghost a0 = anns@;
                            let ghost av = ann;
                            anns.push(ann);
                            proof {
                                lemma_annotation_views_push(a0, av);
                            }
                        },
                    }
                },
                None => {
                    let ghost p0 = props@;
                    let pv = PropertyValue { property: owned(k), value: Some(x), annotations: Vec::new() };
                    let ghost pvv = pv;
                    props.push(pv);
                    proof {
                        lemma_property_value_views_push(p0, pvv);
                        assert(annotation_views(pvv.annotations@) =~= Seq::<AnnotationView>::empty());
                    }
                },
            }
        }
        i = i + 1;
    }
    assert(mv.subrange(0, i as int) =~= mv);
    let ghost pend = pending_views(pending@);
    let ghost base_p = property_value_views(props@);
    let ghost base_a = annotation_views(anns@);
    let n = pending.len();
    let mut k: usize = 0;
    proof {
        assert(pend.take(0) =~= Seq::<(Seq<char>, AnnotationView)>::empty());
        assert(pend.skip(0) =~= pend);
    }
    while pending.len() > 0
        invariant
            k <= n,
            n == pend.len(),
            pending@.len() == n - k,
            pending_views(pending@) == pend.skip(k as int),
            (property_value_views(props@), annotation_views(anns@)) == attach(base_p, base_a, pend.take(k as int)),
        decreases pending.len(),
    {
        let ghost before = pending@;
        let (name, ann) = pending.remove(0);
        proof {
            assert(pending_views(before)[0] == pend[k as int]);
            assert forall|j: int| 0 <= j < pending@.len() implies #[trigger] pending_views(pending@)[j] == pend.skip(k + 1)[j] by {
                assert(pending@[j] == before[j + 1]);
                assert(pending_views(before)[j + 1] == pend.skip(k as int)[j + 1]);
            }
            assert(pending_views(pending@) =~= pend.skip(k + 1));
            assert(pend.take(k + 1).drop_last() =~= pend.take(k as int));
            assert(pend.take(k + 1).last() == pend[k as int]);
            assert(pend[k as int] == (name@, annotation_view(ann)));
        }
        let ghost r0 = attach(base_p, base_a, pend.take(k as int));
        match pv_pos_of(&props, name.as_str()) {
            Some(idx) => {
                let ghost p0 = props@;
                proof {
                    lemma_property_value_views(p0);
                    lemma_pv_pos(property_value_views(p0), name@);
                    assert(pv_pos(property_value_views(p0), name@) == Some(idx as int));
                }
                let mut pv = props.remove(idx);
                let ghost a0 = pv.annotations@;
                let ghost av = ann;
                pv.annotations.push(ann);
                proof {
                    lemma_annotation_views_push(a0, av);
                }
                props.insert(idx, pv);
                proof {
                    lemma_property_value_views(props@);
                    assert(props@ =~= p0.update(idx as int, pv));
                    assert(property_value_views(props@) =~= property_value_views(p0).update(
                        idx as int,
                        property_value_view(pv),
                    ));
                    assert(property_value_view(pv) == PropertyValueView {
                        annotations: r0.0[idx as int].annotations.push(annotation_view(ann)),
                        ..r0.0[idx as int]
                    });
                    assert(r0.0 == property_value_views(p0));
                }
            },
            None => {
                let ghost a0 = anns@;
                let t = Annotation { term: ann.term, qualifier: ann.qualifier, target: Some(name), expression: ann.expression };
                let ghost tv = t;
                anns.push(t);
                proof {
                    lemma_annotation_views_push(a0, tv);
                }
            },
        }
        k = k + 1;
    }
    assert(pend.take(k as int) =~= pend);
    let type_ = str_member_of(m, "$Type");
    Ok(CsdlAnnotationExpression::Record { type_, properties: props, annotations: anns })
}

// ---------------------------------------------------------------------------
// Emitting units
// ---------------------------------------------------------------------------

/// `after` is `before` with the units of `u` appended.
pub open spec fn grew(u: Units, before: Seq<UnitView>, after: Seq<UnitView>) -> bool {
    u matches Ok(x) && after == before + x
}

proof fn lemma_then(u1: Units, u2: Units, a: Seq<UnitView>, b: Seq<UnitView>, c: Seq<UnitView>)
    requires
        grew(u1, a, b),
        grew(u2, b, c),
    ensures
        grew(then(u1, u2), a, c),
{
    let x = u1->Ok_0;
    let y = u2->Ok_0;
    assert(a + x + y =~= a + (x + y));
}

fn push_unit(out: &mut Vec<SyntaxUnit>, u: SyntaxUnit)
    ensures
        unit_views(final(out)@) == unit_views(old(out)@).push(unit_view(u)),
{
    let ghost o = out@;
    let ghost uu = u;
    out.push(u);
    assert(unit_views(out@) =~= unit_views(o).push(unit_view(uu)));
}

fn start_unit(out: &mut Vec<SyntaxUnit>, name: &str, attrs: Vec<(String, String)>)
    ensures
        grew(Ok(seq![start(name@, attr_views(attrs@))]), unit_views(old(out)@), unit_views(final(out)@)),
{
    let ghost o = unit_views(out@);
    let ghost av = attr_views(attrs@);
    push_unit(out, SyntaxUnit::StartElement { name: owned(name), attributes: attrs });
    assert(unit_views(out@) =~= o + seq![start(name@, av)]);
}

fn end_unit(out: &mut Vec<SyntaxUnit>, name: &str)
    ensures
        grew(Ok(seq![end(name@)]), unit_views(old(out)@), unit_views(final(out)@)),
{
    let ghost o = unit_views(out@);
    push_unit(out, SyntaxUnit::EndElement { name: owned(name) });
    assert(unit_views(out@) =~= o + seq![end(name@)]);
}

fn leaf_unit(out: &mut Vec<SyntaxUnit>, name: &str, attrs: Vec<(String, String)>)
    ensures
        grew(Ok(leaf(name@, attr_views(attrs@))), unit_views(old(out)@), unit_views(final(out)@)),
{
    let ghost o = unit_views(out@);
    let ghost av = attr_views(attrs@);
    start_unit(out, name, attrs);
    end_unit(out, name);
    assert(unit_views(out@) =~= o + leaf(name@, av));
}

fn attrs1(k: &str, v: String) -> (r: Vec<(String, String)>)
    ensures
        attr_views(r@) == seq![(k@, v@)],
{
    let ghost vv = v@;
    let mut a: Vec<(String, String)> = Vec::new();
    a.push((owned(k), v));
    assert(attr_views(a@) =~= seq![(k@, vv)]);
    a
}

fn put_attr(a: &mut Vec<(String, String)>, k: &str, v: String)
    ensures
        attr_views(final(a)@) == attr_views(old(a)@).push((k@, v@)),
{
    let ghost o = a@;
    let ghost vv = v@;
    a.push((owned(k), v));
    assert(attr_views(a@) =~= attr_views(o).push((k@, vv)));
}

fn opt_add(a: &mut Vec<(String, String)>, k: &str, v: Option<String>)
    ensures
        attr_views(final(a)@) == opt_attr(attr_views(old(a)@), k@, crate::expr::opt_chars(v)),
{
    match v {
        Some(x) => put_attr(a, k, x),
        None => {},
    }
}

fn bool_str(b: bool) -> (r: String)
    ensures
        r@ == bool_text(b),
{
    if b {
        owned("true")
    } else {
        owned("false")
    }
}

fn bool_add(a: &mut Vec<(String, String)>, k: &str, v: Option<bool>)
    ensures
        attr_views(final(a)@) == bool_attr(attr_views(old(a)@), k@, v),
{
    match v {
        Some(b) => put_attr(a, k, bool_str(b)),
        None => {},
    }
}

fn type_attrs_of(a: &mut Vec<(String, String)>, m: &Vec<(String, JsonValue)>)
    ensures
        attr_views(final(a)@) == type_attrs(attr_views(old(a)@), member_views(m@)),
{
    opt_add(a, "Type", str_member_of(m, "$Type"));
    if bool_member_of(m, "$Collection") == Some(true) {
        put_attr(a, "Collection", owned("true"));
    }
}

fn size_attrs_of(a: &mut Vec<(String, String)>, m: &Vec<(String, JsonValue)>)
    ensures
        attr_views(final(a)@) == size_attrs(attr_views(old(a)@), member_views(m@)),
{
    opt_add(a, "MaxLength", text_member_of(m, "$MaxLength"));
    opt_add(a, "Precision", text_member_of(m, "$Precision"));
    opt_add(a, "Scale", text_member_of(m, "$Scale"));
    opt_add(a, "SRID", text_member_of(m, "$SRID"));
}

fn name_attrs(name: &str) -> (r: Vec<(String, String)>)
    ensures
        attr_views(r@) == seq![("Name"@, name@)],
{
    attrs1("Name", owned(name))
}

/// An annotation element holding its expression (see [`annotation_units`]).
fn emit_annotation(out: &mut Vec<SyntaxUnit>, k: &str, v: &JsonValue) -> (r: Result<(), ReadError>)
    ensures
        emitted(r, annotation_units(k@, json_view(*v)), unit_views(old(out)@), unit_views(final(out)@)),
{
    let ghost g0 = unit_views(out@);
    match annotation_key_split(k) {
        None => {
            assert(g0 + Seq::<UnitView>::empty() =~= g0);
            Ok(())
        },
        Some((target, term, q)) => {
            let mut a = attrs1("Term", term);
            opt_add(&mut a, "Qualifier", q);
            opt_add(&mut a, "Target", target);
            let ghost av = attr_views(a@);
            match json_to_expr(v) {
                Ok(e) => {
                    let ghost ev = expr_view(e);
                    start_unit(out, "Annotation", a);
                    push_unit(out, SyntaxUnit::AnnotationExpression(e));
                    end_unit(out, "Annotation");
                    assert(unit_views(out@) =~= g0 + seq![
                        start("Annotation"@, av),
                        UnitView::Expression(ev),
                        end("Annotation"@),
                    ]);
                    Ok(())
                },
                Err(e) => Err(e),
            }
        },
    }
}

fn step_ann(out: &mut Vec<SyntaxUnit>, k: &str, v: &JsonValue) -> (r: Result<(), ReadError>)
    ensures
        emitted(r, ann_step()((k@, json_view(*v))), unit_views(old(out)@), unit_views(final(out)@)),
{
    if has_char(k, '@') && !begins_with(k, '$') {
        emit_annotation(out, k, v)
    } else {
        assert(unit_views(out@) + Seq::<UnitView>::empty() =~= unit_views(out@));
        Ok(())
    }
}

fn emit_inline_annotations(out: &mut Vec<SyntaxUnit>, m: &Vec<(String, JsonValue)>) -> (r: Result<(), ReadError>)
    ensures
        emitted(r, fold_units(member_views(m@), ann_step()), unit_views(old(out)@), unit_views(final(out)@)),
{
    let ghost mv = member_views(m@);
    let ghost g0 = unit_views(out@);
    proof {
        lemma_member_views(m@);
        assert(mv.take(0) =~= Seq::<(Seq<char>, JsonView)>::empty());
        assert(g0 + Seq::<UnitView>::empty() =~= g0);
    }
    let mut i: usize = 0;
    while i < m.len()
        invariant
            i <= m@.len(),
            mv == member_views(m@),
            mv.len() == m@.len(),
            forall|j: int| 0 <= j < m@.len() ==> #[trigger] mv[j] == (m@[j].0@, json_view(m@[j].1)),
            grew(fold_units(mv.take(i as int), ann_step()), g0, unit_views(out@)),
        decreases m.len() - i,
    {
        let ghost g1 = unit_views(out@);
        let r = step_ann(out, m[i].0.as_str(), &m[i].1);
        proof {
            assert(mv.take(i + 1).drop_last() =~= mv.take(i as int));
            assert(mv.take(i + 1).last() == mv[i as int]);
        }
        if r.is_err() {
            proof {
                lemma_fold_units_err(mv, ann_step(), (i + 1) as nat);
            }
            return r;
        }
        proof {
            lemma_then(fold_units(mv.take(i as int), ann_step()), (ann_step())(mv[i as int]), g0, g1, unit_views(out@));
        }
        i = i + 1;
    }
    assert(mv.take(i as int) =~= mv);
    Ok(())
}

fn step_constraint(out: &mut Vec<SyntaxUnit>, k: &str, v: &JsonValue) -> (r: Result<(), ReadError>)
    ensures
        emitted(r, constraint_step()((k@, json_view(*v))), unit_views(old(out)@), unit_views(final(out)@)),
{
    let ghost g0 = unit_views(out@);
    if !has_char(k, '@') {
        match v {
            JsonValue::String(s) => {
                let mut a = attrs1("Property", owned(k));
                put_attr(&mut a, "ReferencedProperty", owned(s.as_str()));
                assert(attr_views(a@) =~= seq![("Property"@, k@), ("ReferencedProperty"@, s@)]);
                leaf_unit(out, "ReferentialConstraint", a);
                return Ok(());
            },
            _ => {},
        }
    }
    assert(g0 + Seq::<UnitView>::empty() =~= g0);
    Ok(())
}

fn step_sibling(out: &mut Vec<SyntaxUnit>, k: &str, v: &JsonValue) -> (r: Result<(), ReadError>)
    ensures
        emitted(r, sibling_step()((k@, json_view(*v))), unit_views(old(out)@), unit_views(final(out)@)),
{
    if has_char(k, '@') {
        emit_annotation(out, k, v)
    } else {
        assert(unit_views(out@) + Seq::<UnitView>::empty() =~= unit_views(out@));
        Ok(())
    }
}

fn emit_constraints(out: &mut Vec<SyntaxUnit>, m: &Vec<(String, JsonValue)>) -> (r: Result<(), ReadError>)
    ensures
        emitted(r, fold_units(member_views(m@), constraint_step()), unit_views(old(out)@), unit_views(final(out)@)),
{
    let ghost mv = member_views(m@);
    let ghost g0 = unit_views(out@);
    proof {
        lemma_member_views(m@);
        assert(mv.take(0) =~= Seq::<(Seq<char>, JsonView)>::empty());
        assert(g0 + Seq::<UnitView>::empty() =~= g0);
    }
    let mut i: usize = 0;
    while i < m.len()
        invariant
            i <= m@.len(),
            mv == member_views(m@),
            mv.len() == m@.len(),
            forall|j: int| 0 <= j < m@.len() ==> #[trigger] mv[j] == (m@[j].0@, json_view(m@[j].1)),
            grew(fold_units(mv.take(i as int), constraint_step()), g0, unit_views(out@)),
        decreases m.len() - i,
    {
        let ghost g1 = unit_views(out@);
        let r = step_constraint(out, m[i].0.as_str(), &m[i].1);
        proof {
            assert(mv.take(i + 1).drop_last() =~= mv.take(i as int));
            assert(mv.take(i + 1).last() == mv[i as int]);
        }
        if r.is_err() {
            proof {
                lemma_fold_units_err(mv, constraint_step(), (i + 1) as nat);
            }
            return r;
        }
        proof {
            lemma_then(fold_units(mv.take(i as int), constraint_step()), (constraint_step())(mv[i as int]), g0, g1, unit_views(out@));
        }
        i = i + 1;
    }
    assert(mv.take(i as int) =~= mv);
    Ok(())
}

fn emit_siblings(out: &mut Vec<SyntaxUnit>, m: &Vec<(String, JsonValue)>) -> (r: Result<(), ReadError>)
    ensures
        emitted(r, fold_units(member_views(m@), sibling_step()), unit_views(old(out)@), unit_views(final(out)@)),
{
    let ghost mv = member_views(m@);
    let ghost g0 = unit_views(out@);
    proof {
        lemma_member_views(m@);
        assert(mv.take(0) =~= Seq::<(Seq<char>, JsonView)>::empty());
        assert(g0 + Seq::<UnitView>::empty() =~= g0);
    }
    let mut i: usize = 0;
    while i < m.len()
        invariant
            i <= m@.len(),
            mv == member_views(m@),
            mv.len() == m@.len(),
            forall|j: int| 0 <= j < m@.len() ==> #[trigger] mv[j] == (m@[j].0@, json_view(m@[j].1)),
            grew(fold_units(mv.take(i as int), sibling_step()), g0, unit_views(out@)),
        decreases m.len() - i,
    {
        let ghost g1 = unit_views(out@);
        let r = step_sibling(out, m[i].0.as_str(), &m[i].1);
        proof {
            assert(mv.take(i + 1).drop_last() =~= mv.take(i as int));
            assert(mv.take(i + 1).last() == mv[i as int]);
        }
        if r.is_err() {
            proof {
                lemma_fold_units_err(mv, sibling_step(), (i + 1) as nat);
            }
            return r;
        }
        proof {
            lemma_then(fold_units(mv.take(i as int), sibling_step()), (sibling_step())(mv[i as int]), g0, g1, unit_views(out@));
        }
        i = i + 1;
    }
    assert(mv.take(i as int) =~= mv);
    Ok(())
}

fn emit_property(out: &mut Vec<SyntaxUnit>, name: &str, m: &Vec<(String, JsonValue)>) -> (r: Result<(), ReadError>)
    ensures
        emitted(r, property_units(name@, member_views(m@)), unit_views(old(out)@), unit_views(final(out)@)),
{
    let mut a = name_attrs(name);
    type_attrs_of(&mut a, m);
    bool_add(&mut a, "Nullable", bool_member_of(m, "$Nullable"));
    size_attrs_of(&mut a, m);
    bool_add(&mut a, "Unicode", bool_member_of(m, "$Unicode"));
    opt_add(&mut a, "DefaultValue", str_member_of(m, "$DefaultValue"));
    let ghost av = attr_views(a@);
    let ghost g0 = unit_views(out@);
    start_unit(out, "Property", a);
    let ghost g1 = unit_views(out@);
    let r = emit_inline_annotations(out, m);
    if r.is_err() {
        return r;
    }
    let ghost g2 = unit_views(out@);
    end_unit(out, "Property");
    proof {
        lemma_then(inline_annotations(member_views(m@)), Ok(seq![end("Property"@)]), g1, g2, unit_views(out@));
        lemma_then(
            Ok(seq![start("Property"@, av)]),
            then(inline_annotations(member_views(m@)), Ok(seq![end("Property"@)])),
            g0,
            g1,
            unit_views(out@),
        );
    }
    Ok(())
}

fn emit_navigation(out: &mut Vec<SyntaxUnit>, name: &str, m: &Vec<(String, JsonValue)>) -> (r: Result<(), ReadError>)
    ensures
        emitted(r, navigation_units(name@, member_views(m@)), unit_views(old(out)@), unit_views(final(out)@)),
{
    let ghost mv = member_views(m@);
    let mut a = name_attrs(name);
    type_attrs_of(&mut a, m);
    bool_add(&mut a, "Nullable", bool_member_of(m, "$Nullable"));
    opt_add(&mut a, "Partner", str_member_of(m, "$Partner"));
    bool_add(&mut a, "ContainsTarget", bool_member_of(m, "$ContainsTarget"));
    let ghost av = attr_views(a@);
    let ghost g0 = unit_views(out@);
    start_unit(out, "NavigationProperty", a);
    let ghost g1 = unit_views(out@);
    match str_member_of(m, "$OnDelete") {
        Some(act) => leaf_unit(out, "OnDelete", attrs1("Action", act)),
        None => {
            assert(g1 + Seq::<UnitView>::empty() =~= g1);
        },
    }
    let ghost g2 = unit_views(out@);
    let empty: Vec<(String, JsonValue)> = Vec::new();
    let rc = match find(m, "$ReferentialConstraint") {
        Some(JsonValue::Object(c)) => c,
        _ => &empty,
    };
    proof {
        lemma_member_views(empty@);
    }
    let ghost rcv = member_views(rc@);
    assert(rcv == match member(mv, "$ReferentialConstraint"@) {
        Some(JsonView::Object(c)) => c,
        _ => Seq::<(Seq<char>, JsonView)>::empty(),
    });
    let r = emit_constraints(out, rc);
    if r.is_err() {
        return r;
    }
    let ghost g3 = unit_views(out@);
    let r = emit_inline_annotations(out, m);
    if r.is_err() {
        return r;
    }
    let ghost g4 = unit_views(out@);
    let r = emit_siblings(out, rc);
    if r.is_err() {
        return r;
    }
    let ghost g5 = unit_views(out@);
    end_unit(out, "NavigationProperty");
    proof {
        let od = match str_member(mv, "$OnDelete"@) {
            Some(x) => leaf("OnDelete"@, seq![("Action"@, x)]),
            None => Seq::empty(),
        };
        let u3 = fold_units(rcv, constraint_step());
        let u4 = inline_annotations(mv);
        let u5 = fold_units(rcv, sibling_step());
        let ue = Ok::<Seq<UnitView>, Seq<char>>(seq![end("NavigationProperty"@)]);
        let g6 = unit_views(out@);
        lemma_then(u4, u5, g3, g4, g5);
        lemma_then(u3, then(u4, u5), g2, g3, g5);
        lemma_then(Ok(od), then(u3, then(u4, u5)), g1, g2, g5);
        let body = then(Ok(od), then(u3, then(u4, u5)));
        lemma_then(body, ue, g1, g5, g6);
        lemma_then(Ok(seq![start("NavigationProperty"@, av)]), then(body, ue), g0, g1, g6);
    }
    Ok(())
}


proof fn lemma_emitted_then(u1: Units, u2: Units, r: Result<(), ReadError>, a: Seq<UnitView>, b: Seq<UnitView>, c: Seq<UnitView>)
    requires
        grew(u1, a, b),
        emitted(r, u2, b, c),
    ensures
        emitted(r, then(u1, u2), a, c),
{
    if r is Ok {
        lemma_then(u1, u2, a, b, c);
    }
}

proof fn lemma_wrap(name: Seq<char>, attrs: Attrs, body: Units, g0: Seq<UnitView>, g1: Seq<UnitView>, g2: Seq<UnitView>, g3: Seq<UnitView>)
    requires
        grew(Ok(seq![start(name, attrs)]), g0, g1),
        grew(body, g1, g2),
        grew(Ok(seq![end(name)]), g2, g3),
    ensures
        grew(wrap(name, attrs, body), g0, g3),
{
    lemma_then(body, Ok(seq![end(name)]), g1, g2, g3);
    lemma_then(Ok(seq![start(name, attrs)]), then(body, Ok(seq![end(name)])), g0, g1, g3);
}

/// Whether member `k` is the string `val`.
fn str_member_is(m: &Vec<(String, JsonValue)>, k: &str, val: &str) -> (r: bool)
    ensures
        r == (str_member(member_views(m@), k@) == Some(val@)),
{
    match find(m, k) {
        Some(JsonValue::String(s)) => str_eq(s.as_str(), val),
        _ => false,
    }
}

fn is_plain(k: &str) -> (r: bool)
    ensures
        r == plain(k@),
{
    !begins_with(k, '$') && !has_char(k, '@')
}

fn step_type_member(out: &mut Vec<SyntaxUnit>, k: &str, v: &JsonValue) -> (r: Result<(), ReadError>)
    ensures
        emitted(r, type_member_step()((k@, json_view(*v))), unit_views(old(out)@), unit_views(final(out)@)),
{
    if is_plain(k) {
        match v {
            JsonValue::Object(inner) => {
                if str_member_is(inner, "$Kind", "NavigationProperty") {
                    return emit_navigation(out, k, inner);
                } else {
                    return emit_property(out, k, inner);
                }
            },
            _ => {},
        }
    }
    assert(unit_views(out@) + Seq::<UnitView>::empty() =~= unit_views(out@));
    Ok(())
}
fn emit_type_member_list(out: &mut Vec<SyntaxUnit>, m: &Vec<(String, JsonValue)>) -> (r: Result<(), ReadError>)
    ensures
        emitted(r, fold_units(member_views(m@), type_member_step()), unit_views(old(out)@), unit_views(final(out)@)),
{
    let ghost mv = member_views(m@);
    let ghost g0 = unit_views(out@);
    proof {
        lemma_member_views(m@);
        assert(mv.take(0) =~= Seq::<(Seq<char>, JsonView)>::empty());
        assert(g0 + Seq::<UnitView>::empty() =~= g0);
    }
    let mut i: usize = 0;
    while i < m.len()
        invariant
            i <= m@.len(),
            mv == member_views(m@),
            mv.len() == m@.len(),
            forall|j: int| 0 <= j < m@.len() ==> #[trigger] mv[j] == (m@[j].0@, json_view(m@[j].1)),
            grew(fold_units(mv.take(i as int), type_member_step()), g0, unit_views(out@)),
        decreases m.len() - i,
    {
        let ghost g1 = unit_views(out@);
        let r = step_type_member(out, m[i].0.as_str(), &m[i].1);
        proof {
            assert(mv.take(i + 1).drop_last() =~= mv.take(i as int));
            assert(mv.take(i + 1).last() == mv[i as int]);
        }
        if r.is_err() {
            proof {
                lemma_fold_units_err(mv, type_member_step(), (i + 1) as nat);
            }
            return r;
        }
        proof {
            lemma_then(fold_units(mv.take(i as int), type_member_step()), (type_member_step())(mv[i as int]), g0, g1, unit_views(out@));
        }
        i = i + 1;
    }
    assert(mv.take(i as int) =~= mv);
    Ok(())
}


/// Properties and navigation properties, then the type's annotations.
fn emit_type_members(out: &mut Vec<SyntaxUnit>, m: &Vec<(String, JsonValue)>) -> (r: Result<(), ReadError>)
    ensures
        emitted(r, type_members(member_views(m@)), unit_views(old(out)@), unit_views(final(out)@)),
{
    let ghost g0 = unit_views(out@);
    let r = emit_type_member_list(out, m);
    if r.is_err() {
        return r;
    }
    let ghost g1 = unit_views(out@);
    let r = emit_inline_annotations(out, m);
    proof {
        lemma_emitted_then(fold_units(member_views(m@), type_member_step()), inline_annotations(member_views(m@)), r, g0, g1, unit_views(out@));
    }
    r
}

/// The `PropertyRef` leaves of a key's string items.
fn emit_property_refs(out: &mut Vec<SyntaxUnit>, refs: &Vec<JsonValue>)
    ensures
        unit_views(final(out)@) == unit_views(old(out)@) + property_ref_units(json_views(refs@)),
{
    let ghost rv = json_views(refs@);
    let ghost g0 = unit_views(out@);
    proof {
        lemma_json_views(refs@);
        assert(rv.take(0) =~= Seq::<JsonView>::empty());
        assert(g0 + Seq::<UnitView>::empty() =~= g0);
    }
    let mut i: usize = 0;
    while i < refs.len()
        invariant
            i <= refs@.len(),
            rv == json_views(refs@),
            rv.len() == refs@.len(),
            forall|j: int| 0 <= j < refs@.len() ==> #[trigger] rv[j] == json_view(refs@[j]),
            unit_views(out@) == g0 + property_ref_units(rv.take(i as int)),
        decreases refs.len() - i,
    {
        let ghost g1 = unit_views(out@);
        proof {
            assert(rv.take(i + 1).drop_last() =~= rv.take(i as int));
            assert(rv.take(i + 1).last() == rv[i as int]);
        }
        match &refs[i] {
            JsonValue::String(s) => {
                leaf_unit(out, "PropertyRef", attrs1("Name", owned(s.as_str())));
                assert(unit_views(out@) =~= g0 + property_ref_units(rv.take(i + 1)));
            },
            _ => {
                assert(unit_views(out@) =~= g0 + property_ref_units(rv.take(i + 1)));
            },
        }
        i = i + 1;
    }
    assert(rv.take(i as int) =~= rv);
}

fn emit_entity_type(out: &mut Vec<SyntaxUnit>, name: &str, m: &Vec<(String, JsonValue)>) -> (r: Result<(), ReadError>)
    ensures
        emitted(r, entity_type_units(name@, member_views(m@)), unit_views(old(out)@), unit_views(final(out)@)),
{
    let ghost mv = member_views(m@);
    let mut a = name_attrs(name);
    opt_add(&mut a, "BaseType", str_member_of(m, "$BaseType"));
    bool_add(&mut a, "Abstract", bool_member_of(m, "$Abstract"));
    bool_add(&mut a, "OpenType", bool_member_of(m, "$OpenType"));
    bool_add(&mut a, "HasStream", bool_member_of(m, "$HasStream"));
    let ghost av = attr_views(a@);
    let ghost g0 = unit_views(out@);
    start_unit(out, "EntityType", a);
    let ghost g1 = unit_views(out@);
    let ghost key = match member(mv, "$Key"@) {
        Some(JsonView::Array(refs)) => seq![start("Key"@, Seq::empty())] + property_ref_units(refs) + seq![end("Key"@)],
        _ => Seq::empty(),
    };
    match find(m, "$Key") {
        Some(JsonValue::Array(refs)) => {
            let empty: Vec<(String, String)> = Vec::new();
            assert(attr_views(empty@) =~= Seq::<(Seq<char>, Seq<char>)>::empty());
            start_unit(out, "Key", empty);
            let ghost h = unit_views(out@);
            emit_property_refs(out, refs);
            end_unit(out, "Key");
            assert(unit_views(out@) =~= g1 + key);
        },
        _ => {
            assert(unit_views(out@) =~= g1 + key);
        },
    }
    let ghost g2 = unit_views(out@);
    let r = emit_type_members(out, m);
    if r.is_err() {
        return r;
    }
    let ghost g3 = unit_views(out@);
    end_unit(out, "EntityType");
    proof {
        lemma_then(Ok(key), type_members(mv), g1, g2, g3);
        lemma_wrap("EntityType"@, av, then(Ok(key), type_members(mv)), g0, g1, g3, unit_views(out@));
    }
    Ok(())
}

fn emit_complex_type(out: &mut Vec<SyntaxUnit>, name: &str, m: &Vec<(String, JsonValue)>) -> (r: Result<(), ReadError>)
    ensures
        emitted(r, complex_type_units(name@, member_views(m@)), unit_views(old(out)@), unit_views(final(out)@)),
{
    let ghost mv = member_views(m@);
    let mut a = name_attrs(name);
    opt_add(&mut a, "BaseType", str_member_of(m, "$BaseType"));
    bool_add(&mut a, "Abstract", bool_member_of(m, "$Abstract"));
    bool_add(&mut a, "OpenType", bool_member_of(m, "$OpenType"));
    let ghost av = attr_views(a@);
    let ghost g0 = unit_views(out@);
    start_unit(out, "ComplexType", a);
    let ghost g1 = unit_views(out@);
    let r = emit_type_members(out, m);
    if r.is_err() {
        return r;
    }
    let ghost g2 = unit_views(out@);
    end_unit(out, "ComplexType");
    proof {
        lemma_wrap("ComplexType"@, av, type_members(mv), g0, g1, g2, unit_views(out@));
    }
    Ok(())
}

/// `Number::as_i64`.
fn number_as_i64(n: &JsonNumber) -> (r: Option<i64>)
    ensures
        r == as_i64(crate::json::number_view(*n)),
{
    match n {
        JsonNumber::PosInt(u) => if *u <= 0x7fff_ffff_ffff_ffffu64 {
            Some(*u as i64)
        } else {
            None
        },
        JsonNumber::NegInt(i) => Some(*i),
        JsonNumber::Float(_) => None,
    }
}

fn member_value_of(v: &JsonValue) -> (r: Option<i64>)
    ensures
        r == member_value(json_view(*v)),
{
    match v {
        JsonValue::Number(n) => number_as_i64(n),
        JsonValue::String(s) => parse_i64(s.as_str()),
        _ => None,
    }
}

fn step_enum_member(out: &mut Vec<SyntaxUnit>, k: &str, v: &JsonValue) -> (r: Result<(), ReadError>)
    ensures
        emitted(r, enum_member_step()((k@, json_view(*v))), unit_views(old(out)@), unit_views(final(out)@)),
{
    if is_plain(k) {
        let mut a = name_attrs(k);
        match member_value_of(v) {
            Some(x) => {
                put_attr(&mut a, "Value", i64_to_decimal(x));
                assert(attr_views(a@) =~= seq![("Name"@, k@), ("Value"@, signed_decimal(x))]);
            },
            None => {
                assert(attr_views(a@) =~= seq![("Name"@, k@)]);
            },
        }
        leaf_unit(out, "Member", a);
    } else {
        assert(unit_views(out@) + Seq::<UnitView>::empty() =~= unit_views(out@));
    }
    Ok(())
}
fn emit_enum_members(out: &mut Vec<SyntaxUnit>, m: &Vec<(String, JsonValue)>) -> (r: Result<(), ReadError>)
    ensures
        emitted(r, fold_units(member_views(m@), enum_member_step()), unit_views(old(out)@), unit_views(final(out)@)),
{
    let ghost mv = member_views(m@);
    let ghost g0 = unit_views(out@);
    proof {
        lemma_member_views(m@);
        assert(mv.take(0) =~= Seq::<(Seq<char>, JsonView)>::empty());
        assert(g0 + Seq::<UnitView>::empty() =~= g0);
    }
    let mut i: usize = 0;
    while i < m.len()
        invariant
            i <= m@.len(),
            mv == member_views(m@),
            mv.len() == m@.len(),
            forall|j: int| 0 <= j < m@.len() ==> #[trigger] mv[j] == (m@[j].0@, json_view(m@[j].1)),
            grew(fold_units(mv.take(i as int), enum_member_step()), g0, unit_views(out@)),
        decreases m.len() - i,
    {
        let ghost g1 = unit_views(out@);
        let r = step_enum_member(out, m[i].0.as_str(), &m[i].1);
        proof {
            assert(mv.take(i + 1).drop_last() =~= mv.take(i as int));
            assert(mv.take(i + 1).last() == mv[i as int]);
        }
        if r.is_err() {
            proof {
                lemma_fold_units_err(mv, enum_member_step(), (i + 1) as nat);
            }
            return r;
        }
        proof {
            lemma_then(fold_units(mv.take(i as int), enum_member_step()), (enum_member_step())(mv[i as int]), g0, g1, unit_views(out@));
        }
        i = i + 1;
    }
    assert(mv.take(i as int) =~= mv);
    Ok(())
}


fn emit_enum_type(out: &mut Vec<SyntaxUnit>, name: &str, m: &Vec<(String, JsonValue)>) -> (r: Result<(), ReadError>)
    ensures
        emitted(r, enum_type_units(name@, member_views(m@)), unit_views(old(out)@), unit_views(final(out)@)),
{
    let ghost mv = member_views(m@);
    let mut a = name_attrs(name);
    opt_add(&mut a, "UnderlyingType", str_member_of(m, "$UnderlyingType"));
    bool_add(&mut a, "IsFlags", bool_member_of(m, "$IsFlags"));
    let ghost av = attr_views(a@);
    let ghost g0 = unit_views(out@);
    start_unit(out, "EnumType", a);
    let ghost g1 = unit_views(out@);
    let r = emit_enum_members(out, m);
    if r.is_err() {
        return r;
    }
    let ghost g2 = unit_views(out@);
    let r = emit_inline_annotations(out, m);
    if r.is_err() {
        return r;
    }
    let ghost g3 = unit_views(out@);
    end_unit(out, "EnumType");
    proof {
        lemma_then(fold_units(mv, enum_member_step()), inline_annotations(mv), g1, g2, g3);
        lemma_wrap("EnumType"@, av, then(fold_units(mv, enum_member_step()), inline_annotations(mv)), g0, g1, g3, unit_views(out@));
    }
    Ok(())
}

/// An element whose body is the annotations of `m`.
fn emit_annotated(out: &mut Vec<SyntaxUnit>, element: &str, a: Vec<(String, String)>, m: &Vec<(String, JsonValue)>) -> (r: Result<(), ReadError>)
    ensures
        emitted(r, wrap(element@, attr_views(a@), inline_annotations(member_views(m@))), unit_views(old(out)@), unit_views(final(out)@)),
{
    let ghost av = attr_views(a@);
    let ghost g0 = unit_views(out@);
    start_unit(out, element, a);
    let ghost g1 = unit_views(out@);
    let r = emit_inline_annotations(out, m);
    if r.is_err() {
        return r;
    }
    let ghost g2 = unit_views(out@);
    end_unit(out, element);
    proof {
        lemma_wrap(element@, av, inline_annotations(member_views(m@)), g0, g1, g2, unit_views(out@));
    }
    Ok(())
}

fn emit_type_definition(out: &mut Vec<SyntaxUnit>, name: &str, m: &Vec<(String, JsonValue)>) -> (r: Result<(), ReadError>)
    ensures
        emitted(r, type_definition_units(name@, member_views(m@)), unit_views(old(out)@), unit_views(final(out)@)),
{
    let mut a = name_attrs(name);
    put_attr(&mut a, "UnderlyingType", str_or_empty_of(m, "$UnderlyingType"));
    assert(attr_views(a@) =~= seq![("Name"@, name@), ("UnderlyingType"@, str_or_empty(member_views(m@), "$UnderlyingType"@))]);
    size_attrs_of(&mut a, m);
    bool_add(&mut a, "Unicode", bool_member_of(m, "$Unicode"));
    proof {
        let mv = member_views(m@);
        let u = match str_member(mv, "$UnderlyingType"@) {
            Some(t) => t,
            None => Seq::empty(),
        };
        assert(str_or_empty(mv, "$UnderlyingType"@) == u);
    }
    emit_annotated(out, "TypeDefinition", a, m)
}

/// The strings of an array, in order.
fn string_items_of(arr: &Vec<JsonValue>) -> (r: Vec<String>)
    ensures
        strs(r@) == string_items(json_views(arr@)),
{
    let ghost av = json_views(arr@);
    proof {
        lemma_json_views(arr@);
        assert(av.take(0) =~= Seq::<JsonView>::empty());
    }
    let mut out: Vec<String> = Vec::new();
    let mut i: usize = 0;
    while i < arr.len()
        invariant
            i <= arr@.len(),
            av == json_views(arr@),
            av.len() == arr@.len(),
            forall|j: int| 0 <= j < arr@.len() ==> #[trigger] av[j] == json_view(arr@[j]),
            strs(out@) == string_items(av.take(i as int)),
        decreases arr.len() - i,
    {
        proof {
            assert(av.take(i + 1).drop_last() =~= av.take(i as int));
            assert(av.take(i + 1).last() == av[i as int]);
        }
        match &arr[i] {
            JsonValue::String(s) => {
                let ghost o = out@;
                let x = owned(s.as_str());
                out.push(x);
                proof {
                    crate::text::lemma_strs_push(o, x);
                }
            },
            _ => {},
        }
        i = i + 1;
    }
    assert(av.take(i as int) =~= av);
    out
}

fn emit_term(out: &mut Vec<SyntaxUnit>, name: &str, m: &Vec<(String, JsonValue)>) -> (r: Result<(), ReadError>)
    ensures
        emitted(r, term_units(name@, member_views(m@)), unit_views(old(out)@), unit_views(final(out)@)),
{
    let mut a = name_attrs(name);
    type_attrs_of(&mut a, m);
    opt_add(&mut a, "BaseTerm", str_member_of(m, "$BaseTerm"));
    opt_add(&mut a, "DefaultValue", str_member_of(m, "$DefaultValue"));
    bool_add(&mut a, "Nullable", bool_member_of(m, "$Nullable"));
    size_attrs_of(&mut a, m);
    bool_add(&mut a, "Unicode", bool_member_of(m, "$Unicode"));
    match find(m, "$AppliesTo") {
        Some(JsonValue::Array(arr)) => {
            let items = string_items_of(arr);
            let joined = join_with(&items, " ");
            if crate::text::chars_of(joined.as_str()).len() > 0 {
                put_attr(&mut a, "AppliesTo", joined);
            }
        },
        _ => {},
    }
    emit_annotated(out, "Term", a, m)
}

fn emit_parameter(out: &mut Vec<SyntaxUnit>, pm: &Vec<(String, JsonValue)>) -> (r: Result<(), ReadError>)
    ensures
        emitted(r, parameter_units(member_views(pm@)), unit_views(old(out)@), unit_views(final(out)@)),
{
    let ghost pv = member_views(pm@);
    let mut a = attrs1("Name", str_or_empty_of(pm, "$Name"));
    proof {
        let n = match str_member(pv, "$Name"@) {
            Some(n) => n,
            None => Seq::empty(),
        };
        assert(str_or_empty(pv, "$Name"@) == n);
    }
    type_attrs_of(&mut a, pm);
    bool_add(&mut a, "Nullable", bool_member_of(pm, "$Nullable"));
    size_attrs_of(&mut a, pm);
    bool_add(&mut a, "Unicode", bool_member_of(pm, "$Unicode"));
    opt_add(&mut a, "DefaultValue", str_member_of(pm, "$DefaultValue"));
    emit_annotated(out, "Parameter", a, pm)
}

fn step_parameter(out: &mut Vec<SyntaxUnit>, v: &JsonValue) -> (r: Result<(), ReadError>)
    ensures
        emitted(r, parameter_item()(json_view(*v)), unit_views(old(out)@), unit_views(final(out)@)),
{
    match v {
        JsonValue::Object(pm) => emit_parameter(out, pm),
        _ => Err(csdl_error(owned("expected object at $Parameter[i]"))),
    }
}
fn emit_parameters(out: &mut Vec<SyntaxUnit>, a: &Vec<JsonValue>) -> (r: Result<(), ReadError>)
    ensures
        emitted(r, fold_items(json_views(a@), parameter_item()), unit_views(old(out)@), unit_views(final(out)@)),
{
    let ghost av = json_views(a@);
    let ghost g0 = unit_views(out@);
    proof {
        lemma_json_views(a@);
        assert(av.take(0) =~= Seq::<JsonView>::empty());
        assert(g0 + Seq::<UnitView>::empty() =~= g0);
    }
    let mut i: usize = 0;
    while i < a.len()
        invariant
            i <= a@.len(),
            av == json_views(a@),
            av.len() == a@.len(),
            forall|j: int| 0 <= j < a@.len() ==> #[trigger] av[j] == json_view(a@[j]),
            grew(fold_items(av.take(i as int), parameter_item()), g0, unit_views(out@)),
        decreases a.len() - i,
    {
        let ghost g1 = unit_views(out@);
        let r = step_parameter(out, &a[i]);
        proof {
            assert(av.take(i + 1).drop_last() =~= av.take(i as int));
            assert(av.take(i + 1).last() == av[i as int]);
        }
        if r.is_err() {
            proof {
                lemma_fold_items_err(av, parameter_item(), (i + 1) as nat);
            }
            return r;
        }
        proof {
            lemma_then(fold_items(av.take(i as int), parameter_item()), (parameter_item())(av[i as int]), g0, g1, unit_views(out@));
        }
        i = i + 1;
    }
    assert(av.take(i as int) =~= av);
    Ok(())
}


fn emit_return_type(out: &mut Vec<SyntaxUnit>, rt: &Vec<(String, JsonValue)>) -> (r: Result<(), ReadError>)
    ensures
        emitted(r, return_type_units(member_views(rt@)), unit_views(old(out)@), unit_views(final(out)@)),
{
    let mut a: Vec<(String, String)> = Vec::new();
    assert(attr_views(a@) =~= Seq::<(Seq<char>, Seq<char>)>::empty());
    type_attrs_of(&mut a, rt);
    bool_add(&mut a, "Nullable", bool_member_of(rt, "$Nullable"));
    size_attrs_of(&mut a, rt);
    bool_add(&mut a, "Unicode", bool_member_of(rt, "$Unicode"));
    emit_annotated(out, "ReturnType", a, rt)
}

/// A `Function` or `Action` overload (see [`callable_units`]).
fn emit_callable(out: &mut Vec<SyntaxUnit>, element: &str, name: &str, m: &Vec<(String, JsonValue)>) -> (r: Result<(), ReadError>)
    ensures
        emitted(r, callable_units(element@, name@, member_views(m@)), unit_views(old(out)@), unit_views(final(out)@)),
{
    let ghost mv = member_views(m@);
    let mut a = name_attrs(name);
    bool_add(&mut a, "IsBound", bool_member_of(m, "$IsBound"));
    opt_add(&mut a, "EntitySetPath", str_member_of(m, "$EntitySetPath"));
    if str_eq(element, "Function") {
        bool_add(&mut a, "IsComposable", bool_member_of(m, "$IsComposable"));
    }
    let ghost av = attr_views(a@);
    let ghost g0 = unit_views(out@);
    start_unit(out, element, a);
    let ghost g1 = unit_views(out@);
    let ghost params = match member(mv, "$Parameter"@) {
        Some(JsonView::Array(arr)) => fold_items(arr, parameter_item()),
        _ => Ok(Seq::<UnitView>::empty()),
    };
    let ghost rtu = match member(mv, "$ReturnType"@) {
        Some(JsonView::Object(r)) => return_type_units(r),
        _ => Ok(Seq::<UnitView>::empty()),
    };
    match find(m, "$Parameter") {
        Some(JsonValue::Array(arr)) => {
            let r = emit_parameters(out, arr);
            if r.is_err() {
                return r;
            }
        },
        _ => {
            assert(g1 + Seq::<UnitView>::empty() =~= g1);
        },
    }
    let ghost g2 = unit_views(out@);
    match find(m, "$ReturnType") {
        Some(JsonValue::Object(rt)) => {
            let r = emit_return_type(out, rt);
            if r.is_err() {
                return r;
            }
        },
        _ => {
            assert(g2 + Seq::<UnitView>::empty() =~= g2);
        },
    }
    let ghost g3 = unit_views(out@);
    end_unit(out, element);
    proof {
        lemma_then(params, rtu, g1, g2, g3);
        lemma_wrap(element@, av, then(params, rtu), g0, g1, g3, unit_views(out@));
    }
    Ok(())
}

fn step_binding(out: &mut Vec<SyntaxUnit>, k: &str, v: &JsonValue) -> (r: Result<(), ReadError>)
    ensures
        emitted(r, binding_step()((k@, json_view(*v))), unit_views(old(out)@), unit_views(final(out)@)),
{
    match v {
        JsonValue::String(s) => {
            let mut a = attrs1("Path", owned(k));
            put_attr(&mut a, "Target", owned(s.as_str()));
            assert(attr_views(a@) =~= seq![("Path"@, k@), ("Target"@, s@)]);
            leaf_unit(out, "NavigationPropertyBinding", a);
        },
        _ => {
            assert(unit_views(out@) + Seq::<UnitView>::empty() =~= unit_views(out@));
        },
    }
    Ok(())
}
fn emit_bindings(out: &mut Vec<SyntaxUnit>, m: &Vec<(String, JsonValue)>) -> (r: Result<(), ReadError>)
    ensures
        emitted(r, fold_units(member_views(m@), binding_step()), unit_views(old(out)@), unit_views(final(out)@)),
{
    let ghost mv = member_views(m@);
    let ghost g0 = unit_views(out@);
    proof {
        lemma_member_views(m@);
        assert(mv.take(0) =~= Seq::<(Seq<char>, JsonView)>::empty());
        assert(g0 + Seq::<UnitView>::empty() =~= g0);
    }
    let mut i: usize = 0;
    while i < m.len()
        invariant
            i <= m@.len(),
            mv == member_views(m@),
            mv.len() == m@.len(),
            forall|j: int| 0 <= j < m@.len() ==> #[trigger] mv[j] == (m@[j].0@, json_view(m@[j].1)),
            grew(fold_units(mv.take(i as int), binding_step()), g0, unit_views(out@)),
        decreases m.len() - i,
    {
        let ghost g1 = unit_views(out@);
        let r = step_binding(out, m[i].0.as_str(), &m[i].1);
        proof {
            assert(mv.take(i + 1).drop_last() =~= mv.take(i as int));
            assert(mv.take(i + 1).last() == mv[i as int]);
        }
        if r.is_err() {
            proof {
                lemma_fold_units_err(mv, binding_step(), (i + 1) as nat);
            }
            return r;
        }
        proof {
            lemma_then(fold_units(mv.take(i as int), binding_step()), (binding_step())(mv[i as int]), g0, g1, unit_views(out@));
        }
        i = i + 1;
    }
    assert(mv.take(i as int) =~= mv);
    Ok(())
}


/// A function or action import: a leaf naming its target.
fn emit_import(out: &mut Vec<SyntaxUnit>, element: &str, key: &str, name: &str, target: String, m: &Vec<(String, JsonValue)>)
    ensures
        unit_views(final(out)@) == unit_views(old(out)@) + leaf(
            element@,
            bool_attr(
                opt_attr(seq![("Name"@, name@), (key@, target@)], "EntitySet"@, str_member(member_views(m@), "$EntitySet"@)),
                "IncludeInServiceDocument"@,
                bool_member(member_views(m@), "$IncludeInServiceDocument"@),
            ),
        ),
{
    let mut a = name_attrs(name);
    put_attr(&mut a, key, target);
    assert(attr_views(a@) =~= seq![("Name"@, name@), (key@, target@)]);
    opt_add(&mut a, "EntitySet", str_member_of(m, "$EntitySet"));
    bool_add(&mut a, "IncludeInServiceDocument", bool_member_of(m, "$IncludeInServiceDocument"));
    leaf_unit(out, element, a);
}

fn emit_container_child(out: &mut Vec<SyntaxUnit>, name: &str, m: &Vec<(String, JsonValue)>) -> (r: Result<(), ReadError>)
    ensures
        emitted(r, container_child_units(name@, member_views(m@)), unit_views(old(out)@), unit_views(final(out)@)),
{
    let ghost mv = member_views(m@);
    match str_member_of(m, "$Function") {
        Some(f) => {
            emit_import(out, "FunctionImport", "Function", name, f, m);
            return Ok(());
        },
        None => {},
    }
    match str_member_of(m, "$Action") {
        Some(ac) => {
            emit_import(out, "ActionImport", "Action", name, ac, m);
            return Ok(());
        },
        None => {},
    }
    let set = match bool_member_of(m, "$Collection") {
        Some(true) => true,
        _ => false,
    };
    let kind = if set {
        "EntitySet"
    } else {
        "Singleton"
    };
    let tkey = if set {
        "EntityType"
    } else {
        "Type"
    };
    let mut a = name_attrs(name);
    opt_add(&mut a, tkey, str_member_of(m, "$Type"));
    bool_add(&mut a, "IncludeInServiceDocument", bool_member_of(m, "$IncludeInServiceDocument"));
    let ghost av = attr_views(a@);
    let ghost g0 = unit_views(out@);
    start_unit(out, kind, a);
    let ghost g1 = unit_views(out@);
    let ghost bindings = match member(mv, "$NavigationPropertyBinding"@) {
        Some(JsonView::Object(b)) => fold_units(b, binding_step()),
        _ => Ok(Seq::<UnitView>::empty()),
    };
    match find(m, "$NavigationPropertyBinding") {
        Some(JsonValue::Object(b)) => {
            let r = emit_bindings(out, b);
            if r.is_err() {
                return r;
            }
        },
        _ => {
            assert(g1 + Seq::<UnitView>::empty() =~= g1);
        },
    }
    let ghost g2 = unit_views(out@);
    let r = emit_inline_annotations(out, m);
    if r.is_err() {
        return r;
    }
    let ghost g3 = unit_views(out@);
    end_unit(out, kind);
    proof {
        lemma_then(bindings, inline_annotations(mv), g1, g2, g3);
        lemma_wrap(kind@, av, then(bindings, inline_annotations(mv)), g0, g1, g3, unit_views(out@));
    }
    Ok(())
}

fn step_container_child(out: &mut Vec<SyntaxUnit>, k: &str, v: &JsonValue) -> (r: Result<(), ReadError>)
    ensures
        emitted(r, container_child_step()((k@, json_view(*v))), unit_views(old(out)@), unit_views(final(out)@)),
{
    if is_plain(k) {
        match v {
            JsonValue::Object(inner) => {
                return emit_container_child(out, k, inner);
            },
            _ => {},
        }
    }
    assert(unit_views(out@) + Seq::<UnitView>::empty() =~= unit_views(out@));
    Ok(())
}
fn emit_container_children(out: &mut Vec<SyntaxUnit>, m: &Vec<(String, JsonValue)>) -> (r: Result<(), ReadError>)
    ensures
        emitted(r, fold_units(member_views(m@), container_child_step()), unit_views(old(out)@), unit_views(final(out)@)),
{
    let ghost mv = member_views(m@);
    let ghost g0 = unit_views(out@);
    proof {
        lemma_member_views(m@);
        assert(mv.take(0) =~= Seq::<(Seq<char>, JsonView)>::empty());
        assert(g0 + Seq::<UnitView>::empty() =~= g0);
    }
    let mut i: usize = 0;
    while i < m.len()
        invariant
            i <= m@.len(),
            mv == member_views(m@),
            mv.len() == m@.len(),
            forall|j: int| 0 <= j < m@.len() ==> #[trigger] mv[j] == (m@[j].0@, json_view(m@[j].1)),
            grew(fold_units(mv.take(i as int), container_child_step()), g0, unit_views(out@)),
        decreases m.len() - i,
    {
        let ghost g1 = unit_views(out@);
        let r = step_container_child(out, m[i].0.as_str(), &m[i].1);
        proof {
            assert(mv.take(i + 1).drop_last() =~= mv.take(i as int));
            assert(mv.take(i + 1).last() == mv[i as int]);
        }
        if r.is_err() {
            proof {
                lemma_fold_units_err(mv, container_child_step(), (i + 1) as nat);
            }
            return r;
        }
        proof {
            lemma_then(fold_units(mv.take(i as int), container_child_step()), (container_child_step())(mv[i as int]), g0, g1, unit_views(out@));
        }
        i = i + 1;
    }
    assert(mv.take(i as int) =~= mv);
    Ok(())
}


fn emit_entity_container(out: &mut Vec<SyntaxUnit>, name: &str, m: &Vec<(String, JsonValue)>) -> (r: Result<(), ReadError>)
    ensures
        emitted(r, container_units(name@, member_views(m@)), unit_views(old(out)@), unit_views(final(out)@)),
{
    let ghost mv = member_views(m@);
    let mut a = name_attrs(name);
    opt_add(&mut a, "Extends", str_member_of(m, "$Extends"));
    let ghost av = attr_views(a@);
    let ghost g0 = unit_views(out@);
    start_unit(out, "EntityContainer", a);
    let ghost g1 = unit_views(out@);
    let r = emit_container_children(out, m);
    if r.is_err() {
        return r;
    }
    let ghost g2 = unit_views(out@);
    let r = emit_inline_annotations(out, m);
    if r.is_err() {
        return r;
    }
    let ghost g3 = unit_views(out@);
    end_unit(out, "EntityContainer");
    proof {
        lemma_then(fold_units(mv, container_child_step()), inline_annotations(mv), g1, g2, g3);
        lemma_wrap("EntityContainer"@, av, then(fold_units(mv, container_child_step()), inline_annotations(mv)), g0, g1, g3, unit_views(out@));
    }
    Ok(())
}

/// A schema member by its `$Kind` (see [`schema_member_units`]).
fn emit_schema_member(out: &mut Vec<SyntaxUnit>, name: &str, m: &Vec<(String, JsonValue)>) -> (r: Result<(), ReadError>)
    ensures
        emitted(r, schema_member_units(name@, member_views(m@)), unit_views(old(out)@), unit_views(final(out)@)),
{
    match str_member_of(m, "$Kind") {
        None => emit_entity_type(out, name, m),
        Some(k) => {
            let k = k.as_str();
            if str_eq(k, "EntityType") {
                emit_entity_type(out, name, m)
            } else if str_eq(k, "ComplexType") {
                emit_complex_type(out, name, m)
            } else if str_eq(k, "EnumType") {
                emit_enum_type(out, name, m)
            } else if str_eq(k, "TypeDefinition") {
                emit_type_definition(out, name, m)
            } else if str_eq(k, "Term") {
                emit_term(out, name, m)
            } else if str_eq(k, "EntityContainer") {
                emit_entity_container(out, name, m)
            } else if str_eq(k, "Function") {
                emit_callable(out, "Function", name, m)
            } else if str_eq(k, "Action") {
                emit_callable(out, "Action", name, m)
            } else {
                assert(unit_views(out@) + Seq::<UnitView>::empty() =~= unit_views(out@));
                Ok(())
            }
        },
    }
}

fn step_overload(out: &mut Vec<SyntaxUnit>, v: &JsonValue, name: &str) -> (r: Result<(), ReadError>)
    ensures
        emitted(r, overload_item(name@)(json_view(*v)), unit_views(old(out)@), unit_views(final(out)@)),
{
    match v {
        JsonValue::Object(om) => emit_schema_member(out, name, om),
        _ => Err(csdl_error(concat("expected object at ", name))),
    }
}
fn emit_overloads(out: &mut Vec<SyntaxUnit>, a: &Vec<JsonValue>, name: &str) -> (r: Result<(), ReadError>)
    ensures
        emitted(r, fold_items(json_views(a@), overload_item(name@)), unit_views(old(out)@), unit_views(final(out)@)),
{
    let ghost av = json_views(a@);
    let ghost g0 = unit_views(out@);
    proof {
        lemma_json_views(a@);
        assert(av.take(0) =~= Seq::<JsonView>::empty());
        assert(g0 + Seq::<UnitView>::empty() =~= g0);
    }
    let mut i: usize = 0;
    while i < a.len()
        invariant
            i <= a@.len(),
            av == json_views(a@),
            av.len() == a@.len(),
            forall|j: int| 0 <= j < a@.len() ==> #[trigger] av[j] == json_view(a@[j]),
            grew(fold_items(av.take(i as int), overload_item(name@)), g0, unit_views(out@)),
        decreases a.len() - i,
    {
        let ghost g1 = unit_views(out@);
        let r = step_overload(out, &a[i], name);
        proof {
            assert(av.take(i + 1).drop_last() =~= av.take(i as int));
            assert(av.take(i + 1).last() == av[i as int]);
        }
        if r.is_err() {
            proof {
                lemma_fold_items_err(av, overload_item(name@), (i + 1) as nat);
            }
            return r;
        }
        proof {
            lemma_then(fold_items(av.take(i as int), overload_item(name@)), (overload_item(name@))(av[i as int]), g0, g1, unit_views(out@));
        }
        i = i + 1;
    }
    assert(av.take(i as int) =~= av);
    Ok(())
}


fn step_schema_member(out: &mut Vec<SyntaxUnit>, k: &str, v: &JsonValue) -> (r: Result<(), ReadError>)
    ensures
        emitted(r, schema_member_step()((k@, json_view(*v))), unit_views(old(out)@), unit_views(final(out)@)),
{
    if is_plain(k) {
        match v {
            JsonValue::Array(os) => {
                return emit_overloads(out, os, k);
            },
            JsonValue::Object(inner) => {
                return emit_schema_member(out, k, inner);
            },
            _ => {},
        }
    }
    assert(unit_views(out@) + Seq::<UnitView>::empty() =~= unit_views(out@));
    Ok(())
}
fn emit_schema_members(out: &mut Vec<SyntaxUnit>, m: &Vec<(String, JsonValue)>) -> (r: Result<(), ReadError>)
    ensures
        emitted(r, fold_units(member_views(m@), schema_member_step()), unit_views(old(out)@), unit_views(final(out)@)),
{
    let ghost mv = member_views(m@);
    let ghost g0 = unit_views(out@);
    proof {
        lemma_member_views(m@);
        assert(mv.take(0) =~= Seq::<(Seq<char>, JsonView)>::empty());
        assert(g0 + Seq::<UnitView>::empty() =~= g0);
    }
    let mut i: usize = 0;
    while i < m.len()
        invariant
            i <= m@.len(),
            mv == member_views(m@),
            mv.len() == m@.len(),
            forall|j: int| 0 <= j < m@.len() ==> #[trigger] mv[j] == (m@[j].0@, json_view(m@[j].1)),
            grew(fold_units(mv.take(i as int), schema_member_step()), g0, unit_views(out@)),
        decreases m.len() - i,
    {
        let ghost g1 = unit_views(out@);
        let r = step_schema_member(out, m[i].0.as_str(), &m[i].1);
        proof {
            assert(mv.take(i + 1).drop_last() =~= mv.take(i as int));
            assert(mv.take(i + 1).last() == mv[i as int]);
        }
        if r.is_err() {
            proof {
                lemma_fold_units_err(mv, schema_member_step(), (i + 1) as nat);
            }
            return r;
        }
        proof {
            lemma_then(fold_units(mv.take(i as int), schema_member_step()), (schema_member_step())(mv[i as int]), g0, g1, unit_views(out@));
        }
        i = i + 1;
    }
    assert(mv.take(i as int) =~= mv);
    Ok(())
}


fn step_schema_ann(out: &mut Vec<SyntaxUnit>, k: &str, v: &JsonValue) -> (r: Result<(), ReadError>)
    ensures
        emitted(r, schema_ann_step()((k@, json_view(*v))), unit_views(old(out)@), unit_views(final(out)@)),
{
    if !begins_with(k, '$') && has_char(k, '@') {
        emit_annotation(out, k, v)
    } else {
        assert(unit_views(out@) + Seq::<UnitView>::empty() =~= unit_views(out@));
        Ok(())
    }
}
fn emit_schema_annotations(out: &mut Vec<SyntaxUnit>, m: &Vec<(String, JsonValue)>) -> (r: Result<(), ReadError>)
    ensures
        emitted(r, fold_units(member_views(m@), schema_ann_step()), unit_views(old(out)@), unit_views(final(out)@)),
{
    let ghost mv = member_views(m@);
    let ghost g0 = unit_views(out@);
    proof {
        lemma_member_views(m@);
        assert(mv.take(0) =~= Seq::<(Seq<char>, JsonView)>::empty());
        assert(g0 + Seq::<UnitView>::empty() =~= g0);
    }
    let mut i: usize = 0;
    while i < m.len()
        invariant
            i <= m@.len(),
            mv == member_views(m@),
            mv.len() == m@.len(),
            forall|j: int| 0 <= j < m@.len() ==> #[trigger] mv[j] == (m@[j].0@, json_view(m@[j].1)),
            grew(fold_units(mv.take(i as int), schema_ann_step()), g0, unit_views(out@)),
        decreases m.len() - i,
    {
        let ghost g1 = unit_views(out@);
        let r = step_schema_ann(out, m[i].0.as_str(), &m[i].1);
        proof {
            assert(mv.take(i + 1).drop_last() =~= mv.take(i as int));
            assert(mv.take(i + 1).last() == mv[i as int]);
        }
        if r.is_err() {
            proof {
                lemma_fold_units_err(mv, schema_ann_step(), (i + 1) as nat);
            }
            return r;
        }
        proof {
            lemma_then(fold_units(mv.take(i as int), schema_ann_step()), (schema_ann_step())(mv[i as int]), g0, g1, unit_views(out@));
        }
        i = i + 1;
    }
    assert(mv.take(i as int) =~= mv);
    Ok(())
}


fn emit_schema(out: &mut Vec<SyntaxUnit>, ns: &str, m: &Vec<(String, JsonValue)>) -> (r: Result<(), ReadError>)
    ensures
        emitted(r, schema_units(ns@, member_views(m@)), unit_views(old(out)@), unit_views(final(out)@)),
{
    let ghost mv = member_views(m@);
    let mut a = attrs1("Namespace", owned(ns));
    opt_add(&mut a, "Alias", str_member_of(m, "$Alias"));
    let ghost av = attr_views(a@);
    let ghost g0 = unit_views(out@);
    start_unit(out, "Schema", a);
    let ghost g1 = unit_views(out@);
    let r = emit_schema_members(out, m);
    if r.is_err() {
        return r;
    }
    let ghost g2 = unit_views(out@);
    let r = emit_schema_annotations(out, m);
    if r.is_err() {
        return r;
    }
    let ghost g3 = unit_views(out@);
    end_unit(out, "Schema");
    proof {
        lemma_then(fold_units(mv, schema_member_step()), fold_units(mv, schema_ann_step()), g1, g2, g3);
        lemma_wrap("Schema"@, av, then(fold_units(mv, schema_member_step()), fold_units(mv, schema_ann_step())), g0, g1, g3, unit_views(out@));
    }
    Ok(())
}

fn step_include_ann(out: &mut Vec<SyntaxUnit>, k: &str, v: &JsonValue) -> (r: Result<(), ReadError>)
    ensures
        emitted(r, include_ann_step()((k@, json_view(*v))), unit_views(old(out)@), unit_views(final(out)@)),
{
    if begins_with(k, '@') {
        emit_annotation(out, k, v)
    } else {
        assert(unit_views(out@) + Seq::<UnitView>::empty() =~= unit_views(out@));
        Ok(())
    }
}
fn emit_include_annotations(out: &mut Vec<SyntaxUnit>, m: &Vec<(String, JsonValue)>) -> (r: Result<(), ReadError>)
    ensures
        emitted(r, fold_units(member_views(m@), include_ann_step()), unit_views(old(out)@), unit_views(final(out)@)),
{
    let ghost mv = member_views(m@);
    let ghost g0 = unit_views(out@);
    proof {
        lemma_member_views(m@);
        assert(mv.take(0) =~= Seq::<(Seq<char>, JsonView)>::empty());
        assert(g0 + Seq::<UnitView>::empty() =~= g0);
    }
    let mut i: usize = 0;
    while i < m.len()
        invariant
            i <= m@.len(),
            mv == member_views(m@),
            mv.len() == m@.len(),
            forall|j: int| 0 <= j < m@.len() ==> #[trigger] mv[j] == (m@[j].0@, json_view(m@[j].1)),
            grew(fold_units(mv.take(i as int), include_ann_step()), g0, unit_views(out@)),
        decreases m.len() - i,
    {
        let ghost g1 = unit_views(out@);
        let r = step_include_ann(out, m[i].0.as_str(), &m[i].1);
        proof {
            assert(mv.take(i + 1).drop_last() =~= mv.take(i as int));
            assert(mv.take(i + 1).last() == mv[i as int]);
        }
        if r.is_err() {
            proof {
                lemma_fold_units_err(mv, include_ann_step(), (i + 1) as nat);
            }
            return r;
        }
        proof {
            lemma_then(fold_units(mv.take(i as int), include_ann_step()), (include_ann_step())(mv[i as int]), g0, g1, unit_views(out@));
        }
        i = i + 1;
    }
    assert(mv.take(i as int) =~= mv);
    Ok(())
}


fn emit_include(out: &mut Vec<SyntaxUnit>, im: &Vec<(String, JsonValue)>) -> (r: Result<(), ReadError>)
    ensures
        emitted(r, include_units(member_views(im@)), unit_views(old(out)@), unit_views(final(out)@)),
{
    let ghost mv = member_views(im@);
    let mut a = attrs1("Namespace", str_or_empty_of(im, "$Namespace"));
    proof {
        let n = match str_member(mv, "$Namespace"@) {
            Some(n) => n,
            None => Seq::empty(),
        };
        assert(str_or_empty(mv, "$Namespace"@) == n);
    }
    opt_add(&mut a, "Alias", str_member_of(im, "$Alias"));
    let ghost av = attr_views(a@);
    let ghost g0 = unit_views(out@);
    start_unit(out, "Include", a);
    let ghost g1 = unit_views(out@);
    let r = emit_include_annotations(out, im);
    if r.is_err() {
        return r;
    }
    let ghost g2 = unit_views(out@);
    end_unit(out, "Include");
    proof {
        lemma_wrap("Include"@, av, fold_units(mv, include_ann_step()), g0, g1, g2, unit_views(out@));
    }
    Ok(())
}

fn step_include(out: &mut Vec<SyntaxUnit>, v: &JsonValue) -> (r: Result<(), ReadError>)
    ensures
        emitted(r, include_item()(json_view(*v)), unit_views(old(out)@), unit_views(final(out)@)),
{
    match v {
        JsonValue::Object(im) => emit_include(out, im),
        _ => Err(csdl_error(owned("expected object at $Include[i]"))),
    }
}
fn emit_includes(out: &mut Vec<SyntaxUnit>, a: &Vec<JsonValue>) -> (r: Result<(), ReadError>)
    ensures
        emitted(r, fold_items(json_views(a@), include_item()), unit_views(old(out)@), unit_views(final(out)@)),
{
    let ghost av = json_views(a@);
    let ghost g0 = unit_views(out@);
    proof {
        lemma_json_views(a@);
        assert(av.take(0) =~= Seq::<JsonView>::empty());
        assert(g0 + Seq::<UnitView>::empty() =~= g0);
    }
    let mut i: usize = 0;
    while i < a.len()
        invariant
            i <= a@.len(),
            av == json_views(a@),
            av.len() == a@.len(),
            forall|j: int| 0 <= j < a@.len() ==> #[trigger] av[j] == json_view(a@[j]),
            grew(fold_items(av.take(i as int), include_item()), g0, unit_views(out@)),
        decreases a.len() - i,
    {
        let ghost g1 = unit_views(out@);
        let r = step_include(out, &a[i]);
        proof {
            assert(av.take(i + 1).drop_last() =~= av.take(i as int));
            assert(av.take(i + 1).last() == av[i as int]);
        }
        if r.is_err() {
            proof {
                lemma_fold_items_err(av, include_item(), (i + 1) as nat);
            }
            return r;
        }
        proof {
            lemma_then(fold_items(av.take(i as int), include_item()), (include_item())(av[i as int]), g0, g1, unit_views(out@));
        }
        i = i + 1;
    }
    assert(av.take(i as int) =~= av);
    Ok(())
}


fn step_include_annotations(out: &mut Vec<SyntaxUnit>, v: &JsonValue) -> (r: Result<(), ReadError>)
    ensures
        emitted(r, include_annotations_item()(json_view(*v)), unit_views(old(out)@), unit_views(final(out)@)),
{
    match v {
        JsonValue::Object(o) => {
            let ghost ov = member_views(o@);
            let mut a = attrs1("TermNamespace", str_or_empty_of(o, "$TermNamespace"));
            proof {
                let t = match str_member(ov, "$TermNamespace"@) {
                    Some(t) => t,
                    None => Seq::empty(),
                };
                assert(str_or_empty(ov, "$TermNamespace"@) == t);
            }
            opt_add(&mut a, "Qualifier", str_member_of(o, "$Qualifier"));
            opt_add(&mut a, "TargetNamespace", str_member_of(o, "$TargetNamespace"));
            leaf_unit(out, "IncludeAnnotations", a);
            Ok(())
        },
        _ => Err(csdl_error(owned("expected object at $IncludeAnnotations[i]"))),
    }
}
fn emit_include_annotations_list(out: &mut Vec<SyntaxUnit>, a: &Vec<JsonValue>) -> (r: Result<(), ReadError>)
    ensures
        emitted(r, fold_items(json_views(a@), include_annotations_item()), unit_views(old(out)@), unit_views(final(out)@)),
{
    let ghost av = json_views(a@);
    let ghost g0 = unit_views(out@);
    proof {
        lemma_json_views(a@);
        assert(av.take(0) =~= Seq::<JsonView>::empty());
        assert(g0 + Seq::<UnitView>::empty() =~= g0);
    }
    let mut i: usize = 0;
    while i < a.len()
        invariant
            i <= a@.len(),
            av == json_views(a@),
            av.len() == a@.len(),
            forall|j: int| 0 <= j < a@.len() ==> #[trigger] av[j] == json_view(a@[j]),
            grew(fold_items(av.take(i as int), include_annotations_item()), g0, unit_views(out@)),
        decreases a.len() - i,
    {
        let ghost g1 = unit_views(out@);
        let r = step_include_annotations(out, &a[i]);
        proof {
            assert(av.take(i + 1).drop_last() =~= av.take(i as int));
            assert(av.take(i + 1).last() == av[i as int]);
        }
        if r.is_err() {
            proof {
                lemma_fold_items_err(av, include_annotations_item(), (i + 1) as nat);
            }
            return r;
        }
        proof {
            lemma_then(fold_items(av.take(i as int), include_annotations_item()), (include_annotations_item())(av[i as int]), g0, g1, unit_views(out@));
        }
        i = i + 1;
    }
    assert(av.take(i as int) =~= av);
    Ok(())
}


fn step_reference_body(out: &mut Vec<SyntaxUnit>, k: &str, v: &JsonValue) -> (r: Result<(), ReadError>)
    ensures
        emitted(r, reference_body_step()((k@, json_view(*v))), unit_views(old(out)@), unit_views(final(out)@)),
{
    if str_eq(k, "$Include") {
        match v {
            JsonValue::Array(a) => emit_includes(out, a),
            _ => Err(csdl_error(owned("$Include must be an array"))),
        }
    } else if str_eq(k, "$IncludeAnnotations") {
        match v {
            JsonValue::Array(a) => emit_include_annotations_list(out, a),
            _ => Err(csdl_error(owned("$IncludeAnnotations must be an array"))),
        }
    } else if begins_with(k, '@') {
        emit_annotation(out, k, v)
    } else {
        assert(unit_views(out@) + Seq::<UnitView>::empty() =~= unit_views(out@));
        Ok(())
    }
}
fn emit_reference_body(out: &mut Vec<SyntaxUnit>, m: &Vec<(String, JsonValue)>) -> (r: Result<(), ReadError>)
    ensures
        emitted(r, fold_units(member_views(m@), reference_body_step()), unit_views(old(out)@), unit_views(final(out)@)),
{
    let ghost mv = member_views(m@);
    let ghost g0 = unit_views(out@);
    proof {
        lemma_member_views(m@);
        assert(mv.take(0) =~= Seq::<(Seq<char>, JsonView)>::empty());
        assert(g0 + Seq::<UnitView>::empty() =~= g0);
    }
    let mut i: usize = 0;
    while i < m.len()
        invariant
            i <= m@.len(),
            mv == member_views(m@),
            mv.len() == m@.len(),
            forall|j: int| 0 <= j < m@.len() ==> #[trigger] mv[j] == (m@[j].0@, json_view(m@[j].1)),
            grew(fold_units(mv.take(i as int), reference_body_step()), g0, unit_views(out@)),
        decreases m.len() - i,
    {
        let ghost g1 = unit_views(out@);
        let r = step_reference_body(out, m[i].0.as_str(), &m[i].1);
        proof {
            assert(mv.take(i + 1).drop_last() =~= mv.take(i as int));
            assert(mv.take(i + 1).last() == mv[i as int]);
        }
        if r.is_err() {
            proof {
                lemma_fold_units_err(mv, reference_body_step(), (i + 1) as nat);
            }
            return r;
        }
        proof {
            lemma_then(fold_units(mv.take(i as int), reference_body_step()), (reference_body_step())(mv[i as int]), g0, g1, unit_views(out@));
        }
        i = i + 1;
    }
    assert(mv.take(i as int) =~= mv);
    Ok(())
}


fn step_reference(out: &mut Vec<SyntaxUnit>, k: &str, v: &JsonValue) -> (r: Result<(), ReadError>)
    ensures
        emitted(r, reference_step()((k@, json_view(*v))), unit_views(old(out)@), unit_views(final(out)@)),
{
    match v {
        JsonValue::Object(body) => {
            let a = attrs1("Uri", owned(k));
            let ghost av = attr_views(a@);
            let ghost g0 = unit_views(out@);
            start_unit(out, "Reference", a);
            let ghost g1 = unit_views(out@);
            let r = emit_reference_body(out, body);
            if r.is_err() {
                return r;
            }
            let ghost g2 = unit_views(out@);
            end_unit(out, "Reference");
            proof {
                lemma_wrap("Reference"@, av, fold_units(member_views(body@), reference_body_step()), g0, g1, g2, unit_views(out@));
            }
            Ok(())
        },
        _ => Err(csdl_error(concat("expected object at ", k))),
    }
}
fn emit_references(out: &mut Vec<SyntaxUnit>, m: &Vec<(String, JsonValue)>) -> (r: Result<(), ReadError>)
    ensures
        emitted(r, fold_units(member_views(m@), reference_step()), unit_views(old(out)@), unit_views(final(out)@)),
{
    let ghost mv = member_views(m@);
    let ghost g0 = unit_views(out@);
    proof {
        lemma_member_views(m@);
        assert(mv.take(0) =~= Seq::<(Seq<char>, JsonView)>::empty());
        assert(g0 + Seq::<UnitView>::empty() =~= g0);
    }
    let mut i: usize = 0;
    while i < m.len()
        invariant
            i <= m@.len(),
            mv == member_views(m@),
            mv.len() == m@.len(),
            forall|j: int| 0 <= j < m@.len() ==> #[trigger] mv[j] == (m@[j].0@, json_view(m@[j].1)),
            grew(fold_units(mv.take(i as int), reference_step()), g0, unit_views(out@)),
        decreases m.len() - i,
    {
        let ghost g1 = unit_views(out@);
        let r = step_reference(out, m[i].0.as_str(), &m[i].1);
        proof {
            assert(mv.take(i + 1).drop_last() =~= mv.take(i as int));
            assert(mv.take(i + 1).last() == mv[i as int]);
        }
        if r.is_err() {
            proof {
                lemma_fold_units_err(mv, reference_step(), (i + 1) as nat);
            }
            return r;
        }
        proof {
            lemma_then(fold_units(mv.take(i as int), reference_step()), (reference_step())(mv[i as int]), g0, g1, unit_views(out@));
        }
        i = i + 1;
    }
    assert(mv.take(i as int) =~= mv);
    Ok(())
}


fn step_schema(out: &mut Vec<SyntaxUnit>, k: &str, v: &JsonValue) -> (r: Result<(), ReadError>)
    ensures
        emitted(r, schema_step()((k@, json_view(*v))), unit_views(old(out)@), unit_views(final(out)@)),
{
    if begins_with(k, '$') || begins_with(k, '@') {
        assert(unit_views(out@) + Seq::<UnitView>::empty() =~= unit_views(out@));
        Ok(())
    } else {
        match v {
            JsonValue::Object(sm) => emit_schema(out, k, sm),
            _ => Err(csdl_error(concat("expected object at ", k))),
        }
    }
}
fn emit_schemas(out: &mut Vec<SyntaxUnit>, m: &Vec<(String, JsonValue)>) -> (r: Result<(), ReadError>)
    ensures
        emitted(r, fold_units(member_views(m@), schema_step()), unit_views(old(out)@), unit_views(final(out)@)),
{
    let ghost mv = member_views(m@);
    let ghost g0 = unit_views(out@);
    proof {
        lemma_member_views(m@);
        assert(mv.take(0) =~= Seq::<(Seq<char>, JsonView)>::empty());
        assert(g0 + Seq::<UnitView>::empty() =~= g0);
    }
    let mut i: usize = 0;
    while i < m.len()
        invariant
            i <= m@.len(),
            mv == member_views(m@),
            mv.len() == m@.len(),
            forall|j: int| 0 <= j < m@.len() ==> #[trigger] mv[j] == (m@[j].0@, json_view(m@[j].1)),
            grew(fold_units(mv.take(i as int), schema_step()), g0, unit_views(out@)),
        decreases m.len() - i,
    {
        let ghost g1 = unit_views(out@);
        let r = step_schema(out, m[i].0.as_str(), &m[i].1);
        proof {
            assert(mv.take(i + 1).drop_last() =~= mv.take(i as int));
            assert(mv.take(i + 1).last() == mv[i as int]);
        }
        if r.is_err() {
            proof {
                lemma_fold_units_err(mv, schema_step(), (i + 1) as nat);
            }
            return r;
        }
        proof {
            lemma_then(fold_units(mv.take(i as int), schema_step()), (schema_step())(mv[i as int]), g0, g1, unit_views(out@));
        }
        i = i + 1;
    }
    assert(mv.take(i as int) =~= mv);
    Ok(())
}


fn emit_edmx(out: &mut Vec<SyntaxUnit>, root: &Vec<(String, JsonValue)>) -> (r: Result<(), ReadError>)
    ensures
        emitted(r, edmx_units(member_views(root@)), unit_views(old(out)@), unit_views(final(out)@)),
{
    let ghost rv = member_views(root@);
    let version = match str_member_of(root, "$Version") {
        Some(v) => v,
        None => owned("4.01"),
    };
    let a = attrs1("Version", version);
    let ghost av = attr_views(a@);
    let ghost g0 = unit_views(out@);
    start_unit(out, "Edmx", a);
    let ghost g1 = unit_views(out@);
    let ghost refs = match member(rv, "$Reference"@) {
        Some(JsonView::Object(r)) => fold_units(r, reference_step()),
        Some(_) => Err("expected object at $Reference"@),
        None => Ok(Seq::<UnitView>::empty()),
    };
    match find(root, "$Reference") {
        Some(JsonValue::Object(r)) => {
            let res = emit_references(out, r);
            if res.is_err() {
                return res;
            }
        },
        Some(_) => {
            return Err(csdl_error(owned("expected object at $Reference")));
        },
        None => {
            assert(g1 + Seq::<UnitView>::empty() =~= g1);
        },
    }
    let ghost g2 = unit_views(out@);
    let r = emit_schemas(out, root);
    if r.is_err() {
        return r;
    }
    let ghost g3 = unit_views(out@);
    end_unit(out, "Edmx");
    proof {
        lemma_then(refs, fold_units(rv, schema_step()), g1, g2, g3);
        lemma_wrap("Edmx"@, av, then(refs, fold_units(rv, schema_step())), g0, g1, g3, unit_views(out@));
    }
    Ok(())
}

impl View for JsonCsdlReader {
    type V = JsonView;

    closed spec fn view(&self) -> JsonView {
        json_view(self.value)
    }
}

impl JsonCsdlReader {
    /// A reader of the given document.
    pub fn new(value: JsonValue) -> (r: Self)
        ensures
            r@ == json_view(value),
    {
        JsonCsdlReader { value }
    }

    /// The syntax units of the whole document (see [`document_units`]); the
    /// error is the first that [`document_units`] meets.
    pub fn into_units(self) -> (r: Result<Vec<SyntaxUnit>, ReadError>)
        ensures
            match r {
                Ok(v) => document_units(self@) == Ok::<Seq<UnitView>, Seq<char>>(unit_views(v@)),
                Err(e) => e matches ReadError::Csdl(msg) && document_units(self@) == Err::<Seq<UnitView>, Seq<char>>(msg@),
            },
    {
        let mut out: Vec<SyntaxUnit> = Vec::new();
        assert(unit_views(out@) =~= Seq::<UnitView>::empty());
        match &self.value {
            JsonValue::Object(root) => {
                let r = emit_edmx(&mut out, root);
                match r {
                    Ok(_) => {
                        assert(Seq::<UnitView>::empty() + (edmx_units(member_views(root@))->Ok_0) =~= edmx_units(member_views(root@))->Ok_0);
                        Ok(out)
                    },
                    Err(e) => Err(e),
                }
            },
            _ => Err(csdl_error(owned("expected object at document root"))),
        }
    }
}
} // verus!
