//! What the CSDL JSON reader gives back of an annotation expression that
//! the CSDL JSON writer put down.
//!
//! The writer and the reader are specified by `expr_json` and `json_expr`;
//! [`lemma_json_read_back`] proves that reading what was written gives the
//! expression back, for every expression that JSON can carry without loss.

use vstd::prelude::*;

use crate::csdl::Annotation;
use crate::csdl_json_reader::{
    annotation_key_parts, annotation_units, attach, begins, binary_op, constant_expr, dyn_pos,
    document_units, edmx_units, fold_units, is_dynamic_key, json_expr, json_exprs, member,
    opt_attr, plain, pv_pos, record_parts, schema_ann_step, schema_member_step, schema_step,
    schema_units, str_member, then, wrap, Members, RecordParts, Units,
};
use crate::csdl::{CsdlDocument, Edmx, Schema};
use crate::csdl_xml_reader::{attr_spec, attr_views, unit_views, SyntaxUnit, UnitView};
use crate::parser::{
    assemble, edmx_fail, edmx_outcome, edmx_read, edmx_schema_raws, element_raws, first_edmx, named, raw_view,
    raw_views, schema_child_fail, schema_child_fail_fn, schema_fail, schema_fail_fn, seq_fail,
    units_outcome, RawElement, RawView,
};
use crate::tree_units::{lemma_assemble_spelled_views, tree_of, trees_of};
use crate::error::ReadError;
use crate::tree_units::{expression_views, tree_units, trees_units, TreeView};
use crate::expr::{
    annotation_view, annotation_views, expr_view, expr_views, lemma_property_value_views, opt_chars,
    property_value_view, property_value_views, AnnotationView, BinaryOperator,
    CsdlAnnotationExpression, ExprView, PropertyValue, PropertyValueView,
};
use crate::json::{insert_member, key_pos, lemma_key_pos, JsonView};
use crate::serialization::{
    annotation_key, annotation_member, document_json, edmx_json, expr_json, exprs_json, jstr,
    first_container, insert_annotations, op_key, put_all, put_str, record_members, schema_elements,
    schema_json, schemas_json,
};
use crate::text::{lemma_first_index_none, lemma_first_index_of};

verus! {

// ---------------------------------------------------------------------------
// Which expressions JSON carries without loss
// ---------------------------------------------------------------------------

/// No occurrence of `c` in `s`.
pub open spec fn lacks(s: Seq<char>, c: char) -> bool {
    forall|i: int| 0 <= i < s.len() ==> s[i] != c
}

/// A member name the reader takes as it stands: not a `$`-key, no `@`.
pub open spec fn plain_name(s: Seq<char>) -> bool {
    !begins(s, '$') && lacks(s, '@')
}

/// No two members share a name.
pub open spec fn distinct_names(m: Members) -> bool {
    forall|i: int, j: int| 0 <= i < j < m.len() ==> m[i].0 != m[j].0
}

/// The value the writer puts down for an annotation.
pub open spec fn annotation_value(a: Annotation) -> JsonView {
    match a.expression {
        Some(e) => expr_json(e),
        None => JsonView::Bool(true),
    }
}

/// The members the writer puts down for annotations, each name prefixed.
pub open spec fn annotation_members(anns: Seq<Annotation>, prefix: Seq<char>) -> Members
    decreases anns.len(),
{
    if anns.len() == 0 {
        Seq::empty()
    } else {
        annotation_members(anns.subrange(0, anns.len() - 1), prefix).push(
            (prefix + annotation_key(anns[anns.len() - 1]), annotation_value(anns[anns.len() - 1])),
        )
    }
}

/// The members the writer puts down for one property value: the value
/// under the property's name, then its annotations.
pub open spec fn value_members(p: PropertyValue) -> Members {
    let head: Members = match p.value {
        Some(v) => seq![(p.property@, expr_json(v))],
        None => Seq::empty(),
    };
    head + annotation_members(p.annotations@, p.property@)
}

pub open spec fn properties_members(props: Seq<PropertyValue>) -> Members
    decreases props.len(),
{
    if props.len() == 0 {
        Seq::empty()
    } else {
        properties_members(props.subrange(0, props.len() - 1)) + value_members(props[props.len() - 1])
    }
}

pub open spec fn type_member(t: Option<String>) -> Members {
    match t {
        Some(t) => seq![("$Type"@, JsonView::String(t@))],
        None => Seq::empty(),
    }
}

/// Every member the writer puts down for a record, in order.
pub open spec fn record_written(
    type_: Option<String>,
    props: Seq<PropertyValue>,
    anns: Seq<Annotation>,
) -> Members {
    type_member(type_) + properties_members(props) + annotation_members(anns, Seq::empty())
}

/// An annotation the reader gives back as written: a term without `#`, and
/// an expression (for none the writer puts down a bare `true`).
pub open spec fn readable_annotation(a: Annotation) -> bool {
    a.term@.len() > 0 && lacks(a.term@, '#') && a.expression is Some
}

/// A property value the reader gives back as written: a plain name, a
/// value, and annotations without target (then the name is not empty).
pub open spec fn readable_value(p: PropertyValue) -> bool {
    &&& plain_name(p.property@)
    &&& p.value is Some
    &&& p.annotations@.len() > 0 ==> p.property@.len() > 0
    &&& forall|j: int|
        0 <= j < p.annotations@.len() ==> readable_annotation(#[trigger] p.annotations@[j])
            && p.annotations@[j].target is None
}

/// The shape of a record that the reader gives back as written: readable
/// property values of distinct names; readable annotations, those with a
/// target after those without, each target a plain non-empty name that no
/// property value has; and no two members of one name.
pub open spec fn readable_record(
    type_: Option<String>,
    props: Seq<PropertyValue>,
    anns: Seq<Annotation>,
) -> bool {
    &&& forall|i: int| 0 <= i < props.len() ==> readable_value(#[trigger] props[i])
    &&& forall|i: int, j: int|
        0 <= i < j < props.len() ==> props[i].property@ != props[j].property@
    &&& forall|i: int| 0 <= i < anns.len() ==> readable_annotation(#[trigger] anns[i])
    &&& forall|i: int|
        0 <= i < anns.len() ==> match #[trigger] anns[i].target {
            Some(t) => t@.len() > 0 && plain_name(t@) && forall|j: int|
                0 <= j < props.len() ==> props[j].property@ != t@,
            None => true,
        }
    &&& forall|i: int, j: int|
        0 <= i < j < anns.len() && anns[i].target is Some ==> anns[j].target is Some
    &&& distinct_names(record_written(type_, props, anns))
}

// ---------------------------------------------------------------------------
// The writer: with distinct names every member is appended
// ---------------------------------------------------------------------------

proof fn lemma_distinct_prefix(a: Members, b: Members)
    requires
        distinct_names(a + b),
    ensures
        distinct_names(a),
{
    assert forall|i: int, j: int| 0 <= i < j < a.len() implies a[i].0 != a[j].0 by {
        assert((a + b)[i] == a[i] && (a + b)[j] == a[j]);
    }
}

proof fn lemma_insert_appends(m: Members, k: Seq<char>, v: JsonView)
    requires
        distinct_names(m.push((k, v))),
    ensures
        insert_member(m, k, v) == m.push((k, v)),
{
    lemma_key_pos(m, k);
    if let Some(i) = key_pos(m, k) {
        assert(m.push((k, v))[i].0 == m.push((k, v))[m.len() as int].0);
    }
}

proof fn lemma_annotations_written(m: Members, anns: Seq<Annotation>, prefix: Seq<char>)
    requires
        forall|i: int| 0 <= i < anns.len() ==> (#[trigger] anns[i]).term@.len() > 0,
        distinct_names(m + annotation_members(anns, prefix)),
    ensures
        insert_annotations(m, anns, prefix) == m + annotation_members(anns, prefix),
    decreases anns.len(),
{
    if anns.len() > 0 {
        let init = anns.subrange(0, anns.len() - 1);
        let a = anns[anns.len() - 1];
        let kv = (prefix + annotation_key(a), annotation_value(a));
        assert(m + annotation_members(anns, prefix) =~= (m + annotation_members(init, prefix)).push(kv));
        assert((m + annotation_members(init, prefix)) + seq![kv] =~= (m + annotation_members(init, prefix)).push(kv));
        lemma_distinct_prefix(m + annotation_members(init, prefix), seq![kv]);
        lemma_annotations_written(m, init, prefix);
        assert(annotation_member(a) == Some((annotation_key(a), annotation_value(a))));
        lemma_insert_appends(m + annotation_members(init, prefix), kv.0, kv.1);
    }
}

proof fn lemma_properties_written(m: Members, props: Seq<PropertyValue>)
    requires
        forall|i: int| 0 <= i < props.len() ==> (#[trigger] props[i]).value is Some,
        forall|i: int, j: int|
            0 <= i < props.len() && 0 <= j < props[i].annotations@.len()
                ==> (#[trigger] props[i].annotations@[j]).term@.len() > 0,
        distinct_names(m + properties_members(props)),
    ensures
        record_members(m, props) == m + properties_members(props),
    decreases props.len(),
{
    if props.len() > 0 {
        let init = props.subrange(0, props.len() - 1);
        let p = props[props.len() - 1];
        let v = p.value.unwrap();
        let m1 = m + properties_members(init);
        let kv = (p.property@, expr_json(v));
        assert(m + properties_members(props) =~= m1 + value_members(p));
        assert(m1 + value_members(p) =~= m1.push(kv) + annotation_members(p.annotations@, p.property@));
        lemma_distinct_prefix(m1.push(kv), annotation_members(p.annotations@, p.property@));
        assert(m1 + seq![kv] =~= m1.push(kv));
        lemma_distinct_prefix(m1, seq![kv]);
        lemma_properties_written(m, init);
        lemma_insert_appends(m1, kv.0, kv.1);
        assert forall|j: int| 0 <= j < p.annotations@.len() implies (#[trigger] p.annotations@[j]).term@.len() > 0 by {
            assert(props[props.len() - 1].annotations@[j] == p.annotations@[j]);
        }
        lemma_annotations_written(m1.push(kv), p.annotations@, p.property@);
    }
}

// ---------------------------------------------------------------------------
// The reader: member names
// ---------------------------------------------------------------------------

/// The qualifier part of an annotation's member name.
pub open spec fn qualifier_suffix(q: Option<Seq<char>>) -> Seq<char> {
    match q {
        Some(q) => "#"@ + q,
        None => Seq::empty(),
    }
}

proof fn lemma_key_parts(p: Seq<char>, term: Seq<char>, q: Option<Seq<char>>)
    requires
        lacks(p, '@'),
        lacks(term, '#'),
    ensures
        annotation_key_parts(p + "@"@ + term + qualifier_suffix(q)) == Some(
            (
                if p.len() == 0 {
                    None::<Seq<char>>
                } else {
                    Some(p)
                },
                term,
                q,
            ),
        ),
        !begins(p, '$') ==> !begins(p + "@"@ + term + qualifier_suffix(q), '$'),
{
    reveal_strlit("@");
    reveal_strlit("#");
    let rest = term + qualifier_suffix(q);
    let k = p + "@"@ + term + qualifier_suffix(q);
    assert(k =~= p + seq!['@'] + rest);
    lemma_first_index_of(k, '@', p.len() as int);
    assert(k.take(p.len() as int) =~= p);
    assert(k.skip(p.len() as int + 1) =~= rest);
    match q {
        Some(qs) => {
            assert(rest =~= term + seq!['#'] + qs);
            lemma_first_index_of(rest, '#', term.len() as int);
            assert(rest.take(term.len() as int) =~= term);
            assert(rest.skip(term.len() as int + 1) =~= qs);
        },
        None => {
            assert(rest =~= term);
            lemma_first_index_none(rest, '#');
        },
    }
}

/// A member name without `@` is no annotation.
proof fn lemma_plain_key(k: Seq<char>)
    requires
        lacks(k, '@'),
    ensures
        annotation_key_parts(k) is None,
{
    lemma_first_index_none(k, '@');
}

proof fn lemma_annotation_key(a: Annotation)
    ensures
        a.target is None ==> annotation_key(a) =~= Seq::<char>::empty() + "@"@ + a.term@
            + qualifier_suffix(opt_chars(a.qualifier)),
        a.target is Some ==> annotation_key(a) =~= a.target.unwrap()@ + "@"@ + a.term@
            + qualifier_suffix(opt_chars(a.qualifier)),
{
}

// ---------------------------------------------------------------------------
// The reader: the parts of a record
// ---------------------------------------------------------------------------

/// What the reader makes of an annotation member before it knows the target.
pub open spec fn untargeted_view(a: Annotation) -> AnnotationView {
    AnnotationView {
        term: a.term@,
        qualifier: opt_chars(a.qualifier),
        target: None,
        expression: Some(expr_view(a.expression.unwrap())),
    }
}

pub open spec fn untargeted_views(anns: Seq<Annotation>) -> Seq<AnnotationView>
    decreases anns.len(),
{
    if anns.len() == 0 {
        Seq::empty()
    } else {
        untargeted_views(anns.subrange(0, anns.len() - 1)).push(untargeted_view(anns[anns.len() - 1]))
    }
}

/// The annotations of a property value, kept aside under its name.
pub open spec fn named_views(name: Seq<char>, anns: Seq<Annotation>) -> Seq<(Seq<char>, AnnotationView)>
    decreases anns.len(),
{
    if anns.len() == 0 {
        Seq::empty()
    } else {
        named_views(name, anns.subrange(0, anns.len() - 1)).push((name, untargeted_view(anns[anns.len() - 1])))
    }
}

/// A property value as the reader makes it of its member alone.
pub open spec fn bare_value(p: PropertyValue) -> PropertyValueView {
    PropertyValueView {
        property: p.property@,
        value: Some(expr_view(p.value.unwrap())),
        annotations: Seq::empty(),
    }
}

pub open spec fn bare_values(props: Seq<PropertyValue>) -> Seq<PropertyValueView>
    decreases props.len(),
{
    if props.len() == 0 {
        Seq::empty()
    } else {
        bare_values(props.subrange(0, props.len() - 1)).push(bare_value(props[props.len() - 1]))
    }
}

pub open spec fn properties_pending(props: Seq<PropertyValue>) -> Seq<(Seq<char>, AnnotationView)>
    decreases props.len(),
{
    if props.len() == 0 {
        Seq::empty()
    } else {
        let p = props[props.len() - 1];
        properties_pending(props.subrange(0, props.len() - 1)) + named_views(p.property@, p.annotations@)
    }
}

/// The record's annotations without target, as the reader makes them.
pub open spec fn record_untargeted(anns: Seq<Annotation>) -> Seq<AnnotationView>
    decreases anns.len(),
{
    if anns.len() == 0 {
        Seq::empty()
    } else {
        let a = anns[anns.len() - 1];
        let r = record_untargeted(anns.subrange(0, anns.len() - 1));
        if a.target is None {
            r.push(untargeted_view(a))
        } else {
            r
        }
    }
}

/// The record's annotations with a target, kept aside under the target.
pub open spec fn record_targeted(anns: Seq<Annotation>) -> Seq<(Seq<char>, AnnotationView)>
    decreases anns.len(),
{
    if anns.len() == 0 {
        Seq::empty()
    } else {
        let a = anns[anns.len() - 1];
        let r = record_targeted(anns.subrange(0, anns.len() - 1));
        match a.target {
            Some(t) => r.push((t@, untargeted_view(a))),
            None => r,
        }
    }
}

/// Each annotation's expression reads back as written.
pub open spec fn expressions_read_back(anns: Seq<Annotation>) -> bool {
    forall|i: int|
        0 <= i < anns.len() ==> (#[trigger] anns[i]).expression is Some ==> json_expr(
            expr_json(anns[i].expression.unwrap()),
        ) == Ok::<_, Seq<char>>(expr_view(anns[i].expression.unwrap()))
}

proof fn lemma_read_annotations(
    m: Members,
    anns: Seq<Annotation>,
    prefix: Seq<char>,
    acc: RecordParts,
)
    requires
        record_parts(m) == Ok::<_, Seq<char>>(acc),
        !begins(prefix, '$'),
        lacks(prefix, '@'),
        forall|i: int| 0 <= i < anns.len() ==> readable_annotation(#[trigger] anns[i]),
        expressions_read_back(anns),
        prefix.len() > 0 ==> forall|i: int| 0 <= i < anns.len() ==> (#[trigger] anns[i]).target is None,
        prefix.len() == 0 ==> forall|i: int|
            0 <= i < anns.len() ==> match (#[trigger] anns[i]).target {
                Some(t) => t@.len() > 0 && plain_name(t@),
                None => true,
            },
    ensures
        record_parts(m + annotation_members(anns, prefix)) == Ok::<_, Seq<char>>(
            if prefix.len() > 0 {
                (acc.0, acc.1, acc.2 + named_views(prefix, anns))
            } else {
                (acc.0, acc.1 + record_untargeted(anns), acc.2 + record_targeted(anns))
            },
        ),
    decreases anns.len(),
{
    if anns.len() == 0 {
        assert(m + annotation_members(anns, prefix) =~= m);
        assert(acc.2 + named_views(prefix, anns) =~= acc.2);
        assert(acc.1 + record_untargeted(anns) =~= acc.1);
        assert(acc.2 + record_targeted(anns) =~= acc.2);
    } else {
        let init = anns.subrange(0, anns.len() - 1);
        let a = anns[anns.len() - 1];
        assert forall|i: int| 0 <= i < init.len() implies readable_annotation(#[trigger] init[i]) by {
            assert(init[i] == anns[i]);
        }
        assert forall|i: int| 0 <= i < init.len() implies (#[trigger] init[i]).expression is Some
            ==> json_expr(expr_json(init[i].expression.unwrap())) == Ok::<_, Seq<char>>(
            expr_view(init[i].expression.unwrap())) by {
            assert(init[i] == anns[i]);
        }
        assert(prefix.len() > 0 ==> forall|i: int| 0 <= i < init.len() ==> (#[trigger] init[i]).target is None) by {
            if prefix.len() > 0 {
                assert forall|i: int| 0 <= i < init.len() implies (#[trigger] init[i]).target is None by {
                    assert(init[i] == anns[i]);
                }
            }
        }
        assert(prefix.len() == 0 ==> forall|i: int|
            0 <= i < init.len() ==> match (#[trigger] init[i]).target {
                Some(t) => t@.len() > 0 && plain_name(t@),
                None => true,
            }) by {
            if prefix.len() == 0 {
                assert forall|i: int| 0 <= i < init.len() implies match (#[trigger] init[i]).target {
                    Some(t) => t@.len() > 0 && plain_name(t@),
                    None => true,
                } by {
                    assert(init[i] == anns[i]);
                }
            }
        }
        lemma_read_annotations(m, init, prefix, acc);
        let before = m + annotation_members(init, prefix);
        let key = prefix + annotation_key(a);
        let e = a.expression.unwrap();
        assert(readable_annotation(anns[anns.len() - 1]));
        assert(json_expr(expr_json(e)) == Ok::<_, Seq<char>>(expr_view(e)));
        assert(m + annotation_members(anns, prefix) =~= before.push((key, expr_json(e))));
        assert(before.push((key, expr_json(e))).subrange(0, before.len() as int) =~= before);
        lemma_annotation_key(a);
        let q = opt_chars(a.qualifier);
        match a.target {
            None => {
                assert(key =~= prefix + "@"@ + a.term@ + qualifier_suffix(q));
                lemma_key_parts(prefix, a.term@, q);
            },
            Some(t) => {
                assert(prefix.len() == 0);
                assert(key =~= t@ + "@"@ + a.term@ + qualifier_suffix(q));
                lemma_key_parts(t@, a.term@, q);
            },
        }
        if prefix.len() > 0 {
            assert(acc.2 + named_views(prefix, anns) =~= (acc.2 + named_views(prefix, init)).push(
                (prefix, untargeted_view(a)),
            ));
        } else {
            if a.target is None {
                assert(acc.1 + record_untargeted(anns) =~= (acc.1 + record_untargeted(init)).push(
                    untargeted_view(a),
                ));
            } else {
                assert(acc.2 + record_targeted(anns) =~= (acc.2 + record_targeted(init)).push(
                    (a.target.unwrap()@, untargeted_view(a)),
                ));
            }
        }
    }
}

/// Each property value reads back as written, and so do its annotations.
pub open spec fn values_read_back(props: Seq<PropertyValue>) -> bool {
    forall|i: int|
        0 <= i < props.len() ==> {
            &&& (#[trigger] props[i]).value is Some ==> json_expr(expr_json(props[i].value.unwrap()))
                == Ok::<_, Seq<char>>(expr_view(props[i].value.unwrap()))
            &&& expressions_read_back(props[i].annotations@)
        }
}

proof fn lemma_read_properties(m: Members, props: Seq<PropertyValue>, acc: RecordParts)
    requires
        record_parts(m) == Ok::<_, Seq<char>>(acc),
        forall|i: int| 0 <= i < props.len() ==> readable_value(#[trigger] props[i]),
        values_read_back(props),
    ensures
        record_parts(m + properties_members(props)) == Ok::<_, Seq<char>>(
            (acc.0 + bare_values(props), acc.1, acc.2 + properties_pending(props)),
        ),
    decreases props.len(),
{
    if props.len() == 0 {
        assert(m + properties_members(props) =~= m);
        assert(acc.0 + bare_values(props) =~= acc.0);
        assert(acc.2 + properties_pending(props) =~= acc.2);
    } else {
        let init = props.subrange(0, props.len() - 1);
        let p = props[props.len() - 1];
        assert forall|i: int| 0 <= i < init.len() implies readable_value(#[trigger] init[i]) by {
            assert(init[i] == props[i]);
        }
        assert(values_read_back(init)) by {
            assert forall|i: int| 0 <= i < init.len() implies {
                &&& (#[trigger] init[i]).value is Some ==> json_expr(expr_json(init[i].value.unwrap()))
                    == Ok::<_, Seq<char>>(expr_view(init[i].value.unwrap()))
                &&& expressions_read_back(init[i].annotations@)
            } by {
                assert(init[i] == props[i]);
            }
        }
        lemma_read_properties(m, init, acc);
        let m1 = m + properties_members(init);
        let acc1 = (acc.0 + bare_values(init), acc.1, acc.2 + properties_pending(init));
        assert(readable_value(props[props.len() - 1]));
        let v = p.value.unwrap();
        let kv = (p.property@, expr_json(v));
        assert(json_expr(expr_json(v)) == Ok::<_, Seq<char>>(expr_view(v)));
        assert(m1.push(kv).subrange(0, m1.len() as int) =~= m1);
        lemma_plain_key(p.property@);
        let acc2 = (acc1.0.push(bare_value(p)), acc1.1, acc1.2);
        assert(record_parts(m1.push(kv)) == Ok::<_, Seq<char>>(acc2));
        assert(m + properties_members(props) =~= m1.push(kv) + annotation_members(p.annotations@, p.property@));
        assert(expressions_read_back(props[props.len() - 1].annotations@));
        assert forall|i: int| 0 <= i < p.annotations@.len() implies readable_annotation(
            #[trigger] p.annotations@[i],
        ) && p.annotations@[i].target is None by {
            assert(readable_value(props[props.len() - 1]));
        }
        lemma_read_annotations(m1.push(kv), p.annotations@, p.property@, acc2);
        assert(acc.0 + bare_values(props) =~= acc2.0);
        if p.property@.len() > 0 {
            assert(acc.2 + properties_pending(props) =~= acc2.2 + named_views(p.property@, p.annotations@));
        } else {
            assert(p.annotations@.len() == 0);
            assert(annotation_members(p.annotations@, p.property@) =~= Seq::<(Seq<char>, JsonView)>::empty());
            assert(m1.push(kv) + annotation_members(p.annotations@, p.property@) =~= m1.push(kv));
            assert(named_views(p.property@, p.annotations@) =~= Seq::<(Seq<char>, AnnotationView)>::empty());
            assert(acc.2 + properties_pending(props) =~= acc2.2);
        }
    }
}

proof fn lemma_read_type(t: Option<String>)
    ensures
        record_parts(type_member(t)) == Ok::<_, Seq<char>>(
            (Seq::<PropertyValueView>::empty(), Seq::<AnnotationView>::empty(), Seq::<(Seq<char>, AnnotationView)>::empty()),
        ),
{
    reveal_strlit("$Type");
    let empty = Seq::<(Seq<char>, JsonView)>::empty();
    assert(record_parts(empty) == Ok::<_, Seq<char>>(
        (Seq::<PropertyValueView>::empty(), Seq::<AnnotationView>::empty(), Seq::<(Seq<char>, AnnotationView)>::empty()),
    ));
    if let Some(s) = t {
        let m = type_member(t);
        assert(m.subrange(0, 0) =~= empty);
        assert(begins(m[0].0, '$'));
    }
}

/// No member name that the writer puts down for annotations or property
/// values is a `$`-key.
proof fn lemma_annotation_names(anns: Seq<Annotation>, prefix: Seq<char>)
    requires
        !begins(prefix, '$'),
        lacks(prefix, '@'),
        forall|i: int| 0 <= i < anns.len() ==> readable_annotation(#[trigger] anns[i]),
        prefix.len() > 0 ==> forall|i: int| 0 <= i < anns.len() ==> (#[trigger] anns[i]).target is None,
        prefix.len() == 0 ==> forall|i: int|
            0 <= i < anns.len() ==> match (#[trigger] anns[i]).target {
                Some(t) => t@.len() > 0 && plain_name(t@),
                None => true,
            },
    ensures
        forall|j: int|
            0 <= j < annotation_members(anns, prefix).len() ==> !begins(
                #[trigger] annotation_members(anns, prefix)[j].0,
                '$',
            ),
    decreases anns.len(),
{
    if anns.len() > 0 {
        let init = anns.subrange(0, anns.len() - 1);
        let a = anns[anns.len() - 1];
        assert forall|i: int| 0 <= i < init.len() implies readable_annotation(#[trigger] init[i]) by {
            assert(init[i] == anns[i]);
        }
        assert(prefix.len() > 0 ==> forall|i: int| 0 <= i < init.len() ==> (#[trigger] init[i]).target is None) by {
            if prefix.len() > 0 {
                assert forall|i: int| 0 <= i < init.len() implies (#[trigger] init[i]).target is None by {
                    assert(init[i] == anns[i]);
                }
            }
        }
        assert(prefix.len() == 0 ==> forall|i: int|
            0 <= i < init.len() ==> match (#[trigger] init[i]).target {
                Some(t) => t@.len() > 0 && plain_name(t@),
                None => true,
            }) by {
            if prefix.len() == 0 {
                assert forall|i: int| 0 <= i < init.len() implies match (#[trigger] init[i]).target {
                    Some(t) => t@.len() > 0 && plain_name(t@),
                    None => true,
                } by {
                    assert(init[i] == anns[i]);
                }
            }
        }
        lemma_annotation_names(init, prefix);
        assert(readable_annotation(anns[anns.len() - 1]));
        lemma_annotation_key(a);
        let q = opt_chars(a.qualifier);
        let key = prefix + annotation_key(a);
        match a.target {
            None => {
                assert(key =~= prefix + "@"@ + a.term@ + qualifier_suffix(q));
                lemma_key_parts(prefix, a.term@, q);
            },
            Some(t) => {
                assert(key =~= t@ + "@"@ + a.term@ + qualifier_suffix(q));
                lemma_key_parts(t@, a.term@, q);
            },
        }
        let am = annotation_members(anns, prefix);
        let ai = annotation_members(init, prefix);
        assert forall|j: int| 0 <= j < am.len() implies !begins(#[trigger] am[j].0, '$') by {
            if j < ai.len() {
                assert(am[j] == ai[j]);
            }
        }
    }
}

proof fn lemma_property_names(props: Seq<PropertyValue>)
    requires
        forall|i: int| 0 <= i < props.len() ==> readable_value(#[trigger] props[i]),
    ensures
        forall|j: int|
            0 <= j < properties_members(props).len() ==> !begins(
                #[trigger] properties_members(props)[j].0,
                '$',
            ),
    decreases props.len(),
{
    if props.len() > 0 {
        let init = props.subrange(0, props.len() - 1);
        let p = props[props.len() - 1];
        assert forall|i: int| 0 <= i < init.len() implies readable_value(#[trigger] init[i]) by {
            assert(init[i] == props[i]);
        }
        lemma_property_names(init);
        assert(readable_value(props[props.len() - 1]));
        assert forall|i: int| 0 <= i < p.annotations@.len() implies readable_annotation(
            #[trigger] p.annotations@[i],
        ) by {}
        if p.property@.len() > 0 {
            lemma_annotation_names(p.annotations@, p.property@);
        } else {
            assert(annotation_members(p.annotations@, p.property@) =~= Seq::<(Seq<char>, JsonView)>::empty());
        }
        let head: Members = seq![(p.property@, expr_json(p.value.unwrap()))];
        assert(properties_members(props) =~= properties_members(init) + head + annotation_members(
            p.annotations@,
            p.property@,
        ));
        let pm = properties_members(props);
        let n1 = properties_members(init).len();
        assert forall|j: int| 0 <= j < pm.len() implies !begins(#[trigger] pm[j].0, '$') by {
            if j < n1 {
                assert(pm[j] == properties_members(init)[j]);
            } else if j == n1 {
                assert(pm[j] == head[0]);
            } else {
                assert(pm[j] == annotation_members(p.annotations@, p.property@)[j - n1 - 1]);
            }
        }
    }
}

proof fn lemma_no_dynamic_key(m: Members)
    requires
        forall|j: int| 0 <= j < m.len() ==> !is_dynamic_key(#[trigger] m[j].0),
    ensures
        dyn_pos(m) is None,
    decreases m.len(),
{
    if m.len() > 0 {
        assert forall|j: int| 0 <= j < m.drop_first().len() implies !is_dynamic_key(
            #[trigger] m.drop_first()[j].0,
        ) by {
            assert(m.drop_first()[j] == m[j + 1]);
        }
        lemma_no_dynamic_key(m.drop_first());
    }
}

// ---------------------------------------------------------------------------
// The reader: annotations find their property values
// ---------------------------------------------------------------------------

proof fn lemma_attach_concat(
    p: Seq<PropertyValueView>,
    a: Seq<AnnotationView>,
    x: Seq<(Seq<char>, AnnotationView)>,
    y: Seq<(Seq<char>, AnnotationView)>,
)
    ensures
        attach(p, a, x + y) == attach(attach(p, a, x).0, attach(p, a, x).1, y),
    decreases y.len(),
{
    if y.len() == 0 {
        assert(x + y =~= x);
    } else {
        assert((x + y).drop_last() =~= x + y.drop_last());
        assert((x + y).last() == y.last());
        lemma_attach_concat(p, a, x, y.drop_last());
    }
}

proof fn lemma_pv_pos_same_names(p: Seq<PropertyValueView>, q: Seq<PropertyValueView>, name: Seq<char>)
    requires
        p.len() == q.len(),
        forall|i: int| 0 <= i < p.len() ==> (#[trigger] p[i]).property == q[i].property,
    ensures
        pv_pos(p, name) == pv_pos(q, name),
    decreases p.len(),
{
    if p.len() > 0 {
        assert forall|i: int| 0 <= i < p.drop_first().len() implies (#[trigger] p.drop_first()[i]).property
            == q.drop_first()[i].property by {
            assert(p.drop_first()[i] == p[i + 1] && q.drop_first()[i] == q[i + 1]);
        }
        lemma_pv_pos_same_names(p.drop_first(), q.drop_first(), name);
    }
}

proof fn lemma_pv_pos_found(p: Seq<PropertyValueView>, name: Seq<char>, i: int)
    requires
        0 <= i < p.len(),
        p[i].property == name,
        forall|j: int| 0 <= j < i ==> (#[trigger] p[j]).property != name,
    ensures
        pv_pos(p, name) == Some(i),
    decreases i,
{
    if i > 0 {
        assert forall|j: int| 0 <= j < i - 1 implies (#[trigger] p.drop_first()[j]).property != name by {
            assert(p.drop_first()[j] == p[j + 1]);
        }
        lemma_pv_pos_found(p.drop_first(), name, i - 1);
    }
}

proof fn lemma_pv_pos_none(p: Seq<PropertyValueView>, name: Seq<char>)
    requires
        forall|j: int| 0 <= j < p.len() ==> (#[trigger] p[j]).property != name,
    ensures
        pv_pos(p, name) is None,
    decreases p.len(),
{
    if p.len() > 0 {
        assert forall|j: int| 0 <= j < p.drop_first().len() implies (#[trigger] p.drop_first()[j]).property
            != name by {
            assert(p.drop_first()[j] == p[j + 1]);
        }
        lemma_pv_pos_none(p.drop_first(), name);
    }
}

/// The annotations kept aside under a name go, in order, to the property
/// value of that name.
proof fn lemma_attach_named(
    p: Seq<PropertyValueView>,
    a: Seq<AnnotationView>,
    name: Seq<char>,
    anns: Seq<Annotation>,
    i: int,
)
    requires
        0 <= i < p.len(),
        pv_pos(p, name) == Some(i),
    ensures
        attach(p, a, named_views(name, anns)) == (
            p.update(i, PropertyValueView { annotations: p[i].annotations + untargeted_views(anns), ..p[i] }),
            a,
        ),
    decreases anns.len(),
{
    if anns.len() == 0 {
        assert(p[i].annotations + untargeted_views(anns) =~= p[i].annotations);
        assert(p.update(i, PropertyValueView { annotations: p[i].annotations, ..p[i] }) =~= p);
    } else {
        let init = anns.subrange(0, anns.len() - 1);
        lemma_attach_named(p, a, name, init, i);
        let r0 = p.update(i, PropertyValueView { annotations: p[i].annotations + untargeted_views(init), ..p[i] });
        assert forall|j: int| 0 <= j < r0.len() implies (#[trigger] r0[j]).property == p[j].property by {}
        lemma_pv_pos_same_names(r0, p, name);
        let nv = named_views(name, anns);
        assert(nv.drop_last() =~= named_views(name, init));
        assert(r0[i].annotations.push(untargeted_view(anns[anns.len() - 1])) =~= p[i].annotations
            + untargeted_views(anns));
        assert(r0.update(i, PropertyValueView {
            annotations: r0[i].annotations.push(untargeted_view(anns[anns.len() - 1])),
            ..r0[i]
        }) =~= p.update(i, PropertyValueView { annotations: p[i].annotations + untargeted_views(anns), ..p[i] }));
    }
}

proof fn lemma_untargeted_views(anns: Seq<Annotation>)
    requires
        forall|i: int| 0 <= i < anns.len() ==> (#[trigger] anns[i]).target is None && anns[i].expression is Some,
    ensures
        untargeted_views(anns) == annotation_views(anns),
    decreases anns.len(),
{
    if anns.len() > 0 {
        let init = anns.subrange(0, anns.len() - 1);
        assert forall|i: int| 0 <= i < init.len() implies (#[trigger] init[i]).target is None
            && init[i].expression is Some by {
            assert(init[i] == anns[i]);
        }
        lemma_untargeted_views(init);
        let last = anns[anns.len() - 1];
        assert(last.target is None && last.expression is Some);
        assert(untargeted_view(last) == annotation_view(last));
    }
}

/// The annotations of the property values go each to its own property value.
proof fn lemma_attach_properties(
    props: Seq<PropertyValue>,
    rest: Seq<PropertyValueView>,
    a: Seq<AnnotationView>,
)
    requires
        forall|i: int| 0 <= i < props.len() ==> readable_value(#[trigger] props[i]),
        forall|i: int, j: int| 0 <= i < j < props.len() ==> props[i].property@ != props[j].property@,
        forall|i: int, j: int|
            0 <= i < props.len() && 0 <= j < rest.len() ==> (#[trigger] props[i]).property@ != (
            #[trigger] rest[j]).property,
    ensures
        attach(bare_values(props) + rest, a, properties_pending(props)) == (
            property_value_views(props) + rest,
            a,
        ),
    decreases props.len(),
{
    if props.len() == 0 {
        assert(bare_values(props) + rest =~= rest);
        assert(property_value_views(props) + rest =~= rest);
    } else {
        let n = props.len() - 1;
        let init = props.subrange(0, n);
        let p = props[n];
        let rest1 = seq![bare_value(p)] + rest;
        assert forall|i: int| 0 <= i < init.len() implies readable_value(#[trigger] init[i]) by {
            assert(init[i] == props[i]);
        }
        assert forall|i: int, j: int| 0 <= i < j < init.len() implies init[i].property@ != init[j].property@ by {
            assert(init[i] == props[i] && init[j] == props[j]);
        }
        assert forall|i: int, j: int|
            0 <= i < init.len() && 0 <= j < rest1.len() implies (#[trigger] init[i]).property@ != (
            #[trigger] rest1[j]).property by {
            assert(init[i] == props[i]);
            if j == 0 {
                assert(rest1[j].property == props[n].property@);
            } else {
                assert(rest1[j] == rest[j - 1]);
            }
        }
        lemma_attach_properties(init, rest1, a);
        assert(bare_values(props) + rest =~= bare_values(init) + rest1);
        lemma_attach_concat(
            bare_values(init) + rest1,
            a,
            properties_pending(init),
            named_views(p.property@, p.annotations@),
        );
        let r0 = property_value_views(init) + rest1;
        lemma_property_value_views(init);
        assert forall|j: int| 0 <= j < n implies (#[trigger] r0[j]).property != p.property@ by {
            assert(r0[j] == property_value_view(init[j]));
            assert(init[j] == props[j]);
        }
        assert(r0[n] == bare_value(p));
        lemma_pv_pos_found(r0, p.property@, n);
        lemma_attach_named(r0, a, p.property@, p.annotations@, n);
        assert(readable_value(props[n]));
        assert forall|i: int| 0 <= i < p.annotations@.len() implies (#[trigger] p.annotations@[i]).target is None
            && p.annotations@[i].expression is Some by {
            assert(readable_annotation(p.annotations@[i]));
        }
        lemma_untargeted_views(p.annotations@);
        assert(Seq::<AnnotationView>::empty() + untargeted_views(p.annotations@) =~= annotation_views(
            p.annotations@,
        ));
        assert(property_value_views(props) =~= property_value_views(init).push(property_value_view(p)));
        assert(r0.update(n, PropertyValueView {
            annotations: r0[n].annotations + untargeted_views(p.annotations@),
            ..r0[n]
        }) =~= property_value_views(props) + rest);
    }
}

/// The record's annotations with a target, as the reader gives them back.
pub open spec fn targeted_views(anns: Seq<Annotation>) -> Seq<AnnotationView>
    decreases anns.len(),
{
    if anns.len() == 0 {
        Seq::empty()
    } else {
        let a = anns[anns.len() - 1];
        let r = targeted_views(anns.subrange(0, anns.len() - 1));
        if a.target is Some {
            r.push(annotation_view(a))
        } else {
            r
        }
    }
}

/// An annotation whose target no property value has stays on the record.
proof fn lemma_attach_targeted(p: Seq<PropertyValueView>, a: Seq<AnnotationView>, anns: Seq<Annotation>)
    requires
        forall|i: int| 0 <= i < anns.len() ==> (#[trigger] anns[i]).expression is Some,
        forall|i: int, j: int|
            0 <= i < anns.len() && 0 <= j < p.len() && (#[trigger] anns[i]).target is Some ==> (
            #[trigger] p[j]).property != anns[i].target.unwrap()@,
    ensures
        attach(p, a, record_targeted(anns)) == (p, a + targeted_views(anns)),
    decreases anns.len(),
{
    if anns.len() == 0 {
        assert(a + targeted_views(anns) =~= a);
    } else {
        let init = anns.subrange(0, anns.len() - 1);
        let last = anns[anns.len() - 1];
        assert forall|i: int| 0 <= i < init.len() implies (#[trigger] init[i]).expression is Some by {
            assert(init[i] == anns[i]);
        }
        assert forall|i: int, j: int|
            0 <= i < init.len() && 0 <= j < p.len() && (#[trigger] init[i]).target is Some implies (
            #[trigger] p[j]).property != init[i].target.unwrap()@ by {
            assert(init[i] == anns[i]);
        }
        lemma_attach_targeted(p, a, init);
        if let Some(t) = last.target {
            assert forall|j: int| 0 <= j < p.len() implies (#[trigger] p[j]).property != t@ by {
                assert(anns[anns.len() - 1] == last);
            }
            lemma_pv_pos_none(p, t@);
            assert(record_targeted(anns).drop_last() =~= record_targeted(init));
            assert(AnnotationView { target: Some(t@), ..untargeted_view(last) } == annotation_view(last));
            assert(a + targeted_views(anns) =~= (a + targeted_views(init)).push(annotation_view(last)));
        }
    }
}

/// Annotations without target first, then those with: the two groups
/// together are the annotations in order.
proof fn lemma_record_annotation_order(anns: Seq<Annotation>)
    requires
        forall|i: int| 0 <= i < anns.len() ==> (#[trigger] anns[i]).expression is Some,
        forall|i: int, j: int| 0 <= i < j < anns.len() && anns[i].target is Some ==> anns[j].target is Some,
    ensures
        record_untargeted(anns) + targeted_views(anns) == annotation_views(anns),
        (forall|i: int| 0 <= i < anns.len() ==> (#[trigger] anns[i]).target is None) ==> targeted_views(anns)
            =~= Seq::<AnnotationView>::empty(),
    decreases anns.len(),
{
    if anns.len() == 0 {
        assert(record_untargeted(anns) + targeted_views(anns) =~= Seq::<AnnotationView>::empty());
    } else {
        let n = anns.len() - 1;
        let init = anns.subrange(0, n);
        let last = anns[n];
        assert forall|i: int| 0 <= i < init.len() implies (#[trigger] init[i]).expression is Some by {
            assert(init[i] == anns[i]);
        }
        assert forall|i: int, j: int| 0 <= i < j < init.len() && init[i].target is Some implies init[j].target is Some by {
            assert(init[i] == anns[i] && init[j] == anns[j]);
        }
        lemma_record_annotation_order(init);
        assert(annotation_views(anns) == annotation_views(init).push(annotation_view(last)));
        if last.target is None {
            assert forall|i: int| 0 <= i < init.len() implies (#[trigger] init[i]).target is None by {
                assert(init[i] == anns[i]);
                if anns[i].target is Some {
                    assert(anns[n].target is Some);
                }
            }
            assert(untargeted_view(last) == annotation_view(last));
            assert(record_untargeted(anns) + targeted_views(anns) =~= annotation_views(anns));
        } else {
            assert(record_untargeted(anns) + targeted_views(anns) =~= (record_untargeted(init) + targeted_views(
                init,
            )).push(annotation_view(last)));
        }
    }
}

// ---------------------------------------------------------------------------
// A record reads back as written
// ---------------------------------------------------------------------------

proof fn lemma_record_read_back(type_: Option<String>, props: Seq<PropertyValue>, anns: Seq<Annotation>)
    requires
        readable_record(type_, props, anns),
        values_read_back(props),
        expressions_read_back(anns),
    ensures
        json_expr(
            JsonView::Object(insert_annotations(record_members(type_member(type_), props), anns, Seq::empty())),
        ) == Ok::<_, Seq<char>>(
            ExprView::Record {
                type_: opt_chars(type_),
                properties: property_value_views(props),
                annotations: annotation_views(anns),
            },
        ),
{
    reveal_strlit("$Type");
    let tm = type_member(type_);
    let pm = properties_members(props);
    let am = annotation_members(anns, Seq::empty());
    let l = record_written(type_, props, anns);
    // The writer appends every member.
    assert(l =~= (tm + pm) + am);
    lemma_distinct_prefix(tm + pm, am);
    assert forall|i: int, j: int|
        0 <= i < props.len() && 0 <= j < props[i].annotations@.len() implies (
        #[trigger] props[i].annotations@[j]).term@.len() > 0 by {
        assert(readable_value(props[i]));
        assert(readable_annotation(props[i].annotations@[j]));
    }
    assert forall|i: int| 0 <= i < props.len() implies (#[trigger] props[i]).value is Some by {
        assert(readable_value(props[i]));
    }
    lemma_properties_written(tm, props);
    assert forall|i: int| 0 <= i < anns.len() implies (#[trigger] anns[i]).term@.len() > 0 by {
        assert(readable_annotation(anns[i]));
    }
    lemma_annotations_written(tm + pm, anns, Seq::empty());
    assert(insert_annotations(record_members(tm, props), anns, Seq::empty()) == l);
    // No member is a dynamic expression.
    lemma_property_names(props);
    assert(!begins(Seq::<char>::empty(), '$') && lacks(Seq::<char>::empty(), '@'));
    lemma_annotation_names(anns, Seq::empty());
    assert forall|j: int| 0 <= j < l.len() implies !is_dynamic_key(#[trigger] l[j].0) by {
        if j < tm.len() {
            assert(l[j] == tm[j]);
        } else if j < tm.len() + pm.len() {
            assert(l[j] == pm[j - tm.len()]);
        } else {
            assert(l[j] == am[j - tm.len() - pm.len()]);
        }
    }
    lemma_no_dynamic_key(l);
    // The type.
    lemma_key_pos(l, "$Type"@);
    if type_ is None {
        assert forall|j: int| 0 <= j < l.len() implies l[j].0 != "$Type"@ by {
            assert(begins("$Type"@, '$'));
            if j < pm.len() {
                assert(l[j] == pm[j]);
            } else {
                assert(l[j] == am[j - pm.len()]);
            }
        }
    }
    assert(str_member(l, "$Type"@) == opt_chars(type_));
    // The parts.
    let none = (Seq::<PropertyValueView>::empty(), Seq::<AnnotationView>::empty(), Seq::<(Seq<char>, AnnotationView)>::empty());
    lemma_read_type(type_);
    lemma_read_properties(tm, props, none);
    let after_props = (none.0 + bare_values(props), none.1, none.2 + properties_pending(props));
    assert(expressions_read_back(anns));
    lemma_read_annotations(tm + pm, anns, Seq::empty(), after_props);
    assert(none.0 + bare_values(props) =~= bare_values(props));
    assert(none.1 + record_untargeted(anns) =~= record_untargeted(anns));
    assert(none.2 + properties_pending(props) + record_targeted(anns) =~= properties_pending(props)
        + record_targeted(anns));
    assert(record_parts(l) == Ok::<_, Seq<char>>(
        (bare_values(props), record_untargeted(anns), properties_pending(props) + record_targeted(anns)),
    ));
    // Attaching the annotations to their property values.
    lemma_attach_concat(
        bare_values(props),
        record_untargeted(anns),
        properties_pending(props),
        record_targeted(anns),
    );
    let nothing = Seq::<PropertyValueView>::empty();
    assert(bare_values(props) + nothing =~= bare_values(props));
    assert(property_value_views(props) + nothing =~= property_value_views(props));
    lemma_attach_properties(props, nothing, record_untargeted(anns));
    lemma_property_value_views(props);
    assert forall|i: int, j: int|
        0 <= i < anns.len() && 0 <= j < property_value_views(props).len() && (#[trigger] anns[i]).target is Some
            implies (#[trigger] property_value_views(props)[j]).property != anns[i].target.unwrap()@ by {
        assert(property_value_views(props)[j] == property_value_view(props[j]));
        match anns[i].target {
            Some(t) => {},
            None => {},
        }
    }
    assert forall|i: int| 0 <= i < anns.len() implies (#[trigger] anns[i]).expression is Some by {
        assert(readable_annotation(anns[i]));
    }
    lemma_attach_targeted(property_value_views(props), record_untargeted(anns), anns);
    lemma_record_annotation_order(anns);
}

// ---------------------------------------------------------------------------
// The discriminating keys
// ---------------------------------------------------------------------------

/// The discriminating keys as character sequences: their lengths and first
/// characters, which tell any two of them apart.
proof fn lemma_key_texts()
    ensures
        "$Path"@.len() == 5 && "$Path"@[0] == '$' && "$Path"@[1] == 'P' && "$Path"@[2] == 'a',
        "$PropertyPath"@.len() == 13 && "$PropertyPath"@[0] == '$' && "$PropertyPath"@[1] == 'P' && "$PropertyPath"@[2] == 'r',
        "$NavigationPropertyPath"@.len() == 23 && "$NavigationPropertyPath"@[0] == '$' && "$NavigationPropertyPath"@[1] == 'N' && "$NavigationPropertyPath"@[2] == 'a',
        "$AnnotationPath"@.len() == 15 && "$AnnotationPath"@[0] == '$' && "$AnnotationPath"@[1] == 'A' && "$AnnotationPath"@[2] == 'n',
        "$LabeledElementReference"@.len() == 24 && "$LabeledElementReference"@[0] == '$' && "$LabeledElementReference"@[1] == 'L' && "$LabeledElementReference"@[2] == 'a',
        "$Binary"@.len() == 7 && "$Binary"@[0] == '$' && "$Binary"@[1] == 'B' && "$Binary"@[2] == 'i',
        "$Date"@.len() == 5 && "$Date"@[0] == '$' && "$Date"@[1] == 'D' && "$Date"@[2] == 'a',
        "$DateTimeOffset"@.len() == 15 && "$DateTimeOffset"@[0] == '$' && "$DateTimeOffset"@[1] == 'D' && "$DateTimeOffset"@[2] == 'a',
        "$Decimal"@.len() == 8 && "$Decimal"@[0] == '$' && "$Decimal"@[1] == 'D' && "$Decimal"@[2] == 'e',
        "$Duration"@.len() == 9 && "$Duration"@[0] == '$' && "$Duration"@[1] == 'D' && "$Duration"@[2] == 'u',
        "$EnumMember"@.len() == 11 && "$EnumMember"@[0] == '$' && "$EnumMember"@[1] == 'E' && "$EnumMember"@[2] == 'n',
        "$Guid"@.len() == 5 && "$Guid"@[0] == '$' && "$Guid"@[1] == 'G' && "$Guid"@[2] == 'u',
        "$TimeOfDay"@.len() == 10 && "$TimeOfDay"@[0] == '$' && "$TimeOfDay"@[1] == 'T' && "$TimeOfDay"@[2] == 'i',
        "$Not"@.len() == 4 && "$Not"@[0] == '$' && "$Not"@[1] == 'N' && "$Not"@[2] == 'o',
        "$If"@.len() == 3 && "$If"@[0] == '$' && "$If"@[1] == 'I' && "$If"@[2] == 'f',
        "$Apply"@.len() == 6 && "$Apply"@[0] == '$' && "$Apply"@[1] == 'A' && "$Apply"@[2] == 'p',
        "$Cast"@.len() == 5 && "$Cast"@[0] == '$' && "$Cast"@[1] == 'C' && "$Cast"@[2] == 'a',
        "$IsOf"@.len() == 5 && "$IsOf"@[0] == '$' && "$IsOf"@[1] == 'I' && "$IsOf"@[2] == 's',
        "$LabeledElement"@.len() == 15 && "$LabeledElement"@[0] == '$' && "$LabeledElement"@[1] == 'L' && "$LabeledElement"@[2] == 'a',
        "$UrlRef"@.len() == 7 && "$UrlRef"@[0] == '$' && "$UrlRef"@[1] == 'U' && "$UrlRef"@[2] == 'r',
        "$And"@.len() == 4 && "$And"@[0] == '$' && "$And"@[1] == 'A' && "$And"@[2] == 'n',
        "$Or"@.len() == 3 && "$Or"@[0] == '$' && "$Or"@[1] == 'O' && "$Or"@[2] == 'r',
        "$Eq"@.len() == 3 && "$Eq"@[0] == '$' && "$Eq"@[1] == 'E' && "$Eq"@[2] == 'q',
        "$Ne"@.len() == 3 && "$Ne"@[0] == '$' && "$Ne"@[1] == 'N' && "$Ne"@[2] == 'e',
        "$Gt"@.len() == 3 && "$Gt"@[0] == '$' && "$Gt"@[1] == 'G' && "$Gt"@[2] == 't',
        "$Ge"@.len() == 3 && "$Ge"@[0] == '$' && "$Ge"@[1] == 'G' && "$Ge"@[2] == 'e',
        "$Lt"@.len() == 3 && "$Lt"@[0] == '$' && "$Lt"@[1] == 'L' && "$Lt"@[2] == 't',
        "$Le"@.len() == 3 && "$Le"@[0] == '$' && "$Le"@[1] == 'L' && "$Le"@[2] == 'e',
        "$Type"@.len() == 5 && "$Type"@[0] == '$' && "$Type"@[1] == 'T' && "$Type"@[2] == 'y',
        "$Function"@.len() == 9 && "$Function"@[0] == '$' && "$Function"@[1] == 'F' && "$Function"@[2] == 'u',
        "$Name"@.len() == 5 && "$Name"@[0] == '$' && "$Name"@[1] == 'N' && "$Name"@[2] == 'a',
        "$Null"@.len() == 5 && "$Null"@[0] == '$' && "$Null"@[1] == 'N' && "$Null"@[2] == 'u',
        "$Annotations"@.len() == 12 && "$Annotations"@[0] == '$' && "$Annotations"@[1] == 'A' && "$Annotations"@[2] == 'n',
{
    reveal_strlit("$Path");
    reveal_strlit("$PropertyPath");
    reveal_strlit("$NavigationPropertyPath");
    reveal_strlit("$AnnotationPath");
    reveal_strlit("$LabeledElementReference");
    reveal_strlit("$Binary");
    reveal_strlit("$Date");
    reveal_strlit("$DateTimeOffset");
    reveal_strlit("$Decimal");
    reveal_strlit("$Duration");
    reveal_strlit("$EnumMember");
    reveal_strlit("$Guid");
    reveal_strlit("$TimeOfDay");
    reveal_strlit("$Not");
    reveal_strlit("$If");
    reveal_strlit("$Apply");
    reveal_strlit("$Cast");
    reveal_strlit("$IsOf");
    reveal_strlit("$LabeledElement");
    reveal_strlit("$UrlRef");
    reveal_strlit("$And");
    reveal_strlit("$Or");
    reveal_strlit("$Eq");
    reveal_strlit("$Ne");
    reveal_strlit("$Gt");
    reveal_strlit("$Ge");
    reveal_strlit("$Lt");
    reveal_strlit("$Le");
    reveal_strlit("$Type");
    reveal_strlit("$Function");
    reveal_strlit("$Name");
    reveal_strlit("$Null");
    reveal_strlit("$Annotations");
}

proof fn lemma_constant_keys()
    ensures
        forall|s: Seq<char>| #[trigger] constant_expr("$Path"@, s) == Some(ExprView::Path(s)),
        forall|s: Seq<char>| #[trigger] constant_expr("$PropertyPath"@, s) == Some(ExprView::PropertyPath(s)),
        forall|s: Seq<char>| #[trigger] constant_expr("$NavigationPropertyPath"@, s) == Some(ExprView::NavigationPropertyPath(s)),
        forall|s: Seq<char>| #[trigger] constant_expr("$AnnotationPath"@, s) == Some(ExprView::AnnotationPath(s)),
        forall|s: Seq<char>| #[trigger] constant_expr("$Not"@, s) is None,
        forall|s: Seq<char>| #[trigger] constant_expr("$If"@, s) is None,
        forall|s: Seq<char>| #[trigger] constant_expr("$Apply"@, s) is None,
        forall|s: Seq<char>| #[trigger] constant_expr("$Cast"@, s) is None,
        forall|s: Seq<char>| #[trigger] constant_expr("$IsOf"@, s) is None,
        forall|s: Seq<char>| #[trigger] constant_expr("$LabeledElement"@, s) is None,
        forall|s: Seq<char>| #[trigger] constant_expr("$UrlRef"@, s) is None,
        forall|s: Seq<char>| #[trigger] constant_expr("$And"@, s) is None,
        forall|s: Seq<char>| #[trigger] constant_expr("$Or"@, s) is None,
        forall|s: Seq<char>| #[trigger] constant_expr("$Eq"@, s) is None,
        forall|s: Seq<char>| #[trigger] constant_expr("$Ne"@, s) is None,
        forall|s: Seq<char>| #[trigger] constant_expr("$Gt"@, s) is None,
        forall|s: Seq<char>| #[trigger] constant_expr("$Ge"@, s) is None,
        forall|s: Seq<char>| #[trigger] constant_expr("$Lt"@, s) is None,
        forall|s: Seq<char>| #[trigger] constant_expr("$Le"@, s) is None,
{
    lemma_key_texts();
}

proof fn lemma_binary_keys()
    ensures
        binary_op("$And"@) == Some(BinaryOperator::And),
        binary_op("$Or"@) == Some(BinaryOperator::Or),
        binary_op("$Eq"@) == Some(BinaryOperator::Eq),
        binary_op("$Ne"@) == Some(BinaryOperator::Ne),
        binary_op("$Gt"@) == Some(BinaryOperator::Gt),
        binary_op("$Ge"@) == Some(BinaryOperator::Ge),
        binary_op("$Lt"@) == Some(BinaryOperator::Lt),
        binary_op("$Le"@) == Some(BinaryOperator::Le),
        binary_op("$Not"@) is None,
        binary_op("$If"@) is None,
        binary_op("$Apply"@) is None,
        binary_op("$Cast"@) is None,
        binary_op("$IsOf"@) is None,
        binary_op("$LabeledElement"@) is None,
        binary_op("$UrlRef"@) is None,
{
    lemma_key_texts();
}

proof fn lemma_dynamic_keys()
    ensures
        is_dynamic_key("$Path"@),
        is_dynamic_key("$PropertyPath"@),
        is_dynamic_key("$NavigationPropertyPath"@),
        is_dynamic_key("$AnnotationPath"@),
        is_dynamic_key("$Not"@),
        is_dynamic_key("$If"@),
        is_dynamic_key("$Apply"@),
        is_dynamic_key("$Cast"@),
        is_dynamic_key("$IsOf"@),
        is_dynamic_key("$LabeledElement"@),
        is_dynamic_key("$UrlRef"@),
        is_dynamic_key("$And"@),
        is_dynamic_key("$Or"@),
        is_dynamic_key("$Eq"@),
        is_dynamic_key("$Ne"@),
        is_dynamic_key("$Gt"@),
        is_dynamic_key("$Ge"@),
        is_dynamic_key("$Lt"@),
        is_dynamic_key("$Le"@),
        !is_dynamic_key("$Function"@),
        "$If"@ != "$Not"@,
        "$Apply"@ != "$Not"@,
        "$Apply"@ != "$If"@,
        "$Cast"@ != "$Not"@,
        "$Cast"@ != "$If"@,
        "$Cast"@ != "$Apply"@,
        "$IsOf"@ != "$Not"@,
        "$IsOf"@ != "$If"@,
        "$IsOf"@ != "$Apply"@,
        "$IsOf"@ != "$Cast"@,
        "$LabeledElement"@ != "$Not"@,
        "$LabeledElement"@ != "$If"@,
        "$LabeledElement"@ != "$Apply"@,
        "$LabeledElement"@ != "$Cast"@,
        "$LabeledElement"@ != "$IsOf"@,
        "$UrlRef"@ != "$Not"@,
        "$UrlRef"@ != "$If"@,
        "$UrlRef"@ != "$Apply"@,
        "$UrlRef"@ != "$Cast"@,
        "$UrlRef"@ != "$IsOf"@,
        "$UrlRef"@ != "$LabeledElement"@,
        "$Cast"@ != "$Type"@,
        "$IsOf"@ != "$Type"@,
        "$LabeledElement"@ != "$Type"@,
        "$LabeledElement"@ != "$Name"@,
{
    lemma_key_texts();
}

proof fn lemma_op_keys()
    ensures
        forall|op: BinaryOperator| #[trigger] binary_op(op_key(op)) == Some(op),
        forall|op: BinaryOperator| #[trigger] is_dynamic_key(op_key(op)),
        forall|op: BinaryOperator, s: Seq<char>| #[trigger] constant_expr(op_key(op), s) is None,
{
    lemma_constant_keys();
    lemma_binary_keys();
    lemma_dynamic_keys();
    assert forall|op: BinaryOperator| #[trigger] binary_op(op_key(op)) == Some(op) && is_dynamic_key(op_key(op))
        && forall|s: Seq<char>| #[trigger] constant_expr(op_key(op), s) is None by {
        match op {
            BinaryOperator::And => {},
            BinaryOperator::Or => {},
            BinaryOperator::Eq => {},
            BinaryOperator::Ne => {},
            BinaryOperator::Gt => {},
            BinaryOperator::Ge => {},
            BinaryOperator::Lt => {},
            BinaryOperator::Le => {},
        }
    }
}


// ---------------------------------------------------------------------------
// The law
// ---------------------------------------------------------------------------

/// An expression that CSDL JSON carries without loss. The writer puts down
/// binary, date, date-time, decimal, duration, enumeration-member, GUID,
/// time-of-day and labeled-element-reference constants as bare strings,
/// which come back as strings; every other expression is carried, records
/// when they have the shape [`readable_record`] describes, all the way down.
pub open spec fn json_faithful(e: CsdlAnnotationExpression) -> bool
    decreases e,
{
    match e {
        CsdlAnnotationExpression::Bool(_) => true,
        CsdlAnnotationExpression::Int(_) => true,
        CsdlAnnotationExpression::Float(_) => true,
        CsdlAnnotationExpression::String(_) => true,
        CsdlAnnotationExpression::Path(_) => true,
        CsdlAnnotationExpression::PropertyPath(_) => true,
        CsdlAnnotationExpression::NavigationPropertyPath(_) => true,
        CsdlAnnotationExpression::AnnotationPath(_) => true,
        CsdlAnnotationExpression::Null => true,
        CsdlAnnotationExpression::Not(x) => json_faithful(*x),
        CsdlAnnotationExpression::BinaryExpression { lhs, rhs, .. } => json_faithful(*lhs)
            && json_faithful(*rhs),
        CsdlAnnotationExpression::If { test, then_, else_ } => json_faithful(*test) && json_faithful(
            *then_,
        ) && match else_ {
            Some(x) => json_faithful(*x),
            None => true,
        },
        CsdlAnnotationExpression::Apply { args, .. } => all_json_faithful(args@),
        CsdlAnnotationExpression::Cast { expr, .. } => json_faithful(*expr),
        CsdlAnnotationExpression::IsOf { expr, .. } => json_faithful(*expr),
        CsdlAnnotationExpression::LabeledElement { expr, .. } => json_faithful(*expr),
        CsdlAnnotationExpression::UrlRef(x) => json_faithful(*x),
        CsdlAnnotationExpression::Collection(items) => all_json_faithful(items@),
        CsdlAnnotationExpression::Record { type_, properties, annotations } => readable_record(
            type_,
            properties@,
            annotations@,
        ) && values_json_faithful(properties@) && annotations_json_faithful(annotations@),
        _ => false,
    }
}

pub open spec fn all_json_faithful(s: Seq<CsdlAnnotationExpression>) -> bool
    decreases s,
{
    if s.len() == 0 {
        true
    } else {
        all_json_faithful(s.subrange(0, s.len() - 1)) && json_faithful(s[s.len() - 1])
    }
}

pub open spec fn value_json_faithful(p: PropertyValue) -> bool
    decreases p,
{
    let value_ok = match p.value {
        Some(v) => json_faithful(v),
        None => true,
    };
    value_ok && annotations_json_faithful(p.annotations@)
}

pub open spec fn values_json_faithful(s: Seq<PropertyValue>) -> bool
    decreases s,
{
    if s.len() == 0 {
        true
    } else {
        values_json_faithful(s.subrange(0, s.len() - 1)) && value_json_faithful(s[s.len() - 1])
    }
}

pub open spec fn annotation_json_faithful(a: Annotation) -> bool
    decreases a,
{
    match a.expression {
        Some(e) => json_faithful(e),
        None => true,
    }
}

pub open spec fn annotations_json_faithful(s: Seq<Annotation>) -> bool
    decreases s,
{
    if s.len() == 0 {
        true
    } else {
        annotations_json_faithful(s.subrange(0, s.len() - 1)) && annotation_json_faithful(s[s.len() - 1])
    }
}

/// What the JSON reader gives back of what the JSON writer put down: the
/// expression itself, for every expression that JSON carries without loss.
pub proof fn lemma_json_read_back(e: CsdlAnnotationExpression)
    requires
        json_faithful(e),
    ensures
        json_expr(expr_json(e)) == Ok::<_, Seq<char>>(expr_view(e)),
    decreases e,
{
    lemma_constant_keys();
    lemma_binary_keys();
    lemma_dynamic_keys();
    lemma_op_keys();
    match e {
        CsdlAnnotationExpression::Path(v) => {
            assert(dyn_pos(seq![("$Path"@, JsonView::String(v@))]) == Some(0int));
        },
        CsdlAnnotationExpression::PropertyPath(v) => {
            assert(dyn_pos(seq![("$PropertyPath"@, JsonView::String(v@))]) == Some(0int));
        },
        CsdlAnnotationExpression::NavigationPropertyPath(v) => {
            assert(dyn_pos(seq![("$NavigationPropertyPath"@, JsonView::String(v@))]) == Some(0int));
        },
        CsdlAnnotationExpression::AnnotationPath(v) => {
            assert(dyn_pos(seq![("$AnnotationPath"@, JsonView::String(v@))]) == Some(0int));
        },
        CsdlAnnotationExpression::Not(x) => {
            lemma_json_read_back(*x);
            assert(dyn_pos(seq![("$Not"@, expr_json(*x))]) == Some(0int));
        },
        CsdlAnnotationExpression::BinaryExpression { op, lhs, rhs } => {
            lemma_json_read_back(*lhs);
            lemma_json_read_back(*rhs);
            let items = seq![expr_json(*lhs), expr_json(*rhs)];
            assert(dyn_pos(seq![(op_key(op), JsonView::Array(items))]) == Some(0int));
        },
        CsdlAnnotationExpression::If { test, then_, else_ } => {
            lemma_json_read_back(*test);
            lemma_json_read_back(*then_);
            if let Some(x) = else_ {
                lemma_json_read_back(*x);
            }
            assert(dyn_pos(seq![("$If"@, JsonView::Array(Seq::empty()))]) == Some(0int));
        },
        CsdlAnnotationExpression::Apply { function, args } => {
            lemma_all_read_back(args@);
            let m = seq![
                ("$Function"@, JsonView::String(function@)),
                ("$Apply"@, JsonView::Array(exprs_json(args@))),
            ];
            assert(m.drop_first() =~= seq![m[1]]);
            assert(dyn_pos(m.drop_first()) == Some(0int));
            assert(dyn_pos(m) == Some(1int));
        },
        CsdlAnnotationExpression::Cast { type_, expr } => {
            lemma_json_read_back(*expr);
            let m = seq![("$Cast"@, expr_json(*expr)), ("$Type"@, JsonView::String(type_@))];
            assert(dyn_pos(m) == Some(0int));
            assert(m.drop_first() =~= seq![m[1]]);
            assert(key_pos(m.drop_first(), "$Type"@) == Some(0int));
        },
        CsdlAnnotationExpression::IsOf { type_, expr } => {
            lemma_json_read_back(*expr);
            let m = seq![("$IsOf"@, expr_json(*expr)), ("$Type"@, JsonView::String(type_@))];
            assert(dyn_pos(m) == Some(0int));
            assert(m.drop_first() =~= seq![m[1]]);
            assert(key_pos(m.drop_first(), "$Type"@) == Some(0int));
        },
        CsdlAnnotationExpression::LabeledElement { name, expr } => {
            lemma_json_read_back(*expr);
            let m = seq![("$LabeledElement"@, expr_json(*expr)), ("$Name"@, JsonView::String(name@))];
            assert(dyn_pos(m) == Some(0int));
            assert(m.drop_first() =~= seq![m[1]]);
            assert(key_pos(m.drop_first(), "$Name"@) == Some(0int));
        },
        CsdlAnnotationExpression::UrlRef(x) => {
            lemma_json_read_back(*x);
            assert(dyn_pos(seq![("$UrlRef"@, expr_json(*x))]) == Some(0int));
        },
        CsdlAnnotationExpression::Collection(items) => {
            lemma_all_read_back(items@);
        },
        CsdlAnnotationExpression::Record { type_, properties, annotations } => {
            lemma_values_read_back(properties@);
            lemma_annotations_read_back(annotations@);
            lemma_record_read_back(type_, properties@, annotations@);
        },
        _ => {},
    }
}

proof fn lemma_all_read_back(s: Seq<CsdlAnnotationExpression>)
    requires
        all_json_faithful(s),
    ensures
        json_exprs(exprs_json(s)) == Ok::<_, Seq<char>>(expr_views(s)),
    decreases s,
{
    if s.len() > 0 {
        let init = s.subrange(0, s.len() - 1);
        lemma_all_read_back(init);
        lemma_json_read_back(s[s.len() - 1]);
        let w = exprs_json(s);
        assert(w.subrange(0, w.len() - 1) =~= exprs_json(init));
    }
}

proof fn lemma_value_read_back(p: PropertyValue)
    requires
        value_json_faithful(p),
    ensures
        p.value is Some ==> json_expr(expr_json(p.value.unwrap())) == Ok::<_, Seq<char>>(
            expr_view(p.value.unwrap()),
        ),
        expressions_read_back(p.annotations@),
    decreases p,
{
    if let Some(v) = p.value {
        lemma_json_read_back(v);
    }
    lemma_annotations_read_back(p.annotations@);
}

proof fn lemma_values_read_back(s: Seq<PropertyValue>)
    requires
        values_json_faithful(s),
    ensures
        values_read_back(s),
    decreases s,
{
    if s.len() > 0 {
        let init = s.subrange(0, s.len() - 1);
        lemma_values_read_back(init);
        lemma_value_read_back(s[s.len() - 1]);
        assert forall|i: int| 0 <= i < s.len() implies {
            &&& (#[trigger] s[i]).value is Some ==> json_expr(expr_json(s[i].value.unwrap()))
                == Ok::<_, Seq<char>>(expr_view(s[i].value.unwrap()))
            &&& expressions_read_back(s[i].annotations@)
        } by {
            if i < s.len() - 1 {
                assert(init[i] == s[i]);
            }
        }
    }
}

proof fn lemma_annotation_read_back(a: Annotation)
    requires
        annotation_json_faithful(a),
    ensures
        a.expression is Some ==> json_expr(expr_json(a.expression.unwrap())) == Ok::<_, Seq<char>>(
            expr_view(a.expression.unwrap()),
        ),
    decreases a,
{
    if let Some(e) = a.expression {
        lemma_json_read_back(e);
    }
}

proof fn lemma_annotations_read_back(s: Seq<Annotation>)
    requires
        annotations_json_faithful(s),
    ensures
        expressions_read_back(s),
    decreases s,
{
    if s.len() > 0 {
        let init = s.subrange(0, s.len() - 1);
        lemma_annotations_read_back(init);
        lemma_annotation_read_back(s[s.len() - 1]);
        assert forall|i: int| 0 <= i < s.len() implies (#[trigger] s[i]).expression is Some ==> json_expr(
            expr_json(s[i].expression.unwrap()),
        ) == Ok::<_, Seq<char>>(expr_view(s[i].expression.unwrap())) by {
            if i < s.len() - 1 {
                assert(init[i] == s[i]);
            }
        }
    }
}


// ---------------------------------------------------------------------------
// Documents: annotations of a schema
// ---------------------------------------------------------------------------

/// A schema annotation the JSON reader gives back as written: readable, its
/// target none or a plain non-empty name, its expression carried by JSON.
pub open spec fn schema_annotation_readable(a: Annotation) -> bool {
    &&& readable_annotation(a)
    &&& json_faithful(a.expression->0)
    &&& match a.target {
        Some(t) => t@.len() > 0 && plain_name(t@),
        None => true,
    }
}

/// The attributes of the `Annotation` element an annotation is read into.
pub open spec fn annotation_attrs(a: Annotation) -> Seq<(Seq<char>, Seq<char>)> {
    opt_attr(opt_attr(seq![("Term"@, a.term@)], "Qualifier"@, opt_chars(a.qualifier)), "Target"@, opt_chars(a.target))
}

/// The element an annotation is read into.
pub open spec fn annotation_tree(a: Annotation) -> TreeView {
    TreeView {
        name: "Annotation"@,
        attributes: annotation_attrs(a),
        expressions: seq![expr_view(a.expression->0)],
        children: Seq::empty(),
    }
}

pub open spec fn annotation_trees(s: Seq<Annotation>) -> Seq<TreeView>
    decreases s.len(),
{
    if s.len() == 0 {
        Seq::empty()
    } else {
        annotation_trees(s.subrange(0, s.len() - 1)).push(annotation_tree(s[s.len() - 1]))
    }
}

proof fn lemma_fold_push(m: Members, kv: (Seq<char>, JsonView), step: spec_fn((Seq<char>, JsonView)) -> Units)
    ensures
        fold_units(m.push(kv), step) == then(fold_units(m, step), step(kv)),
{
    assert(m.push(kv).drop_last() =~= m);
}

proof fn lemma_then_assoc(a: Units, x: Seq<UnitView>, y: Seq<UnitView>)
    ensures
        then(then(a, Ok(x)), Ok(y)) == then(a, Ok(x + y)),
{
    if let Ok(p) = a {
        assert(p + x + y =~= p + (x + y));
    }
}

/// The schema's annotation members read as `Annotation` elements; no other
/// schema member comes of them.
proof fn lemma_read_schema_annotations(pre: Members, anns: Seq<Annotation>)
    requires
        forall|i: int| 0 <= i < anns.len() ==> schema_annotation_readable(#[trigger] anns[i]),
    ensures
        fold_units(pre + annotation_members(anns, Seq::empty()), schema_ann_step()) == then(
            fold_units(pre, schema_ann_step()),
            Ok(trees_units(annotation_trees(anns))),
        ),
        fold_units(pre + annotation_members(anns, Seq::empty()), schema_member_step()) == then(
            fold_units(pre, schema_member_step()),
            Ok(Seq::<UnitView>::empty()),
        ),
    decreases anns.len(),
{
    let e = Seq::<char>::empty();
    if anns.len() == 0 {
        assert(pre + annotation_members(anns, e) =~= pre);
        assert(trees_units(annotation_trees(anns)) =~= Seq::<UnitView>::empty());
        match fold_units(pre, schema_ann_step()) {
            Ok(p) => { assert(p + Seq::<UnitView>::empty() =~= p); },
            Err(_) => {},
        }
        match fold_units(pre, schema_member_step()) {
            Ok(p) => { assert(p + Seq::<UnitView>::empty() =~= p); },
            Err(_) => {},
        }
    } else {
        let n = anns.len() - 1;
        let init = anns.subrange(0, n);
        let a = anns[n];
        assert forall|i: int| 0 <= i < init.len() implies schema_annotation_readable(#[trigger] init[i]) by {
            assert(init[i] == anns[i]);
        }
        lemma_read_schema_annotations(pre, init);
        assert(schema_annotation_readable(anns[n]));
        let ex = a.expression->0;
        let key = e + annotation_key(a);
        let kv = (key, expr_json(ex));
        assert(annotation_value(a) == expr_json(ex));
        assert(pre + annotation_members(anns, e) =~= (pre + annotation_members(init, e)).push(kv));
        lemma_fold_push(pre + annotation_members(init, e), kv, schema_ann_step());
        lemma_fold_push(pre + annotation_members(init, e), kv, schema_member_step());
        lemma_annotation_key(a);
        let q = opt_chars(a.qualifier);
        let p = match a.target {
            Some(t) => t@,
            None => e,
        };
        assert(key =~= p + "@"@ + a.term@ + qualifier_suffix(q));
        assert(lacks(p, '@') && !begins(p, '$'));
        lemma_key_parts(p, a.term@, q);
        reveal_strlit("@");
        assert(key[p.len() as int] == '@');
        assert(key.contains('@'));
        assert(!plain(key));
        lemma_json_read_back(ex);
        assert(annotation_key_parts(key) == Some((opt_chars(a.target), a.term@, q)));
        let t = annotation_tree(a);
        assert(trees_units(t.children) =~= Seq::<UnitView>::empty());
        assert(expression_views(t.expressions) =~= seq![UnitView::Expression(expr_view(ex))]);
        assert(tree_units(t) =~= seq![
            UnitView::Start { name: "Annotation"@, attributes: annotation_attrs(a) },
            UnitView::Expression(expr_view(ex)),
            UnitView::End { name: "Annotation"@ },
        ]);
        assert(annotation_units(key, expr_json(ex)) == Ok::<_, Seq<char>>(tree_units(t)));
        let ts = annotation_trees(anns);
        assert(ts.subrange(0, ts.len() - 1) =~= annotation_trees(init));
        assert(trees_units(ts) == trees_units(annotation_trees(init)) + tree_units(t));
        lemma_then_assoc(fold_units(pre, schema_ann_step()), trees_units(annotation_trees(init)), tree_units(t));
        lemma_then_assoc(fold_units(pre, schema_member_step()), Seq::<UnitView>::empty(), Seq::<UnitView>::empty());
        assert(Seq::<UnitView>::empty() + Seq::<UnitView>::empty() =~= Seq::<UnitView>::empty());
    }
}


// ---------------------------------------------------------------------------
// Documents: schemas and the document
// ---------------------------------------------------------------------------

/// A schema the JSON reader gives back as written: no elements, a plain
/// namespace, readable annotations under distinct member names.
pub open spec fn schema_readable(s: Schema) -> bool {
    &&& s.elements@.len() == 0
    &&& plain_name(s.namespace@)
    &&& forall|i: int| 0 <= i < s.annotations@.len() ==> schema_annotation_readable(#[trigger] s.annotations@[i])
    &&& distinct_names(annotation_members(s.annotations@, Seq::empty()))
}

/// The members the writer puts down for such a schema.
pub open spec fn schema_members(s: Schema) -> Members {
    put_str(Seq::empty(), "$Alias"@, s.alias) + annotation_members(s.annotations@, Seq::empty())
}

pub open spec fn schema_attrs(s: Schema) -> Seq<(Seq<char>, Seq<char>)> {
    opt_attr(seq![("Namespace"@, s.namespace@)], "Alias"@, opt_chars(s.alias))
}

/// The element a schema is read into.
pub open spec fn schema_tree(s: Schema) -> TreeView {
    TreeView {
        name: "Schema"@,
        attributes: schema_attrs(s),
        expressions: Seq::empty(),
        children: annotation_trees(s.annotations@),
    }
}

pub open spec fn schema_trees(s: Seq<Schema>) -> Seq<TreeView>
    decreases s.len(),
{
    if s.len() == 0 {
        Seq::empty()
    } else {
        schema_trees(s.subrange(0, s.len() - 1)).push(schema_tree(s[s.len() - 1]))
    }
}

pub open spec fn schemas_members(s: Seq<Schema>) -> Members
    decreases s.len(),
{
    if s.len() == 0 {
        Seq::empty()
    } else {
        schemas_members(s.subrange(0, s.len() - 1)).push(
            (s[s.len() - 1].namespace@, JsonView::Object(schema_members(s[s.len() - 1]))),
        )
    }
}

/// The element the document's `Edmx` is read into.
pub open spec fn edmx_tree(e: Edmx) -> TreeView {
    TreeView {
        name: "Edmx"@,
        attributes: seq![("Version"@, e.version->0@)],
        expressions: Seq::empty(),
        children: schema_trees(e.schemas@),
    }
}

proof fn lemma_alias_member(a: Option<String>)
    ensures
        put_str(Seq::empty(), "$Alias"@, a).len() <= 1,
        forall|j: int| 0 <= j < put_str(Seq::empty(), "$Alias"@, a).len() ==> #[trigger] put_str(Seq::empty(), "$Alias"@, a)[j].0 == "$Alias"@,
{
}

proof fn lemma_schema_json(s: Schema)
    requires
        schema_readable(s),
    ensures
        schema_json(s) == JsonView::Object(schema_members(s)),
{
    reveal_strlit("$Alias");
    let e = Seq::<char>::empty();
    let m1 = put_str(Seq::empty(), "$Alias"@, s.alias);
    let anns = s.annotations@;
    assert(schema_elements(m1, Seq::empty(), s.elements@) == (m1, Seq::<(Seq<char>, Seq<JsonView>)>::empty()));
    assert(put_all(m1, Seq::<(Seq<char>, Seq<JsonView>)>::empty(), crate::serialization::group_entry()) == m1);
    assert forall|i: int| 0 <= i < anns.len() implies (#[trigger] anns[i]).term@.len() > 0 by {
        assert(schema_annotation_readable(anns[i]));
    }
    assert forall|i: int| 0 <= i < anns.len() implies readable_annotation(#[trigger] anns[i]) by {
        assert(schema_annotation_readable(anns[i]));
    }
    assert(!begins(e, '$') && lacks(e, '@'));
    assert forall|i: int| 0 <= i < anns.len() implies match (#[trigger] anns[i]).target {
        Some(t) => t@.len() > 0 && plain_name(t@),
        None => true,
    } by {
        assert(schema_annotation_readable(anns[i]));
    }
    lemma_annotation_names(anns, e);
    let am = annotation_members(anns, e);
    lemma_alias_member(s.alias);
    assert(distinct_names(m1 + am)) by {
        assert forall|i: int, j: int| 0 <= i < j < (m1 + am).len() implies (m1 + am)[i].0 != (m1 + am)[j].0 by {
            if j < m1.len() {
                assert(m1.len() <= 1);
            } else if i < m1.len() {
                assert((m1 + am)[i] == m1[i]);
                assert((m1 + am)[j] == am[j - m1.len()]);
                assert(begins("$Alias"@, '$'));
            } else {
                assert((m1 + am)[i] == am[i - m1.len()]);
                assert((m1 + am)[j] == am[j - m1.len()]);
            }
        }
    }
    lemma_annotations_written(m1, anns, e);
}

proof fn lemma_alias_folds(a: Option<String>)
    ensures
        fold_units(put_str(Seq::empty(), "$Alias"@, a), schema_ann_step()) == Ok::<_, Seq<char>>(Seq::<UnitView>::empty()),
        fold_units(put_str(Seq::empty(), "$Alias"@, a), schema_member_step()) == Ok::<_, Seq<char>>(Seq::<UnitView>::empty()),
{
    reveal_strlit("$Alias");
    let none = Seq::<(Seq<char>, JsonView)>::empty();
    if let Some(x) = a {
        let kv = ("$Alias"@, JsonView::String(x@));
        assert(put_str(Seq::empty(), "$Alias"@, a) =~= none.push(kv));
        lemma_fold_push(none, kv, schema_ann_step());
        lemma_fold_push(none, kv, schema_member_step());
        assert(begins("$Alias"@, '$'));
        assert(!plain("$Alias"@));
        assert(Seq::<UnitView>::empty() + Seq::<UnitView>::empty() =~= Seq::<UnitView>::empty());
    } else {
        assert(put_str(Seq::empty(), "$Alias"@, a) =~= none);
    }
}

proof fn lemma_alias_lookup(s: Schema)
    requires
        schema_readable(s),
    ensures
        str_member(schema_members(s), "$Alias"@) == opt_chars(s.alias),
{
    reveal_strlit("$Alias");
    let e = Seq::<char>::empty();
    let anns = s.annotations@;
    let m = schema_members(s);
    assert forall|i: int| 0 <= i < anns.len() implies readable_annotation(#[trigger] anns[i]) && match anns[i].target {
        Some(t) => t@.len() > 0 && plain_name(t@),
        None => true,
    } by {
        assert(schema_annotation_readable(anns[i]));
    }
    assert(!begins(e, '$') && lacks(e, '@'));
    lemma_annotation_names(anns, e);
    lemma_key_pos(m, "$Alias"@);
    if s.alias is None {
        assert(put_str(Seq::empty(), "$Alias"@, s.alias) =~= Seq::<(Seq<char>, JsonView)>::empty());
        assert forall|j: int| 0 <= j < m.len() implies m[j].0 != "$Alias"@ by {
            assert(m[j] == annotation_members(anns, e)[j]);
            assert(begins("$Alias"@, '$'));
        }
    } else {
        assert(m[0] == ("$Alias"@, JsonView::String(s.alias->0@)));
    }
}

proof fn lemma_schema_units(s: Schema)
    requires
        schema_readable(s),
    ensures
        schema_units(s.namespace@, schema_members(s)) == Ok::<_, Seq<char>>(tree_units(schema_tree(s))),
{
    let anns = s.annotations@;
    let m1 = put_str(Seq::empty(), "$Alias"@, s.alias);
    assert forall|i: int| 0 <= i < anns.len() implies schema_annotation_readable(#[trigger] anns[i]) by {}
    lemma_read_schema_annotations(m1, anns);
    lemma_alias_folds(s.alias);
    lemma_alias_lookup(s);
    let m = schema_members(s);
    let body = trees_units(annotation_trees(anns));
    let empty = Seq::<UnitView>::empty();
    assert(empty + body =~= body);
    assert(empty + empty =~= empty);
    assert(fold_units(m, schema_member_step()) == Ok::<_, Seq<char>>(empty));
    assert(fold_units(m, schema_ann_step()) == Ok::<_, Seq<char>>(body));
    let inner = then(fold_units(m, schema_member_step()), fold_units(m, schema_ann_step()));
    assert(inner == Ok::<_, Seq<char>>(body));
    let attrs = opt_attr(seq![("Namespace"@, s.namespace@)], "Alias"@, str_member(m, "$Alias"@));
    assert(attrs == schema_attrs(s));
    let st = seq![UnitView::Start { name: "Schema"@, attributes: schema_attrs(s) }];
    let en = seq![UnitView::End { name: "Schema"@ }];
    assert(wrap("Schema"@, attrs, inner) == Ok::<_, Seq<char>>(st + (body + en)));
    lemma_schema_tree_units(s);
    assert(st + (body + en) =~= st + body + en);
}

proof fn lemma_schema_tree_units(s: Schema)
    ensures
        tree_units(schema_tree(s)) == seq![UnitView::Start { name: "Schema"@, attributes: schema_attrs(s) }]
            + trees_units(annotation_trees(s.annotations@)) + seq![UnitView::End { name: "Schema"@ }],
{
    let t = schema_tree(s);
    let body = trees_units(annotation_trees(s.annotations@));
    assert(expression_views(t.expressions) =~= Seq::<UnitView>::empty());
    assert(Seq::<UnitView>::empty() + body =~= body);
    assert(seq![UnitView::Start { name: "Schema"@, attributes: schema_attrs(s) }] + Seq::<UnitView>::empty()
        =~= seq![UnitView::Start { name: "Schema"@, attributes: schema_attrs(s) }]);
}

proof fn lemma_schemas_json(m: Members, ss: Seq<Schema>)
    requires
        m.len() <= 1,
        forall|j: int| 0 <= j < m.len() ==> begins(#[trigger] m[j].0, '$'),
        forall|i: int| 0 <= i < ss.len() ==> schema_readable(#[trigger] ss[i]),
        forall|i: int, j: int| 0 <= i < j < ss.len() ==> ss[i].namespace@ != ss[j].namespace@,
    ensures
        schemas_json(m, ss) == m + schemas_members(ss),
        forall|j: int| 0 <= j < schemas_members(ss).len() ==> (#[trigger] schemas_members(ss)[j]).0
            == ss[j].namespace@,
        schemas_members(ss).len() == ss.len(),
    decreases ss.len(),
{
    if ss.len() == 0 {
        assert(m + schemas_members(ss) =~= m);
    } else {
        let n = ss.len() - 1;
        let init = ss.subrange(0, n);
        let x = ss[n];
        assert(ss.drop_last() =~= init);
        assert forall|i: int| 0 <= i < init.len() implies schema_readable(#[trigger] init[i]) by {
            assert(init[i] == ss[i]);
        }
        assert forall|i: int, j: int| 0 <= i < j < init.len() implies init[i].namespace@ != init[j].namespace@ by {
            assert(init[i] == ss[i] && init[j] == ss[j]);
        }
        lemma_schemas_json(m, init);
        assert(schema_readable(ss[n]));
        lemma_schema_json(x);
        let before = m + schemas_members(init);
        let kv = (x.namespace@, JsonView::Object(schema_members(x)));
        assert(distinct_names(before.push(kv))) by {
            let all = before.push(kv);
            assert forall|i: int, j: int| 0 <= i < j < all.len() implies all[i].0 != all[j].0 by {
                if j < before.len() {
                    if i < m.len() && j >= m.len() {
                        assert(all[j].0 == init[j - m.len()].namespace@);
                        assert(begins(all[i].0, '$'));
                        assert(init[j - m.len()] == ss[j - m.len()]);
                        assert(schema_readable(ss[j - m.len()]));
                    } else if i >= m.len() {
                        assert(all[i].0 == init[i - m.len()].namespace@);
                        assert(all[j].0 == init[j - m.len()].namespace@);
                        assert(init[i - m.len()] == ss[i - m.len()] && init[j - m.len()] == ss[j - m.len()]);
                    } else {
                        assert(false);
                    }
                } else {
                    assert(all[j] == kv);
                    if i < m.len() {
                        assert(begins(all[i].0, '$'));
                    } else {
                        assert(all[i].0 == init[i - m.len()].namespace@);
                        assert(init[i - m.len()] == ss[i - m.len()]);
                    }
                }
            }
        }
        lemma_insert_appends(before, kv.0, kv.1);
        assert(first_container(x.elements@) is None);
        assert(schemas_members(ss) == schemas_members(init).push(kv));
        assert(m + schemas_members(ss) =~= before.push(kv));
        assert forall|j: int| 0 <= j < schemas_members(ss).len() implies (#[trigger] schemas_members(ss)[j]).0
            == ss[j].namespace@ by {
            if j < n {
                assert(schemas_members(ss)[j] == schemas_members(init)[j]);
                assert(init[j] == ss[j]);
            }
        }
    }
}

proof fn lemma_read_schemas(pre: Members, ss: Seq<Schema>)
    requires
        forall|i: int| 0 <= i < ss.len() ==> schema_readable(#[trigger] ss[i]),
    ensures
        fold_units(pre + schemas_members(ss), schema_step()) == then(
            fold_units(pre, schema_step()),
            Ok(trees_units(schema_trees(ss))),
        ),
    decreases ss.len(),
{
    if ss.len() == 0 {
        assert(pre + schemas_members(ss) =~= pre);
        assert(trees_units(schema_trees(ss)) =~= Seq::<UnitView>::empty());
        match fold_units(pre, schema_step()) {
            Ok(p) => { assert(p + Seq::<UnitView>::empty() =~= p); },
            Err(_) => {},
        }
    } else {
        let n = ss.len() - 1;
        let init = ss.subrange(0, n);
        let x = ss[n];
        assert forall|i: int| 0 <= i < init.len() implies schema_readable(#[trigger] init[i]) by {
            assert(init[i] == ss[i]);
        }
        lemma_read_schemas(pre, init);
        assert(schema_readable(ss[n]));
        let kv = (x.namespace@, JsonView::Object(schema_members(x)));
        assert(pre + schemas_members(ss) =~= (pre + schemas_members(init)).push(kv));
        lemma_fold_push(pre + schemas_members(init), kv, schema_step());
        assert(!begins(x.namespace@, '@')) by {
            if x.namespace@.len() > 0 {
                assert(x.namespace@[0] != '@');
            }
        }
        lemma_schema_units(x);
        let ts = schema_trees(ss);
        assert(ts.subrange(0, ts.len() - 1) =~= schema_trees(init));
        assert(trees_units(ts) == trees_units(schema_trees(init)) + tree_units(schema_tree(x)));
        lemma_then_assoc(fold_units(pre, schema_step()), trees_units(schema_trees(init)), tree_units(schema_tree(x)));
    }
}


/// A document the JSON reader gives back as written: an `Edmx` with a
/// version and no references, whose schemas have distinct namespaces and
/// are readable (see [`schema_readable`]).
pub open spec fn document_readable(d: CsdlDocument) -> bool {
    &&& d.edmx matches Some(e)
    &&& e.version is Some
    &&& e.references@.len() == 0
    &&& forall|i: int| 0 <= i < e.schemas@.len() ==> schema_readable(#[trigger] e.schemas@[i])
    &&& forall|i: int, j: int|
        0 <= i < j < e.schemas@.len() ==> e.schemas@[i].namespace@ != e.schemas@[j].namespace@
}

proof fn lemma_tree_units_edmx(e: Edmx)
    ensures
        tree_units(edmx_tree(e)) == seq![UnitView::Start { name: "Edmx"@, attributes: seq![("Version"@, e.version->0@)] }]
            + trees_units(schema_trees(e.schemas@)) + seq![UnitView::End { name: "Edmx"@ }],
{
    let t = edmx_tree(e);
    let body = trees_units(schema_trees(e.schemas@));
    assert(expression_views(t.expressions) =~= Seq::<UnitView>::empty());
    assert(Seq::<UnitView>::empty() + body =~= body);
    assert(seq![UnitView::Start { name: "Edmx"@, attributes: seq![("Version"@, e.version->0@)] }]
        + Seq::<UnitView>::empty() =~= seq![UnitView::Start { name: "Edmx"@, attributes: seq![("Version"@, e.version->0@)] }]);
}

/// The JSON reader reads a written readable document into the units of
/// its `Edmx` element.
proof fn lemma_document_units(d: CsdlDocument)
    requires
        document_readable(d),
    ensures
        document_units(document_json(d)) == Ok::<_, Seq<char>>(trees_units(seq![edmx_tree(d.edmx->0)])),
{
    reveal_strlit("$Version");
    reveal_strlit("$Reference");
    let e = d.edmx->0;
    let v = e.version->0;
    let ss = e.schemas@;
    let m1 = put_str(Seq::empty(), "$Version"@, e.version);
    let kv = ("$Version"@, JsonView::String(v@));
    let none = Seq::<(Seq<char>, JsonView)>::empty();
    assert(m1 =~= none.push(kv));
    assert(begins("$Version"@, '$'));
    lemma_schemas_json(m1, ss);
    let root = m1 + schemas_members(ss);
    assert(document_json(d) == JsonView::Object(root));
    // The version and the absence of references.
    assert(root[0] == kv);
    assert(str_member(root, "$Version"@) == Some(v@));
    lemma_key_pos(root, "$Reference"@);
    assert forall|j: int| 0 <= j < root.len() implies root[j].0 != "$Reference"@ by {
        if j == 0 {
            assert("$Version"@.len() != "$Reference"@.len());
        } else {
            assert(root[j] == schemas_members(ss)[j - 1]);
            assert(schema_readable(ss[j - 1]));
            assert(begins("$Reference"@, '$'));
        }
    }
    assert(member(root, "$Reference"@) is None);
    // The schemas.
    lemma_read_schemas(m1, ss);
    lemma_fold_push(none, kv, schema_step());
    let empty = Seq::<UnitView>::empty();
    assert(empty + empty =~= empty);
    assert(fold_units(m1, schema_step()) == Ok::<_, Seq<char>>(empty));
    let body = trees_units(schema_trees(ss));
    assert(empty + body =~= body);
    assert(fold_units(root, schema_step()) == Ok::<_, Seq<char>>(body));
    let st = seq![UnitView::Start { name: "Edmx"@, attributes: seq![("Version"@, v@)] }];
    let en = seq![UnitView::End { name: "Edmx"@ }];
    assert(edmx_units(root) == Ok::<_, Seq<char>>(st + (body + en)));
    lemma_tree_units_edmx(e);
    assert(st + (body + en) =~= st + body + en);
    let one = seq![edmx_tree(e)];
    assert(one.subrange(0, 0) =~= Seq::<TreeView>::empty());
    assert(trees_units(one) == trees_units(Seq::<TreeView>::empty()) + tree_units(edmx_tree(e)));
    assert(Seq::<UnitView>::empty() + tree_units(edmx_tree(e)) =~= tree_units(edmx_tree(e)));
}


// ---------------------------------------------------------------------------
// Documents: reading the elements back
// ---------------------------------------------------------------------------

/// The value of the first attribute named `k`, over character sequences.
pub open spec fn attr_lookup(a: Seq<(Seq<char>, Seq<char>)>, k: Seq<char>) -> Option<Seq<char>>
    decreases a.len(),
{
    if a.len() == 0 {
        None
    } else {
        match attr_lookup(a.drop_last(), k) {
            Some(v) => Some(v),
            None => if a.last().0 == k {
                Some(a.last().1)
            } else {
                None
            },
        }
    }
}

proof fn lemma_attr_lookup(a: Seq<(String, String)>, k: Seq<char>)
    ensures
        attr_spec(a, k) == attr_lookup(attr_views(a), k),
    decreases a.len(),
{
    if a.len() > 0 {
        assert(attr_views(a).drop_last() =~= attr_views(a.drop_last()));
        lemma_attr_lookup(a.drop_last(), k);
    }
}

proof fn lemma_trees_of(f: Seq<RawView>)
    ensures
        trees_of(f).len() == f.len(),
        forall|i: int| 0 <= i < f.len() ==> #[trigger] trees_of(f)[i] == tree_of(f[i]),
    decreases f.len(),
{
    if f.len() > 0 {
        let init = f.subrange(0, f.len() - 1);
        lemma_trees_of(init);
        assert forall|i: int| 0 <= i < f.len() implies #[trigger] trees_of(f)[i] == tree_of(f[i]) by {
            if i < f.len() - 1 {
                assert(init[i] == f[i]);
            }
        }
    }
}

proof fn lemma_raw_views_index(s: Seq<RawElement>)
    ensures
        raw_views(s).len() == s.len(),
        forall|i: int| 0 <= i < s.len() ==> #[trigger] raw_views(s)[i] == raw_view(s[i]),
    decreases s.len(),
{
    if s.len() > 0 {
        let init = s.subrange(0, s.len() - 1);
        lemma_raw_views_index(init);
        assert forall|i: int| 0 <= i < s.len() implies #[trigger] raw_views(s)[i] == raw_view(s[i]) by {
            if i < s.len() - 1 {
                assert(init[i] == s[i]);
            }
        }
    }
}

/// What the view of an element says of the element.
proof fn lemma_element_view(x: RawElement, t: TreeView)
    requires
        tree_of(raw_view(x)) == t,
    ensures
        x.name@ == t.name,
        forall|k: Seq<char>| #[trigger] attr_spec(x.attributes@, k) == attr_lookup(t.attributes, k),
        expr_views(x.annotation_expressions@) == t.expressions,
        x.children@.len() == t.children.len(),
        forall|i: int| 0 <= i < x.children@.len() ==> #[trigger] tree_of(raw_view(x.children@[i])) == t.children[i],
{
    assert forall|k: Seq<char>| #[trigger] attr_spec(x.attributes@, k) == attr_lookup(t.attributes, k) by {
        lemma_attr_lookup(x.attributes@, k);
    }
    lemma_raw_views_index(x.children@);
    lemma_trees_of(raw_views(x.children@));
}

/// The element names the document's elements have, told apart.
proof fn lemma_element_names()
    ensures
        "Schema"@ != "DataServices"@,
        "Schema"@ != "Reference"@,
        "Schema"@ != "Edmx"@,
        "Annotation"@ != "EntityType"@,
        "Annotation"@ != "ComplexType"@,
        "Annotation"@ != "EnumType"@,
        "Annotation"@ != "TypeDefinition"@,
        "Annotation"@ != "Term"@,
        "Annotation"@ != "Function"@,
        "Annotation"@ != "Action"@,
        "Annotation"@ != "EntityContainer"@,
        "Term"@ != "Qualifier"@ && "Term"@ != "Target"@ && "Qualifier"@ != "Target"@,
        "Namespace"@ != "Alias"@,
{
    reveal_strlit("Schema");
    reveal_strlit("DataServices");
    reveal_strlit("Reference");
    reveal_strlit("Edmx");
    reveal_strlit("Annotation");
    reveal_strlit("EntityType");
    reveal_strlit("ComplexType");
    reveal_strlit("EnumType");
    reveal_strlit("TypeDefinition");
    reveal_strlit("Term");
    reveal_strlit("Function");
    reveal_strlit("Action");
    reveal_strlit("EntityContainer");
    reveal_strlit("Qualifier");
    reveal_strlit("Target");
    reveal_strlit("Namespace");
    reveal_strlit("Alias");
    assert("Schema"@.len() == 6 && "DataServices"@.len() == 12 && "Reference"@.len() == 9 && "Edmx"@.len() == 4);
    assert("Annotation"@[0] == 'A' && "EntityType"@[0] == 'E');
    assert("Annotation"@.len() == 10 && "ComplexType"@.len() == 11 && "EnumType"@.len() == 8);
    assert("TypeDefinition"@.len() == 14 && "Term"@.len() == 4 && "Function"@.len() == 8 && "Action"@.len() == 6);
    assert("EntityContainer"@.len() == 15 && "Qualifier"@.len() == 9 && "Target"@.len() == 6);
    assert("Namespace"@.len() == 9 && "Alias"@.len() == 5);
}


proof fn lemma_named_all(ch: Seq<RawElement>, n: Seq<char>)
    requires
        forall|i: int| 0 <= i < ch.len() ==> (#[trigger] ch[i]).name@ == n,
    ensures
        named(ch, n) == ch,
    decreases ch.len(),
{
    if ch.len() > 0 {
        assert forall|i: int| 0 <= i < ch.drop_last().len() implies (#[trigger] ch.drop_last()[i]).name@ == n by {
            assert(ch.drop_last()[i] == ch[i]);
        }
        lemma_named_all(ch.drop_last(), n);
        assert(ch.drop_last().push(ch.last()) =~= ch);
    }
}

proof fn lemma_named_none(ch: Seq<RawElement>, n: Seq<char>)
    requires
        forall|i: int| 0 <= i < ch.len() ==> (#[trigger] ch[i]).name@ != n,
    ensures
        named(ch, n) == Seq::<RawElement>::empty(),
    decreases ch.len(),
{
    if ch.len() > 0 {
        assert forall|i: int| 0 <= i < ch.drop_last().len() implies (#[trigger] ch.drop_last()[i]).name@ != n by {
            assert(ch.drop_last()[i] == ch[i]);
        }
        lemma_named_none(ch.drop_last(), n);
    }
}

proof fn lemma_seq_fail_none(ch: Seq<RawElement>, f: spec_fn(RawElement) -> Option<Seq<char>>)
    requires
        forall|i: int| 0 <= i < ch.len() ==> f(#[trigger] ch[i]) is None,
    ensures
        seq_fail(ch, f) is None,
    decreases ch.len(),
{
    if ch.len() > 0 {
        assert forall|i: int| 0 <= i < ch.drop_last().len() implies f(#[trigger] ch.drop_last()[i]) is None by {
            assert(ch.drop_last()[i] == ch[i]);
        }
        lemma_seq_fail_none(ch.drop_last(), f);
        assert(f(ch[ch.len() - 1]) is None);
    }
}

proof fn lemma_no_element_raws(ch: Seq<RawElement>)
    requires
        forall|i: int| 0 <= i < ch.len() ==> (#[trigger] ch[i]).name@ == "Annotation"@,
    ensures
        element_raws(ch) == Seq::<RawElement>::empty(),
    decreases ch.len(),
{
    if ch.len() > 0 {
        lemma_element_names();
        assert forall|i: int| 0 <= i < ch.drop_last().len() implies (#[trigger] ch.drop_last()[i]).name@ == "Annotation"@ by {
            assert(ch.drop_last()[i] == ch[i]);
        }
        lemma_no_element_raws(ch.drop_last());
        assert(ch.last() == ch[ch.len() - 1]);
    }
}

proof fn lemma_edmx_schema_raws(ch: Seq<RawElement>)
    requires
        forall|i: int| 0 <= i < ch.len() ==> (#[trigger] ch[i]).name@ == "Schema"@,
    ensures
        edmx_schema_raws(ch) == ch,
    decreases ch.len(),
{
    if ch.len() > 0 {
        lemma_element_names();
        assert forall|i: int| 0 <= i < ch.drop_last().len() implies (#[trigger] ch.drop_last()[i]).name@ == "Schema"@ by {
            assert(ch.drop_last()[i] == ch[i]);
        }
        lemma_edmx_schema_raws(ch.drop_last());
        assert(ch.last() == ch[ch.len() - 1]);
        assert(ch.drop_last() + seq![ch.last()] =~= ch);
    }
}

proof fn lemma_annotation_trees(s: Seq<Annotation>)
    ensures
        annotation_trees(s).len() == s.len(),
        forall|i: int| 0 <= i < s.len() ==> #[trigger] annotation_trees(s)[i] == annotation_tree(s[i]),
    decreases s.len(),
{
    if s.len() > 0 {
        let init = s.subrange(0, s.len() - 1);
        lemma_annotation_trees(init);
        assert forall|i: int| 0 <= i < s.len() implies #[trigger] annotation_trees(s)[i] == annotation_tree(s[i]) by {
            if i < s.len() - 1 {
                assert(init[i] == s[i]);
            }
        }
    }
}

proof fn lemma_annotation_views_index(s: Seq<Annotation>)
    ensures
        annotation_views(s).len() == s.len(),
        forall|i: int| 0 <= i < s.len() ==> #[trigger] annotation_views(s)[i] == annotation_view(s[i]),
    decreases s.len(),
{
    if s.len() > 0 {
        let init = s.subrange(0, s.len() - 1);
        lemma_annotation_views_index(init);
        assert forall|i: int| 0 <= i < s.len() implies #[trigger] annotation_views(s)[i] == annotation_view(s[i]) by {
            if i < s.len() - 1 {
                assert(init[i] == s[i]);
            }
        }
    }
}

/// An `Annotation` element read back gives the annotation written.
proof fn lemma_annotation_element(x: RawElement, a: Annotation, a1: Annotation)
    requires
        tree_of(raw_view(x)) == annotation_tree(a),
        schema_annotation_readable(a),
        crate::parser::annotation_read(x, a1),
    ensures
        annotation_view(a1) == annotation_view(a),
{
    lemma_element_view(x, annotation_tree(a));
    lemma_element_names();
    let t = annotation_tree(a);
    let q = opt_chars(a.qualifier);
    let tg = opt_chars(a.target);
    let a0 = seq![("Term"@, a.term@)];
    let a01 = opt_attr(a0, "Qualifier"@, q);
    assert(a0.drop_last() =~= Seq::<(Seq<char>, Seq<char>)>::empty());
    assert(a0.len() == 1 && a0.last() == ("Term"@, a.term@));
    assert(attr_lookup(a0.drop_last(), "Term"@) is None);
    assert(attr_lookup(a0.drop_last(), "Qualifier"@) is None);
    assert(attr_lookup(a0.drop_last(), "Target"@) is None);
    assert(attr_lookup(a0, "Term"@) == Some(a.term@));
    assert(attr_lookup(a0, "Qualifier"@) is None);
    assert(attr_lookup(a0, "Target"@) is None);
    if let Some(qq) = q {
        assert(a01.drop_last() =~= a0);
    }
    assert(attr_lookup(a01, "Term"@) == Some(a.term@));
    assert(attr_lookup(a01, "Qualifier"@) == q);
    assert(attr_lookup(a01, "Target"@) is None);
    if let Some(tt) = tg {
        assert(annotation_attrs(a).drop_last() =~= a01);
    }
    assert(attr_lookup(annotation_attrs(a), "Term"@) == Some(a.term@));
    assert(attr_lookup(annotation_attrs(a), "Qualifier"@) == q);
    assert(attr_lookup(annotation_attrs(a), "Target"@) == tg);
    assert(attr_spec(x.attributes@, "Term"@) == Some(a.term@));
    assert(attr_spec(x.attributes@, "Qualifier"@) == q);
    assert(attr_spec(x.attributes@, "Target"@) == tg);
    lemma_expr_views_index(x.annotation_expressions@);
    assert(expr_views(x.annotation_expressions@) == seq![expr_view(a.expression->0)]);
    assert(x.annotation_expressions@.len() == 1);
    assert(expr_views(x.annotation_expressions@)[0] == expr_view(x.annotation_expressions@[0]));
    assert(seq![expr_view(a.expression->0)][0] == expr_view(a.expression->0));
    assert(expr_view(x.annotation_expressions@[0]) == expr_view(a.expression->0));
    assert(a1.expression == Some(x.annotation_expressions@[0]));
    assert(a.expression is Some);
}

proof fn lemma_expr_views_index(s: Seq<CsdlAnnotationExpression>)
    ensures
        expr_views(s).len() == s.len(),
        forall|i: int| 0 <= i < s.len() ==> #[trigger] expr_views(s)[i] == expr_view(s[i]),
{
    crate::expr::lemma_expr_views(s);
}


/// The children of a `Schema` element a readable schema is read into are
/// its `Annotation` elements, and none of them fails.
proof fn lemma_schema_children(x: RawElement, s: Schema)
    requires
        tree_of(raw_view(x)) == schema_tree(s),
    ensures
        x.children@.len() == s.annotations@.len(),
        forall|i: int| 0 <= i < x.children@.len() ==> (#[trigger] x.children@[i]).name@ == "Annotation"@,
        forall|i: int| 0 <= i < x.children@.len() ==> tree_of(raw_view(#[trigger] x.children@[i])) == annotation_tree(s.annotations@[i]),
        crate::parser::schema_fail(x) is None,
{
    lemma_element_view(x, schema_tree(s));
    lemma_element_names();
    let ch = x.children@;
    let anns = s.annotations@;
    lemma_annotation_trees(anns);
    assert forall|i: int| 0 <= i < ch.len() implies tree_of(raw_view(#[trigger] ch[i])) == annotation_tree(anns[i]) by {
        assert(tree_of(raw_view(ch[i])) == annotation_trees(anns)[i]);
    }
    assert forall|i: int| 0 <= i < ch.len() implies (#[trigger] ch[i]).name@ == "Annotation"@ by {
        lemma_element_view(ch[i], annotation_tree(anns[i]));
    }
    assert forall|i: int| 0 <= i < ch.len() implies (crate::parser::schema_child_fail_fn())(#[trigger] ch[i]) is None by {
        assert(ch[i].name@ == "Annotation"@);
    }
    lemma_seq_fail_none(ch, crate::parser::schema_child_fail_fn());
}

/// A `Schema` element read back gives the schema written.
proof fn lemma_schema_element(x: RawElement, s: Schema, s1: Schema)
    requires
        tree_of(raw_view(x)) == schema_tree(s),
        schema_readable(s),
        crate::parser::schema_read(x, s1),
    ensures
        s1.namespace@ == s.namespace@,
        opt_chars(s1.alias) == opt_chars(s.alias),
        s1.elements@.len() == 0,
        annotation_views(s1.annotations@) == annotation_views(s.annotations@),
        crate::parser::schema_fail(x) is None,
{
    lemma_element_view(x, schema_tree(s));
    lemma_element_names();
    let al = opt_chars(s.alias);
    let a0 = seq![("Namespace"@, s.namespace@)];
    assert(a0.drop_last() =~= Seq::<(Seq<char>, Seq<char>)>::empty());
    assert(a0.len() == 1 && a0.last() == ("Namespace"@, s.namespace@));
    assert(attr_lookup(a0.drop_last(), "Namespace"@) is None);
    assert(attr_lookup(a0.drop_last(), "Alias"@) is None);
    assert(attr_lookup(a0, "Namespace"@) == Some(s.namespace@));
    assert(attr_lookup(a0, "Alias"@) is None);
    if let Some(aa) = al {
        assert(schema_attrs(s).drop_last() =~= a0);
    }
    assert(attr_lookup(schema_attrs(s), "Namespace"@) == Some(s.namespace@));
    assert(attr_lookup(schema_attrs(s), "Alias"@) == al);
    assert(attr_spec(x.attributes@, "Namespace"@) == Some(s.namespace@));
    assert(attr_spec(x.attributes@, "Alias"@) == al);
    let ch = x.children@;
    let anns = s.annotations@;
    lemma_schema_children(x, s);
    lemma_named_all(ch, "Annotation"@);
    lemma_no_element_raws(ch);
    assert(crate::parser::elements_of(Seq::empty(), s1.elements@));
    let a1 = s1.annotations@;
    assert(crate::parser::annotations_of(ch, a1));
    assert(a1.len() == anns.len());
    lemma_annotation_views_index(anns);
    lemma_annotation_views_index(a1);
    assert forall|i: int| 0 <= i < a1.len() implies #[trigger] annotation_views(a1)[i] == annotation_views(anns)[i] by {
        assert(crate::parser::annotation_read(ch[i], a1[i]));
        assert(tree_of(raw_view(ch[i])) == annotation_tree(anns[i]));
        assert(schema_annotation_readable(anns[i]));
        lemma_annotation_element(ch[i], anns[i], a1[i]);
    }
    assert(annotation_views(a1) =~= annotation_views(anns));
}


proof fn lemma_schema_trees(s: Seq<Schema>)
    ensures
        schema_trees(s).len() == s.len(),
        forall|i: int| 0 <= i < s.len() ==> #[trigger] schema_trees(s)[i] == schema_tree(s[i]),
    decreases s.len(),
{
    if s.len() > 0 {
        let init = s.subrange(0, s.len() - 1);
        lemma_schema_trees(init);
        assert forall|i: int| 0 <= i < s.len() implies #[trigger] schema_trees(s)[i] == schema_tree(s[i]) by {
            if i < s.len() - 1 {
                assert(init[i] == s[i]);
            }
        }
    }
}

/// A schema read back as the one written: the same namespace, alias and
/// annotations, and no elements.
pub open spec fn schema_read_back(s: Schema, s1: Schema) -> bool {
    &&& s1.namespace@ == s.namespace@
    &&& opt_chars(s1.alias) == opt_chars(s.alias)
    &&& s1.elements@.len() == 0
    &&& annotation_views(s1.annotations@) == annotation_views(s.annotations@)
}

/// A document read back as the one written: the same version, no
/// references, and its schemas, in order, each read back as written.
pub open spec fn document_read_back(d: CsdlDocument, d1: CsdlDocument) -> bool {
    &&& d.edmx matches Some(e)
    &&& d1.edmx matches Some(e1)
    &&& opt_chars(e1.version) == opt_chars(e.version)
    &&& e1.references@.len() == 0
    &&& e1.schemas@.len() == e.schemas@.len()
    &&& forall|i: int| 0 <= i < e.schemas@.len() ==> #[trigger] schema_read_back(e.schemas@[i], e1.schemas@[i])
}

/// Writing a document as CSDL JSON and reading the JSON back gives the
/// document again, for a document with a version, no references, and
/// schemas with distinct plain namespaces that hold annotations only (each
/// with a term and an expression that JSON carries without loss, distinct
/// member names, and a plain target if any): the JSON reader turns the
/// written value into syntax units, and the document those units assemble
/// into (the outcome [`crate::parser::from_json_value`] states) has the
/// same version, no references, and the same schemas with the same
/// namespaces, aliases and annotations; written again, it gives the same
/// JSON value.
pub proof fn lemma_json_document_read_back(
    d: CsdlDocument,
    units: Seq<SyntaxUnit>,
    r: Result<CsdlDocument, ReadError>,
)
    requires
        document_readable(d),
    ensures
        document_units(document_json(d)) is Ok,
        unit_views(units) == document_units(document_json(d))->Ok_0 && units_outcome(units, r) ==> (r matches Ok(
            d1,
        ) && document_read_back(d, d1) && document_json(d1) == document_json(d)),
{
    lemma_document_units(d);
    let e = d.edmx->0;
    let ss = e.schemas@;
    let tf = seq![edmx_tree(e)];
    if unit_views(units) == document_units(document_json(d))->Ok_0 && units_outcome(units, r) {
        lemma_assemble_spelled_views(units, tf);
        let f = assemble(units)->Ok_0;
        lemma_trees_of(f);
        assert(f.len() == 1);
        assert(tree_of(f[0]) == edmx_tree(e));
        assert(f[0].name == "Edmx"@);
        assert(first_edmx(f) == Some(f[0]));
        let raw = choose|raw: RawElement| raw_view(raw) == f[0] && #[trigger] edmx_outcome(raw, r);
        lemma_edmx_element(d, raw, r);
        lemma_document_json_view(d, r->Ok_0);
    }
}


/// The `Edmx` element a readable document is read into reads back as the
/// document.
proof fn lemma_edmx_element(d: CsdlDocument, raw: RawElement, r: Result<CsdlDocument, ReadError>)
    requires
        document_readable(d),
        tree_of(raw_view(raw)) == edmx_tree(d.edmx->0),
        edmx_outcome(raw, r),
    ensures
        r matches Ok(d1) && document_read_back(d, d1),
{
    let e = d.edmx->0;
    let ss = e.schemas@;
    lemma_element_view(raw, edmx_tree(e));
    lemma_element_names();
    let ch = raw.children@;
    lemma_schema_trees(ss);
    assert forall|i: int| 0 <= i < ch.len() implies tree_of(raw_view(#[trigger] ch[i])) == schema_tree(ss[i]) by {
        assert(tree_of(raw_view(ch[i])) == schema_trees(ss)[i]);
    }
    assert forall|i: int| 0 <= i < ch.len() implies (#[trigger] ch[i]).name@ == "Schema"@ by {
        lemma_element_view(ch[i], schema_tree(ss[i]));
    }
    lemma_edmx_schema_raws(ch);
    lemma_named_none(ch, "Reference"@);
    assert(edmx_fail(raw) is None) by {
        assert forall|i: int| 0 <= i < ch.len() implies (schema_fail_fn())(#[trigger] ch[i]) is None by {
            lemma_schema_children(ch[i], ss[i]);
        }
        lemma_seq_fail_none(ch, schema_fail_fn());
    }
    let d1 = r->Ok_0;
    let e1 = d1.edmx->0;
    assert(edmx_read(raw, e1));
    let vs = seq![("Version"@, e.version->0@)];
    assert(attr_lookup(vs, "Version"@) == Some(e.version->0@)) by {
        assert(vs.drop_last() =~= Seq::<(Seq<char>, Seq<char>)>::empty());
        assert(vs.len() == 1 && vs.last() == ("Version"@, e.version->0@));
        assert(attr_lookup(vs.drop_last(), "Version"@) is None);
    }
    assert(attr_spec(raw.attributes@, "Version"@) == Some(e.version->0@));
    assert forall|i: int| 0 <= i < ss.len() implies #[trigger] schema_read_back(ss[i], e1.schemas@[i]) by {
        assert(crate::parser::schema_read(ch[i], e1.schemas@[i]));
        lemma_schema_element(ch[i], ss[i], e1.schemas@[i]);
    }
}


// ---------------------------------------------------------------------------
// The JSON of a value depends on its view alone
// ---------------------------------------------------------------------------

/// Two expressions with one view are written alike.
proof fn lemma_expr_json_view(e1: CsdlAnnotationExpression, e2: CsdlAnnotationExpression)
    requires
        expr_view(e1) == expr_view(e2),
    ensures
        expr_json(e1) == expr_json(e2),
    decreases e1,
{
    match e1 {
        CsdlAnnotationExpression::Not(x1) => {
            if let CsdlAnnotationExpression::Not(x2) = e2 {
                lemma_expr_json_view(*x1, *x2);
            }
        },
        CsdlAnnotationExpression::UrlRef(x1) => {
            if let CsdlAnnotationExpression::UrlRef(x2) = e2 {
                lemma_expr_json_view(*x1, *x2);
            }
        },
        CsdlAnnotationExpression::BinaryExpression { op, lhs, rhs } => {
            if let CsdlAnnotationExpression::BinaryExpression { op: op2, lhs: l2, rhs: r2 } = e2 {
                lemma_expr_json_view(*lhs, *l2);
                lemma_expr_json_view(*rhs, *r2);
            }
        },
        CsdlAnnotationExpression::If { test, then_, else_ } => {
            if let CsdlAnnotationExpression::If { test: t2, then_: h2, else_: x2 } = e2 {
                lemma_expr_json_view(*test, *t2);
                lemma_expr_json_view(*then_, *h2);
                match else_ {
                    Some(x) => {
                        lemma_expr_json_view(*x, *(x2->0));
                    },
                    None => {},
                }
            }
        },
        CsdlAnnotationExpression::Apply { function, args } => {
            if let CsdlAnnotationExpression::Apply { function: f2, args: a2 } = e2 {
                lemma_exprs_json_view(args@, a2@);
            }
        },
        CsdlAnnotationExpression::Cast { type_, expr } => {
            if let CsdlAnnotationExpression::Cast { type_: t2, expr: x2 } = e2 {
                lemma_expr_json_view(*expr, *x2);
            }
        },
        CsdlAnnotationExpression::IsOf { type_, expr } => {
            if let CsdlAnnotationExpression::IsOf { type_: t2, expr: x2 } = e2 {
                lemma_expr_json_view(*expr, *x2);
            }
        },
        CsdlAnnotationExpression::LabeledElement { name, expr } => {
            if let CsdlAnnotationExpression::LabeledElement { name: n2, expr: x2 } = e2 {
                lemma_expr_json_view(*expr, *x2);
            }
        },
        CsdlAnnotationExpression::Collection(items) => {
            if let CsdlAnnotationExpression::Collection(i2) = e2 {
                lemma_exprs_json_view(items@, i2@);
            }
        },
        CsdlAnnotationExpression::Record { type_, properties, annotations } => {
            if let CsdlAnnotationExpression::Record { type_: t2, properties: p2, annotations: a2 } = e2 {
                let m0 = match type_ {
                    Some(t) => seq![("$Type"@, jstr(t@))],
                    None => Seq::empty(),
                };
                let n0 = match t2 {
                    Some(t) => seq![("$Type"@, jstr(t@))],
                    None => Seq::empty(),
                };
                assert(m0 == n0);
                lemma_record_members_view(m0, properties@, p2@);
                lemma_insert_annotations_view(record_members(m0, properties@), annotations@, a2@, Seq::empty());
            }
        },
        _ => {},
    }
}

proof fn lemma_exprs_json_view(s1: Seq<CsdlAnnotationExpression>, s2: Seq<CsdlAnnotationExpression>)
    requires
        expr_views(s1) == expr_views(s2),
    ensures
        exprs_json(s1) == exprs_json(s2),
    decreases s1,
{
    crate::expr::lemma_expr_views(s1);
    crate::expr::lemma_expr_views(s2);
    if s1.len() > 0 {
        let n = s1.len() - 1;
        assert(expr_views(s1.subrange(0, n)) =~= expr_views(s1).subrange(0, n));
        assert(expr_views(s2.subrange(0, n)) =~= expr_views(s2).subrange(0, n));
        lemma_exprs_json_view(s1.subrange(0, n), s2.subrange(0, n));
        assert(expr_views(s1)[n] == expr_views(s2)[n]);
        assert(expr_views(s1)[n] == expr_view(s1[n]));
        assert(expr_views(s2)[n] == expr_view(s2[n]));
        lemma_expr_json_view(s1[n], s2[n]);
    }
}

proof fn lemma_record_members_view(m: Members, p1: Seq<PropertyValue>, p2: Seq<PropertyValue>)
    requires
        property_value_views(p1) == property_value_views(p2),
    ensures
        record_members(m, p1) == record_members(m, p2),
    decreases p1,
{
    lemma_property_value_views(p1);
    lemma_property_value_views(p2);
    if p1.len() > 0 {
        let n = p1.len() - 1;
        assert(property_value_views(p1.subrange(0, n)) =~= property_value_views(p1).subrange(0, n));
        assert(property_value_views(p2.subrange(0, n)) =~= property_value_views(p2).subrange(0, n));
        lemma_record_members_view(m, p1.subrange(0, n), p2.subrange(0, n));
        assert(property_value_views(p1)[n] == property_value_views(p2)[n]);
        let v1 = p1[n];
        let v2 = p2[n];
        assert(property_value_views(p1)[n] == property_value_view(p1[n]));
        assert(property_value_views(p2)[n] == property_value_view(p2[n]));
        assert(property_value_view(v1) == property_value_view(v2));
        let m1 = record_members(m, p1.subrange(0, n));
        match v1.value {
            Some(x) => {
                lemma_expr_json_view(x, v2.value->0);
            },
            None => {},
        }
        let m2 = match v1.value {
            Some(x) => insert_member(m1, v1.property@, expr_json(x)),
            None => m1,
        };
        lemma_insert_annotations_view(m2, v1.annotations@, v2.annotations@, v1.property@);
    }
}

proof fn lemma_insert_annotations_view(m: Members, a1: Seq<Annotation>, a2: Seq<Annotation>, prefix: Seq<char>)
    requires
        annotation_views(a1) == annotation_views(a2),
    ensures
        insert_annotations(m, a1, prefix) == insert_annotations(m, a2, prefix),
    decreases a1,
{
    lemma_annotation_views_index(a1);
    lemma_annotation_views_index(a2);
    if a1.len() > 0 {
        let n = a1.len() - 1;
        assert(annotation_views(a1.subrange(0, n)) =~= annotation_views(a1).subrange(0, n)) by {
            lemma_annotation_views_index(a1.subrange(0, n));
        }
        assert(annotation_views(a2.subrange(0, n)) =~= annotation_views(a2).subrange(0, n)) by {
            lemma_annotation_views_index(a2.subrange(0, n));
        }
        lemma_insert_annotations_view(m, a1.subrange(0, n), a2.subrange(0, n), prefix);
        assert(annotation_views(a1)[n] == annotation_views(a2)[n]);
        let x1 = a1[n];
        let x2 = a2[n];
        assert(annotation_views(a1)[n] == annotation_view(a1[n]));
        assert(annotation_views(a2)[n] == annotation_view(a2[n]));
        assert(annotation_view(x1) == annotation_view(x2));
        match x1.expression {
            Some(x) => {
                lemma_expr_json_view(x, x2.expression->0);
            },
            None => {},
        }
        assert(annotation_key(x1) == annotation_key(x2));
        assert(annotation_member(x1) == annotation_member(x2));
    }
}

/// A schema without elements read back as written is written alike.
proof fn lemma_schema_json_view(s: Schema, s1: Schema)
    requires
        s.elements@.len() == 0,
        schema_read_back(s, s1),
    ensures
        schema_json(s1) == schema_json(s),
{
    let m1 = put_str(Seq::empty(), "$Alias"@, s.alias);
    let n1 = put_str(Seq::empty(), "$Alias"@, s1.alias);
    assert(m1 == n1);
    assert(schema_elements(m1, Seq::empty(), s.elements@) == (m1, Seq::<(Seq<char>, Seq<JsonView>)>::empty()));
    assert(schema_elements(n1, Seq::empty(), s1.elements@) == (n1, Seq::<(Seq<char>, Seq<JsonView>)>::empty()));
    lemma_insert_annotations_view(m1, s1.annotations@, s.annotations@, Seq::empty());
}

proof fn lemma_schemas_json_view(m: Members, ss: Seq<Schema>, ss1: Seq<Schema>)
    requires
        ss1.len() == ss.len(),
        forall|i: int| 0 <= i < ss.len() ==> (#[trigger] ss[i]).elements@.len() == 0,
        forall|i: int| 0 <= i < ss.len() ==> #[trigger] schema_read_back(ss[i], ss1[i]),
    ensures
        schemas_json(m, ss1) == schemas_json(m, ss),
    decreases ss.len(),
{
    if ss.len() > 0 {
        let n = ss.len() - 1;
        assert forall|i: int| 0 <= i < ss.drop_last().len() implies (#[trigger] ss.drop_last()[i]).elements@.len() == 0 by {
            assert(ss.drop_last()[i] == ss[i]);
        }
        assert forall|i: int| 0 <= i < ss.drop_last().len() implies #[trigger] schema_read_back(ss.drop_last()[i], ss1.drop_last()[i]) by {
            assert(ss.drop_last()[i] == ss[i]);
            assert(ss1.drop_last()[i] == ss1[i]);
            assert(schema_read_back(ss[i], ss1[i]));
        }
        lemma_schemas_json_view(m, ss.drop_last(), ss1.drop_last());
        assert(schema_read_back(ss[n], ss1[n]));
        assert(ss[n].elements@.len() == 0);
        lemma_schema_json_view(ss[n], ss1[n]);
        assert(ss.last() == ss[n] && ss1.last() == ss1[n]);
        assert(first_container(ss[n].elements@) is None);
        assert(first_container(ss1[n].elements@) is None);
    }
}

/// A readable document read back as written is written alike.
proof fn lemma_document_json_view(d: CsdlDocument, d1: CsdlDocument)
    requires
        document_readable(d),
        document_read_back(d, d1),
    ensures
        document_json(d1) == document_json(d),
{
    let e = d.edmx->0;
    let e1 = d1.edmx->0;
    assert(put_str(Seq::empty(), "$Version"@, e1.version) == put_str(Seq::empty(), "$Version"@, e.version));
    assert forall|i: int| 0 <= i < e.schemas@.len() implies (#[trigger] e.schemas@[i]).elements@.len() == 0 by {
        assert(schema_readable(e.schemas@[i]));
    }
    lemma_schemas_json_view(put_str(Seq::empty(), "$Version"@, e.version), e.schemas@, e1.schemas@);
}

} // verus!
