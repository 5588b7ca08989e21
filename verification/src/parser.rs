//! From syntax units to the syntactic CSDL model: the units are assembled
//! into a tree of raw elements, which is then read element by element.

use vstd::prelude::*;

use crate::csdl::{
    Action, ActionImport, Annotation, ComplexType, CsdlDocument, Edmx, EntityContainer, EntitySet,
    EntityType, EnumMember, EnumType, Function, FunctionImport, Include, IncludeAnnotations, Key,
    MaxLengthFacet, NavigationProperty, NavigationPropertyBinding, OnDeleteAction, Parameter, Property,
    PropertyRef, Reference, ReferentialConstraint, ReturnType, ScaleFacet, Schema, SchemaElement,
    Singleton, SridFacet, Term, TypeDefinition,
};
use crate::csdl_xml_reader::{
    attr_spec, attr_value, event_views, fails_as, is_true_text, read_failure, read_units, true_text,
    unit_views, units_from, xml_events, ReadFail, SyntaxUnit, UnitView, XmlEvent,
};
use crate::error::{ReadError, csdl_message};
use crate::expr::CsdlAnnotationExpression;
use crate::csdl_json_reader::{document_units, JsonCsdlReader};
use crate::json::{json_text_value, json_view, parse_json_text, JsonValue};
use crate::text::{concat, concat3, owned, parse_i64, spec_parse_i64, str_eq, strip_prefix, strip_prefix_str, strip_suffix, strip_suffix_char};

verus! {

/// An element of the document with its attributes, its annotation
/// expressions and its child elements.
pub struct RawElement {
    pub name: String,
    pub attributes: Vec<(String, String)>,
    pub annotation_expressions: Vec<CsdlAnnotationExpression>,
    pub children: Vec<RawElement>,
}

// ---------------------------------------------------------------------------
// The tree
// ---------------------------------------------------------------------------

/// A [`RawElement`] as a mathematical value.
pub struct RawView {
    pub name: Seq<char>,
    pub attributes: Seq<(String, String)>,
    pub annotation_expressions: Seq<CsdlAnnotationExpression>,
    pub children: Seq<RawView>,
}

pub open spec fn raw_view(r: RawElement) -> RawView
    decreases r,
{
    RawView {
        name: r.name@,
        attributes: r.attributes@,
        annotation_expressions: r.annotation_expressions@,
        children: raw_views(r.children@),
    }
}

pub open spec fn raw_views(s: Seq<RawElement>) -> Seq<RawView>
    decreases s,
{
    if s.len() == 0 {
        Seq::empty()
    } else {
        raw_views(s.subrange(0, s.len() - 1)).push(raw_view(s[s.len() - 1]))
    }
}

proof fn lemma_raw_views(s: Seq<RawElement>)
    ensures
        raw_views(s).len() == s.len(),
        forall|i: int| 0 <= i < s.len() ==> #[trigger] raw_views(s)[i] == raw_view(s[i]),
    decreases s.len(),
{
    if s.len() > 0 {
        lemma_raw_views(s.subrange(0, s.len() - 1));
        assert forall|i: int| 0 <= i < s.len() implies #[trigger] raw_views(s)[i] == raw_view(s[i]) by {
            if i < s.len() - 1 {
                assert(s.subrange(0, s.len() - 1)[i] == s[i]);
            }
        }
    }
}

proof fn lemma_raw_views_push(s: Seq<RawElement>, x: RawElement)
    ensures
        raw_views(s.push(x)) == raw_views(s).push(raw_view(x)),
{
    assert(s.push(x).subrange(0, s.len() as int) =~= s);
}

proof fn lemma_raw_views_pop(s: Seq<RawElement>)
    requires
        s.len() > 0,
    ensures
        raw_views(s.drop_last()) == raw_views(s).drop_last(),
        raw_views(s).last() == raw_view(s.last()),
{
    assert(s.subrange(0, s.len() - 1) =~= s.drop_last());
}

/// The elements still open and the finished top-level elements.
pub type Assembly = (Seq<RawView>, Seq<RawView>);

/// One unit read: a start opens an element, an expression goes to the
/// innermost open element, an end closes the innermost element, which must
/// bear its name, and hands it to the element around it or to the roots.
pub open spec fn assemble_step(st: Assembly, u: SyntaxUnit) -> Result<Assembly, Seq<char>> {
    let stack = st.0;
    let roots = st.1;
    match u {
        SyntaxUnit::StartElement { name, attributes } => Ok(
            (
                stack.push(
                    RawView {
                        name: name@,
                        attributes: attributes@,
                        annotation_expressions: Seq::empty(),
                        children: Seq::empty(),
                    },
                ),
                roots,
            ),
        ),
        SyntaxUnit::AnnotationExpression(e) => if stack.len() == 0 {
            Err("annotation expression outside any element"@)
        } else {
            let top = stack.last();
            Ok(
                (
                    stack.drop_last().push(
                        RawView { annotation_expressions: top.annotation_expressions.push(e), ..top },
                    ),
                    roots,
                ),
            )
        },
        SyntaxUnit::EndElement { name } => if stack.len() == 0 {
            Err("end element </"@ + name@ + "> without matching start"@)
        } else {
            let node = stack.last();
            let rest = stack.drop_last();
            if node.name != name@ {
                Err("mismatched closing tag: expected </"@ + node.name + "> but got </"@ + name@ + ">"@)
            } else if rest.len() > 0 {
                let parent = rest.last();
                Ok((rest.drop_last().push(RawView { children: parent.children.push(node), ..parent }), roots))
            } else {
                Ok((rest, roots.push(node)))
            }
        },
    }
}

/// The units read in order, from no open element and no root.
pub open spec fn assemble_prefix(units: Seq<SyntaxUnit>) -> Result<Assembly, Seq<char>>
    decreases units.len(),
{
    if units.len() == 0 {
        Ok((Seq::empty(), Seq::empty()))
    } else {
        match assemble_prefix(units.drop_last()) {
            Err(m) => Err(m),
            Ok(st) => assemble_step(st, units.last()),
        }
    }
}

/// The top-level elements the units make, every element closed.
pub open spec fn assemble(units: Seq<SyntaxUnit>) -> Result<Seq<RawView>, Seq<char>> {
    match assemble_prefix(units) {
        Err(m) => Err(m),
        Ok(st) => if st.0.len() > 0 {
            Err("document ended before all start elements were closed"@)
        } else {
            Ok(st.1)
        },
    }
}

/// The first top-level `Edmx` element.
pub open spec fn first_edmx(roots: Seq<RawView>) -> Option<RawView>
    decreases roots.len(),
{
    if roots.len() == 0 {
        None
    } else if roots[0].name == "Edmx"@ {
        Some(roots[0])
    } else {
        first_edmx(roots.drop_first())
    }
}

/// What reading a document from its `Edmx` element gives.
pub open spec fn edmx_outcome(raw: RawElement, r: Result<CsdlDocument, ReadError>) -> bool {
    match edmx_fail(raw) {
        None => r matches Ok(d) && d.edmx matches Some(e) && edmx_read(raw, e),
        Some(m) => r matches Err(e) && csdl_message(e) == Some(m),
    }
}

/// What reading a document from its units gives: the assembly error, or
/// the document of the first `Edmx` element (none without one).
pub open spec fn units_outcome(units: Seq<SyntaxUnit>, r: Result<CsdlDocument, ReadError>) -> bool {
    match assemble(units) {
        Err(m) => r matches Err(e) && csdl_message(e) == Some(m),
        Ok(roots) => match first_edmx(roots) {
            None => r matches Ok(d) && d.edmx is None,
            Some(root) => exists|raw: RawElement| raw_view(raw) == root && #[trigger] edmx_outcome(raw, r),
        },
    }
}

/// The step of `assemble_prefix` at unit `k`.
proof fn lemma_assemble_step(units: Seq<SyntaxUnit>, k: int)
    requires
        0 <= k < units.len(),
    ensures
        assemble_prefix(units.take(k + 1)) == match assemble_prefix(units.take(k)) {
            Err(m) => Err(m),
            Ok(st) => assemble_step(st, units[k]),
        },
{
    assert(units.take(k + 1).drop_last() =~= units.take(k));
    assert(units.take(k + 1).last() == units[k]);
}

/// An error within the first `n` units is the error of all.
proof fn lemma_assemble_err(units: Seq<SyntaxUnit>, n: nat)
    requires
        n <= units.len(),
        assemble_prefix(units.take(n as int)) is Err,
    ensures
        assemble_prefix(units) == assemble_prefix(units.take(n as int)),
    decreases units.len() - n,
{
    if n < units.len() {
        lemma_assemble_step(units, n as int);
        lemma_assemble_err(units, n + 1);
    } else {
        assert(units.take(n as int) =~= units);
    }
}

/// Assembling units fails at the first unit that does not fit the elements
/// open before it (an expression or end outside any element, a closing tag
/// that does not match), with that unit's message.
pub proof fn lemma_first_unit_error(units: Seq<SyntaxUnit>, k: int)
    requires
        0 <= k < units.len(),
        assemble_prefix(units.take(k)) is Ok,
        assemble_step(assemble_prefix(units.take(k))->Ok_0, units[k]) is Err,
    ensures
        assemble(units) == Err::<Seq<RawView>, _>(assemble_step(assemble_prefix(units.take(k))->Ok_0, units[k])->Err_0),
{
    lemma_assemble_step(units, k);
    lemma_assemble_err(units, (k + 1) as nat);
}

/// Reverses a list of units (to take them from the back in order).
fn reversed(v: Vec<SyntaxUnit>) -> (r: Vec<SyntaxUnit>)
    ensures
        r@ == v@.reverse(),
{
    let ghost orig = v@;
    let mut v = v;
    let mut out: Vec<SyntaxUnit> = Vec::new();
    while v.len() > 0
        invariant
            orig == v@ + out@.reverse(),
        decreases v@.len(),
    {
        let ghost before = v@;
        let x = v.pop().unwrap();
        let ghost o = out@;
        out.push(x);
        proof {
            assert(before == v@.push(x));
            assert(out@.reverse() =~= seq![x] + o.reverse());
            assert(orig =~= v@ + out@.reverse());
        }
    }
    proof {
        assert(v@ =~= Seq::<SyntaxUnit>::empty());
        assert(out@.reverse().reverse() =~= out@);
        assert(orig =~= out@.reverse());
        assert(orig.reverse() =~= out@);
    }
    out
}

/// Assembles units into the document: well nested, every end closing the
/// element it names; then the first top-level `Edmx` element is read.
pub fn from_units(units: Vec<SyntaxUnit>) -> (r: Result<CsdlDocument, ReadError>)
    ensures
        units_outcome(units@, r),
{
    let ghost u = units@;
    let mut pending = reversed(units);
    let mut stack: Vec<RawElement> = Vec::new();
    let mut roots: Vec<RawElement> = Vec::new();
    let n = pending.len();
    let mut k: usize = 0;
    proof {
        assert(u.take(0) =~= Seq::<SyntaxUnit>::empty());
        assert(u.skip(0) =~= u);
        assert(raw_views(stack@) =~= Seq::<RawView>::empty());
        assert(raw_views(roots@) =~= Seq::<RawView>::empty());
    }
    while k < n
        invariant
            k <= n == u.len(),
            u == units@,
            pending@ == u.skip(k as int).reverse(),
            assemble_prefix(u.take(k as int)) == Ok::<Assembly, Seq<char>>((raw_views(stack@), raw_views(roots@))),
        decreases n - k,
    {
        proof {
            assert(pending@.len() == n - k);
            assert(pending@.last() == u[k as int]);
            assert(pending@.drop_last() =~= u.skip(k + 1).reverse());
            lemma_assemble_step(u, k as int);
        }
        let unit = pending.pop().unwrap();
        let ghost sv = raw_views(stack@);
        let ghost rv = raw_views(roots@);
        match unit {
            SyntaxUnit::StartElement { name, attributes } => {
                let x = RawElement { name, attributes, annotation_expressions: Vec::new(), children: Vec::new() };
                proof {
                    lemma_raw_views_push(stack@, x);
                    assert(raw_views(x.children@) =~= Seq::<RawView>::empty());
                    assert(x.annotation_expressions@ =~= Seq::<CsdlAnnotationExpression>::empty());
                }
                stack.push(x);
            },
            SyntaxUnit::AnnotationExpression(expr) => {
                let ghost st = stack@;
                match stack.pop() {
                    None => {
                        proof {
                            lemma_assemble_err(u, (k + 1) as nat);
                        }
                        return Err(ReadError::Csdl(owned("annotation expression outside any element")));
                    },
                    Some(mut top) => {
                        proof {
                            lemma_raw_views_pop(st);
                        }
                        let ghost t0 = top;
                        top.annotation_expressions.push(expr);
                        let ghost s1 = stack@;
                        proof {
                            lemma_raw_views_push(s1, top);
                            assert(raw_view(top) == RawView {
                                annotation_expressions: raw_view(t0).annotation_expressions.push(expr),
                                ..raw_view(t0)
                            });
                        }
                        stack.push(top);
                    },
                }
            },
            SyntaxUnit::EndElement { name } => {
                let ghost st = stack@;
                let node = match stack.pop() {
                    None => {
                        let m = concat3("end element </", name.as_str(), "> without matching start");
                        proof {
                            lemma_assemble_err(u, (k + 1) as nat);
                        }
                        return Err(ReadError::Csdl(m));
                    },
                    Some(x) => x,
                };
                proof {
                    lemma_raw_views_pop(st);
                }
                if !str_eq(node.name.as_str(), name.as_str()) {
                    let a = concat3("mismatched closing tag: expected </", node.name.as_str(), "> but got </");
                    let m = concat3(a.as_str(), name.as_str(), ">");
                    proof {
                        lemma_assemble_err(u, (k + 1) as nat);
                    }
                    return Err(ReadError::Csdl(m));
                }
                let ghost s1 = stack@;
                match stack.pop() {
                    Some(mut parent) => {
                        proof {
                            lemma_raw_views_pop(s1);
                        }
                        let ghost p0 = parent;
                        let ghost nd = node;
                        parent.children.push(node);
                        proof {
                            lemma_raw_views_push(p0.children@, nd);
                            lemma_raw_views_push(stack@, parent);
                        }
                        stack.push(parent);
                    },
                    None => {
                        proof {
                            lemma_raw_views_push(roots@, node);
                        }
                        roots.push(node);
                    },
                }
            },
        }
        k = k + 1;
    }
    proof {
        assert(u.take(n as int) =~= u);
    }
    if stack.len() > 0 {
        return Err(ReadError::Csdl(owned("document ended before all start elements were closed")));
    }
    let ghost rv = raw_views(roots@);
    proof {
        lemma_raw_views(roots@);
        assert(rv.skip(0) =~= rv);
    }
    let mut i: usize = 0;
    while i < roots.len()
        invariant
            i <= roots@.len(),
            rv == raw_views(roots@),
            rv.len() == roots@.len(),
            forall|j: int| 0 <= j < roots@.len() ==> #[trigger] rv[j] == raw_view(roots@[j]),
            first_edmx(rv) == first_edmx(rv.skip(i as int)),
            assemble(u) == Ok::<Seq<RawView>, Seq<char>>(rv),
            u == units@,
        decreases roots.len() - i,
    {
        if str_eq(roots[i].name.as_str(), "Edmx") {
            let ghost rr = roots@[i as int];
            let raw = roots.swap_remove(i);
            let r = match parse_edmx(raw) {
                Ok(e) => Ok(CsdlDocument { edmx: Some(e) }),
                Err(e) => Err(e),
            };
            proof {
                assert(rv.skip(i as int)[0] == rv[i as int]);
                assert(edmx_outcome(rr, r));
            }
            return r;
        }
        proof {
            assert(rv.skip(i as int).drop_first() =~= rv.skip(i + 1));
        }
        i = i + 1;
    }
    proof {
        assert(rv.skip(i as int) =~= Seq::<RawView>::empty());
    }
    Ok(CsdlDocument { edmx: None })
}

/// Reads an XML CSDL document: the events `quick-xml` reports for the
/// input (see [`xml_events`]), read into syntax units, assembled (see
/// [`units_outcome`]).
pub fn from_xml_reader(input: &[u8]) -> (r: Result<CsdlDocument, ReadError>)
    ensures
        match xml_events(input@) {
            Err(f) => r matches Err(e) && read_failure(e, f),
            Ok(evs) => exists|ev: Seq<XmlEvent>| #[trigger] event_views(ev) == evs && match units_from(
                ev,
                0,
                Seq::empty(),
            ) {
                Err(f) => r matches Err(e) && fails_as(e, f),
                Ok(u) => exists|units: Seq<SyntaxUnit>| #[trigger] unit_views(units) == u && units_outcome(units, r),
            },
        },
{
    match read_units(input) {
        Ok(units) => {
            let ghost us = units@;
            let r = from_units(units);
            proof {
                assert(unit_views(us) == unit_views(us));
            }
            r
        },
        Err(e) => Err(e),
    }
}

/// Reads a CSDL JSON document held as a JSON value: its syntax units (see
/// [`document_units`]) are assembled as those of an XML document are.
pub fn from_json_value(value: JsonValue) -> (r: Result<CsdlDocument, ReadError>)
    ensures
        match document_units(json_view(value)) {
            Err(m) => r matches Err(e) && csdl_message(e) == Some(m),
            Ok(u) => exists|units: Seq<SyntaxUnit>| unit_views(units) == u && #[trigger] units_outcome(units, r),
        },
{
    match JsonCsdlReader::new(value).into_units() {
        Ok(units) => {
            let ghost us = units@;
            let r = from_units(units);
            assert(units_outcome(us, r));
            r
        },
        Err(e) => Err(e),
    }
}

/// Why reading a CSDL JSON document from its text fails: the bytes are not
/// JSON text (with `serde_json`'s description), the JSON is not CSDL, or its
/// syntax units do not assemble.
#[derive(Debug)]
pub enum JsonReadError {
    Syntax(String),
    Csdl(ReadError),
    Assembly(ReadError),
}

/// Reads a CSDL JSON document from its text: the JSON value `serde_json`
/// parses (see [`json_text_value`]), read as [`from_json_value`] reads it.
pub fn from_json_bytes(input: &[u8]) -> (r: Result<CsdlDocument, JsonReadError>)
    ensures
        match json_text_value(input@) {
            None => r matches Err(JsonReadError::Syntax(_)),
            Some(v) => match document_units(v) {
                Err(m) => r matches Err(JsonReadError::Csdl(e)) && csdl_message(e) == Some(m),
                Ok(u) => exists|units: Seq<SyntaxUnit>| #[trigger] unit_views(units) == u && match r {
                    Ok(d) => units_outcome(units, Ok(d)),
                    Err(JsonReadError::Assembly(e)) => units_outcome(units, Err(e)),
                    _ => false,
                },
            },
        },
{
    let value = match parse_json_text(input) {
        Ok(v) => v,
        Err(m) => {
            return Err(JsonReadError::Syntax(m));
        },
    };
    match JsonCsdlReader::new(value).into_units() {
        Ok(units) => {
            let ghost us = units@;
            match from_units(units) {
                Ok(d) => {
                    assert(unit_views(us) == unit_views(us));
                    Ok(d)
                },
                Err(e) => {
                    assert(unit_views(us) == unit_views(us));
                    Err(JsonReadError::Assembly(e))
                },
            }
        },
        Err(e) => Err(JsonReadError::Csdl(e)),
    }
}

// ---------------------------------------------------------------------------
// Attributes
// ---------------------------------------------------------------------------

/// The value of the element's first attribute named `key`.
pub open spec fn raw_attr_spec(raw: RawElement, key: Seq<char>) -> Option<Seq<char>> {
    attr_spec(raw.attributes@, key)
}

pub open spec fn or_empty(o: Option<Seq<char>>) -> Seq<char> {
    match o {
        Some(v) => v,
        None => Seq::empty(),
    }
}

pub open spec fn opt_view(o: Option<String>) -> Option<Seq<char>> {
    match o {
        Some(v) => Some(v@),
        None => None,
    }
}

/// A boolean attribute: `true` in any letter case, anything else false.
pub open spec fn raw_attr_bool_spec(raw: RawElement, key: Seq<char>) -> Option<bool> {
    match raw_attr_spec(raw, key) {
        Some(v) => Some(is_true_text(v)),
        None => None,
    }
}

/// A type attribute: `Collection(T)` is `T` and a collection; a
/// `Collection` attribute that is true also marks a collection.
pub open spec fn raw_type_spec(raw: RawElement, key: Seq<char>) -> (Option<Seq<char>>, bool) {
    let flag = raw_attr_bool_spec(raw, "Collection"@) == Some(true);
    match raw_attr_spec(raw, key) {
        None => (None, flag),
        Some(v) => match strip_prefix(v, "Collection("@) {
            Some(rest) => match strip_suffix(rest, seq![')']) {
                Some(inner) => (Some(inner), true),
                None => (Some(v), flag),
            },
            None => (Some(v), flag),
        },
    }
}

fn raw_attr(raw: &RawElement, key: &str) -> (r: Option<String>)
    ensures
        opt_view(r) == raw_attr_spec(*raw, key@),
{
    attr_value(&raw.attributes, key)
}

fn raw_attr_or_empty(raw: &RawElement, key: &str) -> (r: String)
    ensures
        r@ == or_empty(raw_attr_spec(*raw, key@)),
{
    match raw_attr(raw, key) {
        Some(v) => v,
        None => {
            let e = owned("");
            proof {
                reveal_strlit("");
                assert(e@ =~= Seq::<char>::empty());
            }
            e
        },
    }
}

fn raw_attr_bool(raw: &RawElement, key: &str) -> (r: Option<bool>)
    ensures
        r == raw_attr_bool_spec(*raw, key@),
{
    match raw_attr(raw, key) {
        Some(v) => Some(true_text(v.as_str())),
        None => None,
    }
}

fn raw_type_attr(raw: &RawElement, key: &str) -> (r: (Option<String>, bool))
    ensures
        (opt_view(r.0), r.1) == raw_type_spec(*raw, key@),
{
    let flag = match raw_attr_bool(raw, "Collection") {
        Some(b) => b,
        None => false,
    };
    proof {
        reveal_strlit("Collection(");
    }
    match raw_attr(raw, key) {
        None => (None, flag),
        Some(v) => match strip_prefix_str(v.as_str(), "Collection(") {
            Some(rest) => match strip_suffix_char(rest.as_str(), ')') {
                Some(inner) => (Some(inner), true),
                None => (Some(v), flag),
            },
            None => (Some(v), flag),
        },
    }
}

fn facet_error(kind: &str, v: &str) -> (r: ReadError)
    ensures
        csdl_message(r) == Some("unsupported "@ + kind@ + " value: "@ + v@),
{
    let a = concat3("unsupported ", kind, " value: ");
    proof {
        reveal_strlit("unsupported ");
        reveal_strlit(" value: ");
    }
    ReadError::Csdl(concat(a.as_str(), v))
}

pub open spec fn facet_error_text(kind: Seq<char>, v: Seq<char>) -> Seq<char> {
    "unsupported "@ + kind + " value: "@ + v
}

fn max_length_of(raw: &RawElement) -> (r: Result<Option<MaxLengthFacet>, ReadError>)
    ensures
        match raw_attr_spec(*raw, "MaxLength"@) {
            None => r == Ok::<Option<MaxLengthFacet>, ReadError>(None),
            Some(v) => match MaxLengthFacet::spec_parse(v) {
                Some(f) => r == Ok::<Option<MaxLengthFacet>, ReadError>(Some(f)),
                None => r is Err && csdl_message(r->Err_0) == Some(facet_error_text("MaxLength"@, v)),
            },
        },
{
    proof {
        reveal_strlit("MaxLength");
    }
    match raw_attr(raw, "MaxLength") {
        None => Ok(None),
        Some(v) => match MaxLengthFacet::parse(v.as_str()) {
            Some(f) => Ok(Some(f)),
            None => Err(facet_error("MaxLength", v.as_str())),
        },
    }
}

fn scale_of(raw: &RawElement) -> (r: Result<Option<ScaleFacet>, ReadError>)
    ensures
        match raw_attr_spec(*raw, "Scale"@) {
            None => r == Ok::<Option<ScaleFacet>, ReadError>(None),
            Some(v) => match ScaleFacet::spec_parse(v) {
                Some(f) => r == Ok::<Option<ScaleFacet>, ReadError>(Some(f)),
                None => r is Err && csdl_message(r->Err_0) == Some(facet_error_text("Scale"@, v)),
            },
        },
{
    proof {
        reveal_strlit("Scale");
    }
    match raw_attr(raw, "Scale") {
        None => Ok(None),
        Some(v) => match ScaleFacet::parse(v.as_str()) {
            Some(f) => Ok(Some(f)),
            None => Err(facet_error("Scale", v.as_str())),
        },
    }
}

fn srid_of(raw: &RawElement) -> (r: Result<Option<SridFacet>, ReadError>)
    ensures
        match raw_attr_spec(*raw, "SRID"@) {
            None => r == Ok::<Option<SridFacet>, ReadError>(None),
            Some(v) => match SridFacet::spec_parse(v) {
                Some(f) => r == Ok::<Option<SridFacet>, ReadError>(Some(f)),
                None => r is Err && csdl_message(r->Err_0) == Some(facet_error_text("SRID"@, v)),
            },
        },
{
    proof {
        reveal_strlit("SRID");
    }
    match raw_attr(raw, "SRID") {
        None => Ok(None),
        Some(v) => match SridFacet::parse(v.as_str()) {
            Some(f) => Ok(Some(f)),
            None => Err(facet_error("SRID", v.as_str())),
        },
    }
}

// ---------------------------------------------------------------------------
// Children
// ---------------------------------------------------------------------------

/// The children named `n`, in order.
pub open spec fn named(children: Seq<RawElement>, n: Seq<char>) -> Seq<RawElement>
    decreases children.len(),
{
    if children.len() == 0 {
        Seq::empty()
    } else if children.last().name@ == n {
        named(children.drop_last(), n).push(children.last())
    } else {
        named(children.drop_last(), n)
    }
}

/// The children not named `n`, in order.
pub open spec fn not_named(children: Seq<RawElement>, n: Seq<char>) -> Seq<RawElement>
    decreases children.len(),
{
    if children.len() == 0 {
        Seq::empty()
    } else if children.last().name@ != n {
        not_named(children.drop_last(), n).push(children.last())
    } else {
        not_named(children.drop_last(), n)
    }
}

/// Splits children into those named `n` and the others, each in order.
fn take_named(children: Vec<RawElement>, n: &str) -> (r: (Vec<RawElement>, Vec<RawElement>))
    ensures
        r.0@ == named(children@, n@),
        r.1@ == not_named(children@, n@),
{
    let ghost orig = children@;
    let mut children = children;
    let mut hits: Vec<RawElement> = Vec::new();
    let mut rest: Vec<RawElement> = Vec::new();
    let mut k: usize = 0;
    let total = children.len();
    while k < total
        invariant
            k <= total == orig.len(),
            children@ == orig.skip(k as int),
            hits@ == named(orig.take(k as int), n@),
            rest@ == not_named(orig.take(k as int), n@),
        decreases total - k,
    {
        proof {
            assert(orig.take(k + 1).drop_last() =~= orig.take(k as int));
            assert(orig.take(k + 1).last() == orig[k as int]);
            assert(children@.len() > 0);
            assert(children@[0] == orig[k as int]);
        }
        let x = children.remove(0);
        proof {
            assert(children@ =~= orig.skip(k + 1));
        }
        if str_eq(x.name.as_str(), n) {
            hits.push(x);
        } else {
            rest.push(x);
        }
        k = k + 1;
    }
    proof {
        assert(orig.take(total as int) =~= orig);
    }
    (hits, rest)
}


// ---------------------------------------------------------------------------
// What reading an element gives
// ---------------------------------------------------------------------------

/// The first failure met reading `ch` in order, `f` giving each element's.
pub open spec fn seq_fail(ch: Seq<RawElement>, f: spec_fn(RawElement) -> Option<Seq<char>>) -> Option<Seq<char>>
    decreases ch.len(),
{
    if ch.len() == 0 {
        None
    } else {
        match seq_fail(ch.drop_last(), f) {
            Some(m) => Some(m),
            None => f(ch.last()),
        }
    }
}

pub open spec fn or_else(a: Option<Seq<char>>, b: Option<Seq<char>>) -> Option<Seq<char>> {
    match a {
        Some(m) => Some(m),
        None => b,
    }
}

/// A failure within the first `n` elements is the first failure of all.
proof fn lemma_seq_fail_prefix(ch: Seq<RawElement>, f: spec_fn(RawElement) -> Option<Seq<char>>, n: nat)
    requires
        n <= ch.len(),
        seq_fail(ch.take(n as int), f) is Some,
    ensures
        seq_fail(ch, f) == seq_fail(ch.take(n as int), f),
    decreases ch.len() - n,
{
    if n < ch.len() {
        assert(ch.take((n + 1) as int).drop_last() =~= ch.take(n as int));
        lemma_seq_fail_prefix(ch, f, n + 1);
    } else {
        assert(ch.take(n as int) =~= ch);
    }
}

/// The first child named `n`, if any.
pub open spec fn first_named(ch: Seq<RawElement>, n: Seq<char>) -> Option<RawElement> {
    if named(ch, n).len() > 0 {
        Some(named(ch, n)[0])
    } else {
        None
    }
}

/// Selecting by a name twice is selecting once.
proof fn lemma_named_twice(ch: Seq<RawElement>, n: Seq<char>)
    ensures
        named(named(ch, n), n) == named(ch, n),
    decreases ch.len(),
{
    if ch.len() > 0 {
        lemma_named_twice(ch.drop_last(), n);
        if ch.last().name@ == n {
            assert(named(ch, n).drop_last() =~= named(ch.drop_last(), n));
        }
    }
}

// Facets

pub open spec fn max_length_spec(raw: RawElement) -> Option<MaxLengthFacet> {
    match raw_attr_spec(raw, "MaxLength"@) {
        Some(v) => MaxLengthFacet::spec_parse(v),
        None => None,
    }
}

pub open spec fn scale_spec(raw: RawElement) -> Option<ScaleFacet> {
    match raw_attr_spec(raw, "Scale"@) {
        Some(v) => ScaleFacet::spec_parse(v),
        None => None,
    }
}

pub open spec fn srid_spec(raw: RawElement) -> Option<SridFacet> {
    match raw_attr_spec(raw, "SRID"@) {
        Some(v) => SridFacet::spec_parse(v),
        None => None,
    }
}

pub open spec fn max_length_fail(raw: RawElement) -> Option<Seq<char>> {
    match raw_attr_spec(raw, "MaxLength"@) {
        Some(v) => if MaxLengthFacet::spec_parse(v) is Some {
            None
        } else {
            Some(facet_error_text("MaxLength"@, v))
        },
        None => None,
    }
}

pub open spec fn scale_fail(raw: RawElement) -> Option<Seq<char>> {
    match raw_attr_spec(raw, "Scale"@) {
        Some(v) => if ScaleFacet::spec_parse(v) is Some {
            None
        } else {
            Some(facet_error_text("Scale"@, v))
        },
        None => None,
    }
}

pub open spec fn srid_fail(raw: RawElement) -> Option<Seq<char>> {
    match raw_attr_spec(raw, "SRID"@) {
        Some(v) => if SridFacet::spec_parse(v) is Some {
            None
        } else {
            Some(facet_error_text("SRID"@, v))
        },
        None => None,
    }
}

/// The first facet that does not parse, in the order `MaxLength`,
/// `Scale`, `SRID`.
pub open spec fn facets_fail(raw: RawElement) -> Option<Seq<char>> {
    or_else(max_length_fail(raw), or_else(scale_fail(raw), srid_fail(raw)))
}

pub open spec fn facets_fail_fn() -> spec_fn(RawElement) -> Option<Seq<char>> {
    |c: RawElement| facets_fail(c)
}

// Annotations

/// The first annotation expression an element holds.
pub open spec fn first_expression(raw: RawElement) -> Option<CsdlAnnotationExpression> {
    if raw.annotation_expressions@.len() > 0 {
        Some(raw.annotation_expressions@[0])
    } else {
        None
    }
}

pub open spec fn annotation_read(raw: RawElement, a: Annotation) -> bool {
    &&& a.term@ == or_empty(raw_attr_spec(raw, "Term"@))
    &&& opt_view(a.qualifier) == raw_attr_spec(raw, "Qualifier"@)
    &&& opt_view(a.target) == raw_attr_spec(raw, "Target"@)
    &&& a.expression == first_expression(raw)
}

/// Each annotation read from the element at its position.
pub open spec fn annotations_of(raws: Seq<RawElement>, v: Seq<Annotation>) -> bool {
    v.len() == raws.len() && forall|i: int| 0 <= i < v.len() ==> #[trigger] annotation_read(raws[i], v[i])
}

/// The annotations read from the `Annotation` children, in order.
pub open spec fn annotations_read(ch: Seq<RawElement>, v: Seq<Annotation>) -> bool {
    annotations_of(named(ch, "Annotation"@), v)
}

// Structural members

pub open spec fn property_read(raw: RawElement, x: Property) -> bool {
    &&& x.name@ == or_empty(raw_attr_spec(raw, "Name"@))
    &&& (opt_view(x.type_ref), x.is_collection) == raw_type_spec(raw, "Type"@)
    &&& x.nullable == raw_attr_bool_spec(raw, "Nullable"@)
    &&& x.max_length == max_length_spec(raw)
    &&& opt_view(x.precision) == raw_attr_spec(raw, "Precision"@)
    &&& x.scale == scale_spec(raw)
    &&& x.srid == srid_spec(raw)
    &&& x.unicode == raw_attr_bool_spec(raw, "Unicode"@)
    &&& opt_view(x.default_value) == raw_attr_spec(raw, "DefaultValue"@)
    &&& annotations_read(raw.children@, x.annotations@)
}

/// Each property read from the element at its position.
pub open spec fn properties_of(raws: Seq<RawElement>, v: Seq<Property>) -> bool {
    v.len() == raws.len() && forall|i: int| 0 <= i < v.len() ==> #[trigger] property_read(raws[i], v[i])
}

/// The `Action` of the first `OnDelete` child.
pub open spec fn on_delete_action(raw: RawElement) -> Option<Seq<char>> {
    match first_named(raw.children@, "OnDelete"@) {
        Some(o) => raw_attr_spec(o, "Action"@),
        None => None,
    }
}

pub open spec fn on_delete_spec(raw: RawElement) -> Option<OnDeleteAction> {
    match on_delete_action(raw) {
        Some(a) => OnDeleteAction::spec_parse(a),
        None => None,
    }
}

/// A navigation property fails on an `OnDelete` action it does not know.
pub open spec fn navigation_fail(raw: RawElement) -> Option<Seq<char>> {
    match on_delete_action(raw) {
        Some(a) => if OnDeleteAction::spec_parse(a) is Some {
            None
        } else {
            Some("unsupported OnDelete Action value: "@ + a)
        },
        None => None,
    }
}

pub open spec fn navigation_fail_fn() -> spec_fn(RawElement) -> Option<Seq<char>> {
    |c: RawElement| navigation_fail(c)
}

pub open spec fn constraint_read(raw: RawElement, x: ReferentialConstraint) -> bool {
    &&& x.property@ == or_empty(raw_attr_spec(raw, "Property"@))
    &&& x.referenced_property@ == or_empty(raw_attr_spec(raw, "ReferencedProperty"@))
    &&& annotations_read(raw.children@, x.annotations@)
}

/// Each referential constraint read from the element at its position.
pub open spec fn constraints_of(raws: Seq<RawElement>, v: Seq<ReferentialConstraint>) -> bool {
    v.len() == raws.len() && forall|i: int| 0 <= i < v.len() ==> #[trigger] constraint_read(raws[i], v[i])
}

pub open spec fn navigation_read(raw: RawElement, x: NavigationProperty) -> bool {
    &&& x.name@ == or_empty(raw_attr_spec(raw, "Name"@))
    &&& (opt_view(x.type_ref), x.is_collection) == raw_type_spec(raw, "Type"@)
    &&& x.nullable == raw_attr_bool_spec(raw, "Nullable"@)
    &&& opt_view(x.partner) == raw_attr_spec(raw, "Partner"@)
    &&& x.contains_target == raw_attr_bool_spec(raw, "ContainsTarget"@)
    &&& x.on_delete == on_delete_spec(raw)
    &&& constraints_of(named(raw.children@, "ReferentialConstraint"@), x.referential_constraints@)
    &&& annotations_read(raw.children@, x.annotations@)
}

/// Each navigation property read from the element at its position.
pub open spec fn navigations_of(raws: Seq<RawElement>, v: Seq<NavigationProperty>) -> bool {
    v.len() == raws.len() && forall|i: int| 0 <= i < v.len() ==> #[trigger] navigation_read(raws[i], v[i])
}

pub open spec fn property_ref_read(raw: RawElement, x: PropertyRef) -> bool {
    x.name@ == or_empty(raw_attr_spec(raw, "Name"@))
}

/// Each property reference read from the element at its position.
pub open spec fn property_refs_of(raws: Seq<RawElement>, v: Seq<PropertyRef>) -> bool {
    v.len() == raws.len() && forall|i: int| 0 <= i < v.len() ==> #[trigger] property_ref_read(raws[i], v[i])
}

pub open spec fn key_read(raw: RawElement, x: Key) -> bool {
    property_refs_of(named(raw.children@, "PropertyRef"@), x.property_refs@)
}

/// A structured type fails on its first property with a bad facet, else on
/// its first navigation property with a bad `OnDelete`.
pub open spec fn structured_fail(raw: RawElement) -> Option<Seq<char>> {
    or_else(
        seq_fail(named(raw.children@, "Property"@), facets_fail_fn()),
        seq_fail(named(raw.children@, "NavigationProperty"@), navigation_fail_fn()),
    )
}

pub open spec fn entity_type_read(raw: RawElement, x: EntityType) -> bool {
    &&& x.name@ == or_empty(raw_attr_spec(raw, "Name"@))
    &&& opt_view(x.base_type) == raw_attr_spec(raw, "BaseType"@)
    &&& x.abstract_ == raw_attr_bool_spec(raw, "Abstract"@)
    &&& x.open_type == raw_attr_bool_spec(raw, "OpenType"@)
    &&& x.has_stream == raw_attr_bool_spec(raw, "HasStream"@)
    &&& match first_named(raw.children@, "Key"@) {
        Some(k) => x.key matches Some(key) && key_read(k, key),
        None => x.key is None,
    }
    &&& properties_of(named(raw.children@, "Property"@), x.properties@)
    &&& navigations_of(named(raw.children@, "NavigationProperty"@), x.navigation_properties@)
    &&& annotations_read(raw.children@, x.annotations@)
}

pub open spec fn complex_type_read(raw: RawElement, x: ComplexType) -> bool {
    &&& x.name@ == or_empty(raw_attr_spec(raw, "Name"@))
    &&& opt_view(x.base_type) == raw_attr_spec(raw, "BaseType"@)
    &&& x.abstract_ == raw_attr_bool_spec(raw, "Abstract"@)
    &&& x.open_type == raw_attr_bool_spec(raw, "OpenType"@)
    &&& properties_of(named(raw.children@, "Property"@), x.properties@)
    &&& navigations_of(named(raw.children@, "NavigationProperty"@), x.navigation_properties@)
    &&& annotations_read(raw.children@, x.annotations@)
}

pub open spec fn enum_member_read(raw: RawElement, x: EnumMember) -> bool {
    &&& x.name@ == or_empty(raw_attr_spec(raw, "Name"@))
    &&& x.value == match raw_attr_spec(raw, "Value"@) {
        Some(v) => spec_parse_i64(v),
        None => None,
    }
    &&& annotations_read(raw.children@, x.annotations@)
}

/// Each enum member read from the element at its position.
pub open spec fn enum_members_of(raws: Seq<RawElement>, v: Seq<EnumMember>) -> bool {
    v.len() == raws.len() && forall|i: int| 0 <= i < v.len() ==> #[trigger] enum_member_read(raws[i], v[i])
}

pub open spec fn enum_type_read(raw: RawElement, x: EnumType) -> bool {
    &&& x.name@ == or_empty(raw_attr_spec(raw, "Name"@))
    &&& opt_view(x.underlying_type) == raw_attr_spec(raw, "UnderlyingType"@)
    &&& x.is_flags == raw_attr_bool_spec(raw, "IsFlags"@)
    &&& enum_members_of(named(raw.children@, "Member"@), x.members@)
    &&& annotations_read(raw.children@, x.annotations@)
}

pub open spec fn type_definition_read(raw: RawElement, x: TypeDefinition) -> bool {
    &&& x.name@ == or_empty(raw_attr_spec(raw, "Name"@))
    &&& x.underlying_type@ == or_empty(raw_attr_spec(raw, "UnderlyingType"@))
    &&& x.max_length == max_length_spec(raw)
    &&& opt_view(x.precision) == raw_attr_spec(raw, "Precision"@)
    &&& x.scale == scale_spec(raw)
    &&& x.srid == srid_spec(raw)
    &&& x.unicode == raw_attr_bool_spec(raw, "Unicode"@)
    &&& annotations_read(raw.children@, x.annotations@)
}

pub open spec fn term_read(raw: RawElement, x: Term) -> bool {
    &&& x.name@ == or_empty(raw_attr_spec(raw, "Name"@))
    &&& (opt_view(x.type_ref), x.is_collection) == raw_type_spec(raw, "Type"@)
    &&& opt_view(x.base_term) == raw_attr_spec(raw, "BaseTerm"@)
    &&& opt_view(x.default_value) == raw_attr_spec(raw, "DefaultValue"@)
    &&& crate::text::strs(x.applies_to@) == match raw_attr_spec(raw, "AppliesTo"@) {
        Some(v) => words(v),
        None => Seq::<Seq<char>>::empty(),
    }
    &&& x.nullable == raw_attr_bool_spec(raw, "Nullable"@)
    &&& x.max_length == max_length_spec(raw)
    &&& opt_view(x.precision) == raw_attr_spec(raw, "Precision"@)
    &&& x.scale == scale_spec(raw)
    &&& x.srid == srid_spec(raw)
    &&& x.unicode == raw_attr_bool_spec(raw, "Unicode"@)
    &&& annotations_read(raw.children@, x.annotations@)
}

pub open spec fn parameter_read(raw: RawElement, x: Parameter) -> bool {
    &&& x.name@ == or_empty(raw_attr_spec(raw, "Name"@))
    &&& (opt_view(x.type_ref), x.is_collection) == raw_type_spec(raw, "Type"@)
    &&& x.nullable == raw_attr_bool_spec(raw, "Nullable"@)
    &&& x.max_length == max_length_spec(raw)
    &&& opt_view(x.precision) == raw_attr_spec(raw, "Precision"@)
    &&& x.scale == scale_spec(raw)
    &&& x.srid == srid_spec(raw)
    &&& x.unicode == raw_attr_bool_spec(raw, "Unicode"@)
    &&& opt_view(x.default_value) == raw_attr_spec(raw, "DefaultValue"@)
    &&& annotations_read(raw.children@, x.annotations@)
}

/// Each parameter read from the element at its position.
pub open spec fn parameters_of(raws: Seq<RawElement>, v: Seq<Parameter>) -> bool {
    v.len() == raws.len() && forall|i: int| 0 <= i < v.len() ==> #[trigger] parameter_read(raws[i], v[i])
}

pub open spec fn return_type_read(raw: RawElement, x: ReturnType) -> bool {
    &&& (opt_view(x.type_ref), x.is_collection) == raw_type_spec(raw, "Type"@)
    &&& x.nullable == raw_attr_bool_spec(raw, "Nullable"@)
    &&& x.max_length == max_length_spec(raw)
    &&& opt_view(x.precision) == raw_attr_spec(raw, "Precision"@)
    &&& x.scale == scale_spec(raw)
    &&& x.srid == srid_spec(raw)
    &&& x.unicode == raw_attr_bool_spec(raw, "Unicode"@)
    &&& annotations_read(raw.children@, x.annotations@)
}

/// A function or action fails on its first parameter with a bad facet,
/// else on a bad facet of its (first) return type.
pub open spec fn callable_fail(raw: RawElement) -> Option<Seq<char>> {
    or_else(
        seq_fail(named(raw.children@, "Parameter"@), facets_fail_fn()),
        match first_named(raw.children@, "ReturnType"@) {
            Some(rt) => facets_fail(rt),
            None => None,
        },
    )
}

pub open spec fn return_type_of(raw: RawElement, x: Option<ReturnType>) -> bool {
    match first_named(raw.children@, "ReturnType"@) {
        Some(rt) => x matches Some(r) && return_type_read(rt, r),
        None => x is None,
    }
}

pub open spec fn function_read(raw: RawElement, x: Function) -> bool {
    &&& x.name@ == or_empty(raw_attr_spec(raw, "Name"@))
    &&& x.is_bound == raw_attr_bool_spec(raw, "IsBound"@)
    &&& x.is_composable == raw_attr_bool_spec(raw, "IsComposable"@)
    &&& opt_view(x.entity_set_path) == raw_attr_spec(raw, "EntitySetPath"@)
    &&& parameters_of(named(raw.children@, "Parameter"@), x.parameters@)
    &&& return_type_of(raw, x.return_type)
    &&& annotations_read(raw.children@, x.annotations@)
}

pub open spec fn action_read(raw: RawElement, x: Action) -> bool {
    &&& x.name@ == or_empty(raw_attr_spec(raw, "Name"@))
    &&& x.is_bound == raw_attr_bool_spec(raw, "IsBound"@)
    &&& opt_view(x.entity_set_path) == raw_attr_spec(raw, "EntitySetPath"@)
    &&& parameters_of(named(raw.children@, "Parameter"@), x.parameters@)
    &&& return_type_of(raw, x.return_type)
    &&& annotations_read(raw.children@, x.annotations@)
}

// Entity containers

pub open spec fn binding_read(raw: RawElement, x: NavigationPropertyBinding) -> bool {
    &&& x.path@ == or_empty(raw_attr_spec(raw, "Path"@))
    &&& x.target@ == or_empty(raw_attr_spec(raw, "Target"@))
}

/// Each binding read from the element at its position.
pub open spec fn bindings_of(raws: Seq<RawElement>, v: Seq<NavigationPropertyBinding>) -> bool {
    v.len() == raws.len() && forall|i: int| 0 <= i < v.len() ==> #[trigger] binding_read(raws[i], v[i])
}

pub open spec fn entity_set_read(raw: RawElement, x: EntitySet) -> bool {
    &&& x.name@ == or_empty(raw_attr_spec(raw, "Name"@))
    &&& opt_view(x.entity_type) == raw_attr_spec(raw, "EntityType"@)
    &&& x.include_in_service_document == raw_attr_bool_spec(raw, "IncludeInServiceDocument"@)
    &&& bindings_of(named(raw.children@, "NavigationPropertyBinding"@), x.navigation_property_bindings@)
    &&& annotations_read(raw.children@, x.annotations@)
}

/// Each entity set read from the element at its position.
pub open spec fn entity_sets_of(raws: Seq<RawElement>, v: Seq<EntitySet>) -> bool {
    v.len() == raws.len() && forall|i: int| 0 <= i < v.len() ==> #[trigger] entity_set_read(raws[i], v[i])
}

pub open spec fn singleton_read(raw: RawElement, x: Singleton) -> bool {
    &&& x.name@ == or_empty(raw_attr_spec(raw, "Name"@))
    &&& opt_view(x.type_ref) == raw_attr_spec(raw, "Type"@)
    &&& x.include_in_service_document == raw_attr_bool_spec(raw, "IncludeInServiceDocument"@)
    &&& bindings_of(named(raw.children@, "NavigationPropertyBinding"@), x.navigation_property_bindings@)
    &&& annotations_read(raw.children@, x.annotations@)
}

/// Each singleton read from the element at its position.
pub open spec fn singletons_of(raws: Seq<RawElement>, v: Seq<Singleton>) -> bool {
    v.len() == raws.len() && forall|i: int| 0 <= i < v.len() ==> #[trigger] singleton_read(raws[i], v[i])
}

pub open spec fn function_import_read(raw: RawElement, x: FunctionImport) -> bool {
    &&& x.name@ == or_empty(raw_attr_spec(raw, "Name"@))
    &&& opt_view(x.entity_set) == raw_attr_spec(raw, "EntitySet"@)
    &&& opt_view(x.function) == raw_attr_spec(raw, "Function"@)
    &&& x.include_in_service_document == raw_attr_bool_spec(raw, "IncludeInServiceDocument"@)
    &&& annotations_read(raw.children@, x.annotations@)
}

/// Each function import read from the element at its position.
pub open spec fn function_imports_of(raws: Seq<RawElement>, v: Seq<FunctionImport>) -> bool {
    v.len() == raws.len() && forall|i: int| 0 <= i < v.len() ==> #[trigger] function_import_read(raws[i], v[i])
}

pub open spec fn action_import_read(raw: RawElement, x: ActionImport) -> bool {
    &&& x.name@ == or_empty(raw_attr_spec(raw, "Name"@))
    &&& opt_view(x.action) == raw_attr_spec(raw, "Action"@)
    &&& opt_view(x.entity_set) == raw_attr_spec(raw, "EntitySet"@)
    &&& x.include_in_service_document == raw_attr_bool_spec(raw, "IncludeInServiceDocument"@)
    &&& annotations_read(raw.children@, x.annotations@)
}

/// Each action import read from the element at its position.
pub open spec fn action_imports_of(raws: Seq<RawElement>, v: Seq<ActionImport>) -> bool {
    v.len() == raws.len() && forall|i: int| 0 <= i < v.len() ==> #[trigger] action_import_read(raws[i], v[i])
}

pub open spec fn entity_container_read(raw: RawElement, x: EntityContainer) -> bool {
    &&& x.name@ == or_empty(raw_attr_spec(raw, "Name"@))
    &&& opt_view(x.extends) == raw_attr_spec(raw, "Extends"@)
    &&& entity_sets_of(named(raw.children@, "EntitySet"@), x.entity_sets@)
    &&& singletons_of(named(raw.children@, "Singleton"@), x.singletons@)
    &&& function_imports_of(named(raw.children@, "FunctionImport"@), x.function_imports@)
    &&& action_imports_of(named(raw.children@, "ActionImport"@), x.action_imports@)
    &&& annotations_read(raw.children@, x.annotations@)
}

// Schemas

/// The names of the elements a schema holds.
pub open spec fn is_element_name(n: Seq<char>) -> bool {
    n == "EntityType"@ || n == "ComplexType"@ || n == "EnumType"@ || n == "TypeDefinition"@ || n
        == "Term"@ || n == "Function"@ || n == "Action"@ || n == "EntityContainer"@
}

/// The children that are schema elements, in order.
pub open spec fn element_raws(ch: Seq<RawElement>) -> Seq<RawElement>
    decreases ch.len(),
{
    if ch.len() == 0 {
        Seq::empty()
    } else if is_element_name(ch.last().name@) {
        element_raws(ch.drop_last()).push(ch.last())
    } else {
        element_raws(ch.drop_last())
    }
}

pub open spec fn element_read(raw: RawElement, x: SchemaElement) -> bool {
    match x {
        SchemaElement::EntityType(e) => raw.name@ == "EntityType"@ && entity_type_read(raw, e),
        SchemaElement::ComplexType(e) => raw.name@ == "ComplexType"@ && complex_type_read(raw, e),
        SchemaElement::EnumType(e) => raw.name@ == "EnumType"@ && enum_type_read(raw, e),
        SchemaElement::TypeDefinition(e) => raw.name@ == "TypeDefinition"@ && type_definition_read(raw, e),
        SchemaElement::Term(e) => raw.name@ == "Term"@ && term_read(raw, e),
        SchemaElement::Function(e) => raw.name@ == "Function"@ && function_read(raw, e),
        SchemaElement::Action(e) => raw.name@ == "Action"@ && action_read(raw, e),
        SchemaElement::EntityContainer(e) => raw.name@ == "EntityContainer"@ && entity_container_read(raw, e),
    }
}

/// Each schema element read from the element at its position.
pub open spec fn elements_of(raws: Seq<RawElement>, v: Seq<SchemaElement>) -> bool {
    v.len() == raws.len() && forall|i: int| 0 <= i < v.len() ==> #[trigger] element_read(raws[i], v[i])
}

/// How a schema child can fail, by its name.
pub open spec fn schema_child_fail(c: RawElement) -> Option<Seq<char>> {
    let n = c.name@;
    if n == "EntityType"@ || n == "ComplexType"@ {
        structured_fail(c)
    } else if n == "TypeDefinition"@ || n == "Term"@ {
        facets_fail(c)
    } else if n == "Function"@ || n == "Action"@ {
        callable_fail(c)
    } else {
        None
    }
}

pub open spec fn schema_child_fail_fn() -> spec_fn(RawElement) -> Option<Seq<char>> {
    |c: RawElement| schema_child_fail(c)
}

/// A schema fails on the first child that fails.
pub open spec fn schema_fail(raw: RawElement) -> Option<Seq<char>> {
    seq_fail(raw.children@, schema_child_fail_fn())
}

pub open spec fn schema_fail_fn() -> spec_fn(RawElement) -> Option<Seq<char>> {
    |c: RawElement| schema_fail(c)
}

pub open spec fn schema_read(raw: RawElement, x: Schema) -> bool {
    &&& x.namespace@ == or_empty(raw_attr_spec(raw, "Namespace"@))
    &&& opt_view(x.alias) == raw_attr_spec(raw, "Alias"@)
    &&& elements_of(element_raws(raw.children@), x.elements@)
    &&& annotations_read(raw.children@, x.annotations@)
}

/// Each schema read from the element at its position.
pub open spec fn schemas_of(raws: Seq<RawElement>, v: Seq<Schema>) -> bool {
    v.len() == raws.len() && forall|i: int| 0 <= i < v.len() ==> #[trigger] schema_read(raws[i], v[i])
}

// References and the document

pub open spec fn include_read(raw: RawElement, x: Include) -> bool {
    &&& x.namespace@ == or_empty(raw_attr_spec(raw, "Namespace"@))
    &&& opt_view(x.alias) == raw_attr_spec(raw, "Alias"@)
    &&& annotations_read(raw.children@, x.annotations@)
}

/// Each include read from the element at its position.
pub open spec fn includes_of(raws: Seq<RawElement>, v: Seq<Include>) -> bool {
    v.len() == raws.len() && forall|i: int| 0 <= i < v.len() ==> #[trigger] include_read(raws[i], v[i])
}

pub open spec fn include_annotations_read(raw: RawElement, x: IncludeAnnotations) -> bool {
    &&& x.term_namespace@ == or_empty(raw_attr_spec(raw, "TermNamespace"@))
    &&& opt_view(x.qualifier) == raw_attr_spec(raw, "Qualifier"@)
    &&& opt_view(x.target_namespace) == raw_attr_spec(raw, "TargetNamespace"@)
}

/// Each `IncludeAnnotations` read from the element at its position.
pub open spec fn include_annotations_of(raws: Seq<RawElement>, v: Seq<IncludeAnnotations>) -> bool {
    v.len() == raws.len() && forall|i: int| 0 <= i < v.len() ==> #[trigger] include_annotations_read(raws[i], v[i])
}

pub open spec fn reference_read(raw: RawElement, x: Reference) -> bool {
    &&& x.uri@ == or_empty(raw_attr_spec(raw, "Uri"@))
    &&& includes_of(named(raw.children@, "Include"@), x.includes@)
    &&& include_annotations_of(named(raw.children@, "IncludeAnnotations"@), x.include_annotations@)
}

/// Each reference read from the element at its position.
pub open spec fn references_of(raws: Seq<RawElement>, v: Seq<Reference>) -> bool {
    v.len() == raws.len() && forall|i: int| 0 <= i < v.len() ==> #[trigger] reference_read(raws[i], v[i])
}

/// The schemas of a document root: those inside `DataServices` children
/// and those that are children themselves, in document order.
pub open spec fn edmx_schema_raws(ch: Seq<RawElement>) -> Seq<RawElement>
    decreases ch.len(),
{
    if ch.len() == 0 {
        Seq::empty()
    } else {
        edmx_schema_raws(ch.drop_last()) + if ch.last().name@ == "DataServices"@ {
            named(ch.last().children@, "Schema"@)
        } else if ch.last().name@ == "Schema"@ {
            seq![ch.last()]
        } else {
            Seq::empty()
        }
    }
}

/// A document root fails on its first schema that fails.
pub open spec fn edmx_fail(raw: RawElement) -> Option<Seq<char>> {
    seq_fail(edmx_schema_raws(raw.children@), schema_fail_fn())
}

pub open spec fn edmx_read(raw: RawElement, x: Edmx) -> bool {
    &&& opt_view(x.version) == raw_attr_spec(raw, "Version"@)
    &&& references_of(named(raw.children@, "Reference"@), x.references@)
    &&& schemas_of(edmx_schema_raws(raw.children@), x.schemas@)
}

// ---------------------------------------------------------------------------
// Elements
// ---------------------------------------------------------------------------

/// The child names a structured type reads are distinct.
proof fn lemma_structured_names()
    ensures
        "Key"@ != "Property"@,
        "Key"@ != "NavigationProperty"@,
        "Key"@ != "Annotation"@,
        "Property"@ != "NavigationProperty"@,
        "Property"@ != "Annotation"@,
        "NavigationProperty"@ != "Annotation"@,
{
    reveal_strlit("Key");
    reveal_strlit("Property");
    reveal_strlit("NavigationProperty");
    reveal_strlit("Annotation");
    assert("Key"@.len() != "Property"@.len());
    assert("Key"@.len() != "NavigationProperty"@.len());
    assert("Key"@.len() != "Annotation"@.len());
    assert("Property"@.len() != "NavigationProperty"@.len());
    assert("Property"@.len() != "Annotation"@.len());
    assert("NavigationProperty"@.len() != "Annotation"@.len());
}

/// The child names a navigation property reads are distinct.
proof fn lemma_navigation_names()
    ensures
        "OnDelete"@ != "ReferentialConstraint"@,
        "OnDelete"@ != "Annotation"@,
        "ReferentialConstraint"@ != "Annotation"@,
{
    reveal_strlit("OnDelete");
    reveal_strlit("ReferentialConstraint");
    reveal_strlit("Annotation");
    assert("OnDelete"@.len() != "ReferentialConstraint"@.len());
    assert("OnDelete"@.len() != "Annotation"@.len());
    assert("ReferentialConstraint"@.len() != "Annotation"@.len());
}

/// The child names a function or action reads are distinct.
proof fn lemma_callable_names()
    ensures
        "Parameter"@ != "ReturnType"@,
        "Parameter"@ != "Annotation"@,
        "ReturnType"@ != "Annotation"@,
{
    reveal_strlit("Parameter");
    reveal_strlit("ReturnType");
    reveal_strlit("Annotation");
    assert("Parameter"@.len() != "ReturnType"@.len());
    assert("Parameter"@.len() != "Annotation"@.len());
    assert("ReturnType"@[0] != "Annotation"@[0]);
}

/// The child names an entity container reads are distinct.
proof fn lemma_container_names()
    ensures
        "EntitySet"@ != "Singleton"@,
        "EntitySet"@ != "FunctionImport"@,
        "EntitySet"@ != "ActionImport"@,
        "EntitySet"@ != "Annotation"@,
        "Singleton"@ != "FunctionImport"@,
        "Singleton"@ != "ActionImport"@,
        "Singleton"@ != "Annotation"@,
        "FunctionImport"@ != "ActionImport"@,
        "FunctionImport"@ != "Annotation"@,
        "ActionImport"@ != "Annotation"@,
{
    reveal_strlit("EntitySet");
    reveal_strlit("Singleton");
    reveal_strlit("FunctionImport");
    reveal_strlit("ActionImport");
    reveal_strlit("Annotation");
    assert("EntitySet"@[0] != "Singleton"@[0]);
    assert("EntitySet"@.len() != "FunctionImport"@.len());
    assert("EntitySet"@.len() != "ActionImport"@.len());
    assert("EntitySet"@.len() != "Annotation"@.len());
    assert("Singleton"@.len() != "FunctionImport"@.len());
    assert("Singleton"@.len() != "ActionImport"@.len());
    assert("Singleton"@.len() != "Annotation"@.len());
    assert("FunctionImport"@.len() != "ActionImport"@.len());
    assert("FunctionImport"@.len() != "Annotation"@.len());
    assert("ActionImport"@.len() != "Annotation"@.len());
}

/// The child names an entity set or singleton reads are distinct.
proof fn lemma_binding_names()
    ensures
        "NavigationPropertyBinding"@ != "Annotation"@,
{
    reveal_strlit("NavigationPropertyBinding");
    reveal_strlit("Annotation");
    assert("NavigationPropertyBinding"@.len() != "Annotation"@.len());
}

/// The child names an enum type reads are distinct.
proof fn lemma_member_names()
    ensures
        "Member"@ != "Annotation"@,
{
    reveal_strlit("Member");
    reveal_strlit("Annotation");
    assert("Member"@.len() != "Annotation"@.len());
}

/// The child names a reference reads are distinct.
proof fn lemma_reference_names()
    ensures
        "Include"@ != "IncludeAnnotations"@,
{
    reveal_strlit("Include");
    reveal_strlit("IncludeAnnotations");
    assert("Include"@.len() != "IncludeAnnotations"@.len());
}

/// The child names a schema reads are distinct.
proof fn lemma_schema_names()
    ensures
        "EntityType"@ != "ComplexType"@,
        "EntityType"@ != "EnumType"@,
        "EntityType"@ != "TypeDefinition"@,
        "EntityType"@ != "Term"@,
        "EntityType"@ != "Function"@,
        "EntityType"@ != "Action"@,
        "EntityType"@ != "EntityContainer"@,
        "EntityType"@ != "Annotation"@,
        "ComplexType"@ != "EnumType"@,
        "ComplexType"@ != "TypeDefinition"@,
        "ComplexType"@ != "Term"@,
        "ComplexType"@ != "Function"@,
        "ComplexType"@ != "Action"@,
        "ComplexType"@ != "EntityContainer"@,
        "ComplexType"@ != "Annotation"@,
        "EnumType"@ != "TypeDefinition"@,
        "EnumType"@ != "Term"@,
        "EnumType"@ != "Function"@,
        "EnumType"@ != "Action"@,
        "EnumType"@ != "EntityContainer"@,
        "EnumType"@ != "Annotation"@,
        "TypeDefinition"@ != "Term"@,
        "TypeDefinition"@ != "Function"@,
        "TypeDefinition"@ != "Action"@,
        "TypeDefinition"@ != "EntityContainer"@,
        "TypeDefinition"@ != "Annotation"@,
        "Term"@ != "Function"@,
        "Term"@ != "Action"@,
        "Term"@ != "EntityContainer"@,
        "Term"@ != "Annotation"@,
        "Function"@ != "Action"@,
        "Function"@ != "EntityContainer"@,
        "Function"@ != "Annotation"@,
        "Action"@ != "EntityContainer"@,
        "Action"@ != "Annotation"@,
        "EntityContainer"@ != "Annotation"@,
{
    reveal_strlit("EntityType");
    reveal_strlit("ComplexType");
    reveal_strlit("EnumType");
    reveal_strlit("TypeDefinition");
    reveal_strlit("Term");
    reveal_strlit("Function");
    reveal_strlit("Action");
    reveal_strlit("EntityContainer");
    reveal_strlit("Annotation");
    assert("EntityType"@.len() != "ComplexType"@.len());
    assert("EntityType"@.len() != "EnumType"@.len());
    assert("EntityType"@.len() != "TypeDefinition"@.len());
    assert("EntityType"@.len() != "Term"@.len());
    assert("EntityType"@.len() != "Function"@.len());
    assert("EntityType"@.len() != "Action"@.len());
    assert("EntityType"@.len() != "EntityContainer"@.len());
    assert("EntityType"@[0] != "Annotation"@[0]);
    assert("ComplexType"@.len() != "EnumType"@.len());
    assert("ComplexType"@.len() != "TypeDefinition"@.len());
    assert("ComplexType"@.len() != "Term"@.len());
    assert("ComplexType"@.len() != "Function"@.len());
    assert("ComplexType"@.len() != "Action"@.len());
    assert("ComplexType"@.len() != "EntityContainer"@.len());
    assert("ComplexType"@.len() != "Annotation"@.len());
    assert("EnumType"@.len() != "TypeDefinition"@.len());
    assert("EnumType"@.len() != "Term"@.len());
    assert("EnumType"@[0] != "Function"@[0]);
    assert("EnumType"@.len() != "Action"@.len());
    assert("EnumType"@.len() != "EntityContainer"@.len());
    assert("EnumType"@.len() != "Annotation"@.len());
    assert("TypeDefinition"@.len() != "Term"@.len());
    assert("TypeDefinition"@.len() != "Function"@.len());
    assert("TypeDefinition"@.len() != "Action"@.len());
    assert("TypeDefinition"@.len() != "EntityContainer"@.len());
    assert("TypeDefinition"@.len() != "Annotation"@.len());
    assert("Term"@.len() != "Function"@.len());
    assert("Term"@.len() != "Action"@.len());
    assert("Term"@.len() != "EntityContainer"@.len());
    assert("Term"@.len() != "Annotation"@.len());
    assert("Function"@.len() != "Action"@.len());
    assert("Function"@.len() != "EntityContainer"@.len());
    assert("Function"@.len() != "Annotation"@.len());
    assert("Action"@.len() != "EntityContainer"@.len());
    assert("Action"@.len() != "Annotation"@.len());
    assert("EntityContainer"@.len() != "Annotation"@.len());
}

/// The child names a document root reads are distinct.
proof fn lemma_edmx_names()
    ensures
        "Reference"@ != "DataServices"@,
        "Reference"@ != "Schema"@,
        "DataServices"@ != "Schema"@,
{
    reveal_strlit("Reference");
    reveal_strlit("DataServices");
    reveal_strlit("Schema");
    assert("Reference"@.len() != "DataServices"@.len());
    assert("Reference"@.len() != "Schema"@.len());
    assert("DataServices"@.len() != "Schema"@.len());
}

/// The first child named `n`, and the children not named `n`.
fn take_first(children: Vec<RawElement>, n: &str) -> (r: (Option<RawElement>, Vec<RawElement>))
    ensures
        r.0 == first_named(children@, n@),
        r.1@ == not_named(children@, n@),
{
    let (hits, rest) = take_named(children, n);
    let mut hits = hits;
    if hits.len() > 0 {
        (Some(hits.remove(0)), rest)
    } else {
        (None, rest)
    }
}

/// The `MaxLength`, `Scale` and `SRID` facets, or the error of the first
/// that does not parse.
fn facets_of(raw: &RawElement) -> (r: Result<(Option<MaxLengthFacet>, Option<ScaleFacet>, Option<SridFacet>), ReadError>)
    ensures
        match facets_fail(*raw) {
            None => r matches Ok(t) && t == (max_length_spec(*raw), scale_spec(*raw), srid_spec(*raw)),
            Some(m) => r matches Err(e) && csdl_message(e) == Some(m),
        },
{
    let max_length = match max_length_of(raw) {
        Ok(v) => v,
        Err(e) => {
            return Err(e);
        },
    };
    let scale = match scale_of(raw) {
        Ok(v) => v,
        Err(e) => {
            return Err(e);
        },
    };
    let srid = match srid_of(raw) {
        Ok(v) => v,
        Err(e) => {
            return Err(e);
        },
    };
    Ok((max_length, scale, srid))
}

/// An annotation: its term, qualifier and target, and the first annotation
/// expression its element holds.
pub fn parse_annotation(raw: RawElement) -> (r: Annotation)
    ensures
        annotation_read(raw, r),
{
    let term = raw_attr_or_empty(&raw, "Term");
    let qualifier = raw_attr(&raw, "Qualifier");
    let target = raw_attr(&raw, "Target");
    let mut exprs = raw.annotation_expressions;
    let expression = if exprs.len() > 0 {
        Some(exprs.remove(0))
    } else {
        None
    };
    Annotation { term, qualifier, target, expression }
}

/// Reads annotation elements in order.
fn parse_annotation_list(raws: Vec<RawElement>) -> (r: Vec<Annotation>)
    ensures
        annotations_of(raws@, r@),
{
    let ghost h = raws@;
    let mut rest = raws;
    let mut out: Vec<Annotation> = Vec::new();
    let n = rest.len();
    let mut j: usize = 0;
    while j < n
        invariant
            j <= n == h.len(),
            h == raws@,
            rest@ == h.skip(j as int),
            out@.len() == j,
            forall|i: int| 0 <= i < j ==> #[trigger] annotation_read(h[i], out@[i]),
        decreases n - j,
    {
        proof {
            assert(rest@[0] == h[j as int]);
        }
        let x = rest.remove(0);
        proof {
            assert(rest@ =~= h.skip(j + 1));
        }
        let y = parse_annotation(x);
        out.push(y);
        j = j + 1;
    }
    out
}

/// The annotation children among `children`, read, and the other children.
fn parse_annotations(children: Vec<RawElement>) -> (r: (Vec<Annotation>, Vec<RawElement>))
    ensures
        annotations_read(children@, r.0@),
        r.1@ == not_named(children@, "Annotation"@),
{
    let (hits, rest) = take_named(children, "Annotation");
    (parse_annotation_list(hits), rest)
}

pub fn parse_property(raw: RawElement) -> (r: Result<Property, ReadError>)
    ensures
        match facets_fail(raw) {
            None => r matches Ok(x) && property_read(raw, x),
            Some(m) => r matches Err(e) && csdl_message(e) == Some(m),
        },
{
    let name = raw_attr_or_empty(&raw, "Name");
    let (type_ref, is_collection) = raw_type_attr(&raw, "Type");
    let nullable = raw_attr_bool(&raw, "Nullable");
    let (max_length, scale, srid) = match facets_of(&raw) {
        Ok(t) => t,
        Err(e) => {
            return Err(e);
        },
    };
    let precision = raw_attr(&raw, "Precision");
    let unicode = raw_attr_bool(&raw, "Unicode");
    let default_value = raw_attr(&raw, "DefaultValue");
    let (annotations, _) = parse_annotations(raw.children);
    Ok(Property { name, type_ref, is_collection, nullable, max_length, precision, scale, srid, unicode, default_value, annotations })
}

/// Reads property elements in order, stopping at the first failure.
fn parse_properties(raws: Vec<RawElement>) -> (r: Result<Vec<Property>, ReadError>)
    ensures
        match seq_fail(raws@, facets_fail_fn()) {
            None => r matches Ok(v) && properties_of(raws@, v@),
            Some(m) => r matches Err(e) && csdl_message(e) == Some(m),
        },
{
    let ghost h = raws@;
    let mut rest = raws;
    let mut out: Vec<Property> = Vec::new();
    let n = rest.len();
    let mut j: usize = 0;
    assert(h.take(0) =~= Seq::<RawElement>::empty());
    while j < n
        invariant
            j <= n == h.len(),
            h == raws@,
            rest@ == h.skip(j as int),
            out@.len() == j,
            forall|i: int| 0 <= i < j ==> #[trigger] property_read(h[i], out@[i]),
            seq_fail(h.take(j as int), facets_fail_fn()) is None,
        decreases n - j,
    {
        proof {
            assert(rest@[0] == h[j as int]);
            assert(h.take(j + 1).drop_last() =~= h.take(j as int));
            assert(h.take(j + 1).last() == h[j as int]);
        }
        let x = rest.remove(0);
        proof {
            assert(rest@ =~= h.skip(j + 1));
        }
        match parse_property(x) {
            Ok(y) => {
                out.push(y);
            },
            Err(e) => {
                proof {
lemma_seq_fail_prefix(h, facets_fail_fn(), (j + 1) as nat);
                }
                return Err(e);
            },
        }
        j = j + 1;
    }
    proof {
        assert(h.take(n as int) =~= h);
    }
    Ok(out)
}

fn parse_constraint(raw: RawElement) -> (r: ReferentialConstraint)
    ensures
        constraint_read(raw, r),
{
    let property = raw_attr_or_empty(&raw, "Property");
    let referenced_property = raw_attr_or_empty(&raw, "ReferencedProperty");
    let (annotations, _) = parse_annotations(raw.children);
    ReferentialConstraint { property, referenced_property, annotations }
}

/// Reads referential constraint elements in order.
fn parse_constraints(raws: Vec<RawElement>) -> (r: Vec<ReferentialConstraint>)
    ensures
        constraints_of(raws@, r@),
{
    let ghost h = raws@;
    let mut rest = raws;
    let mut out: Vec<ReferentialConstraint> = Vec::new();
    let n = rest.len();
    let mut j: usize = 0;
    while j < n
        invariant
            j <= n == h.len(),
            h == raws@,
            rest@ == h.skip(j as int),
            out@.len() == j,
            forall|i: int| 0 <= i < j ==> #[trigger] constraint_read(h[i], out@[i]),
        decreases n - j,
    {
        proof {
            assert(rest@[0] == h[j as int]);
        }
        let x = rest.remove(0);
        proof {
            assert(rest@ =~= h.skip(j + 1));
        }
        let y = parse_constraint(x);
        out.push(y);
        j = j + 1;
    }
    out
}

pub fn parse_navigation_property(raw: RawElement) -> (r: Result<NavigationProperty, ReadError>)
    ensures
        match navigation_fail(raw) {
            None => r matches Ok(x) && navigation_read(raw, x),
            Some(m) => r matches Err(e) && csdl_message(e) == Some(m),
        },
{
    let ghost ch = raw.children@;
    let name = raw_attr_or_empty(&raw, "Name");
    let (type_ref, is_collection) = raw_type_attr(&raw, "Type");
    let nullable = raw_attr_bool(&raw, "Nullable");
    let partner = raw_attr(&raw, "Partner");
    let contains_target = raw_attr_bool(&raw, "ContainsTarget");
    let (od, rest) = take_first(raw.children, "OnDelete");
    let on_delete = match od {
        None => None,
        Some(o) => match raw_attr(&o, "Action") {
            None => None,
            Some(a) => match OnDeleteAction::parse(a.as_str()) {
                Some(x) => Some(x),
                None => {
                    return Err(ReadError::Csdl(concat("unsupported OnDelete Action value: ", a.as_str())));
                },
            },
        },
    };
    let (rcs, rest) = take_named(rest, "ReferentialConstraint");
    let referential_constraints = parse_constraints(rcs);
    let (annotations, _) = parse_annotations(rest);
    proof {
        lemma_navigation_names();
        lemma_named_skips(ch, "OnDelete"@, "ReferentialConstraint"@);
        lemma_named_skips(ch, "OnDelete"@, "Annotation"@);
        lemma_named_skips(not_named(ch, "OnDelete"@), "ReferentialConstraint"@, "Annotation"@);
    }
    Ok(NavigationProperty { name, type_ref, is_collection, nullable, partner, contains_target, on_delete, referential_constraints, annotations })
}

/// Reads navigation property elements in order, stopping at the first failure.
fn parse_navigation_properties(raws: Vec<RawElement>) -> (r: Result<Vec<NavigationProperty>, ReadError>)
    ensures
        match seq_fail(raws@, navigation_fail_fn()) {
            None => r matches Ok(v) && navigations_of(raws@, v@),
            Some(m) => r matches Err(e) && csdl_message(e) == Some(m),
        },
{
    let ghost h = raws@;
    let mut rest = raws;
    let mut out: Vec<NavigationProperty> = Vec::new();
    let n = rest.len();
    let mut j: usize = 0;
    assert(h.take(0) =~= Seq::<RawElement>::empty());
    while j < n
        invariant
            j <= n == h.len(),
            h == raws@,
            rest@ == h.skip(j as int),
            out@.len() == j,
            forall|i: int| 0 <= i < j ==> #[trigger] navigation_read(h[i], out@[i]),
            seq_fail(h.take(j as int), navigation_fail_fn()) is None,
        decreases n - j,
    {
        proof {
            assert(rest@[0] == h[j as int]);
            assert(h.take(j + 1).drop_last() =~= h.take(j as int));
            assert(h.take(j + 1).last() == h[j as int]);
        }
        let x = rest.remove(0);
        proof {
            assert(rest@ =~= h.skip(j + 1));
        }
        match parse_navigation_property(x) {
            Ok(y) => {
                out.push(y);
            },
            Err(e) => {
                proof {
                    lemma_seq_fail_prefix(h, navigation_fail_fn(), (j + 1) as nat);
                }
                return Err(e);
            },
        }
        j = j + 1;
    }
    proof {
        assert(h.take(n as int) =~= h);
    }
    Ok(out)
}

fn parse_property_ref(raw: RawElement) -> (r: PropertyRef)
    ensures
        property_ref_read(raw, r),
{
    PropertyRef { name: raw_attr_or_empty(&raw, "Name") }
}

/// Reads property reference elements in order.
fn parse_property_refs(raws: Vec<RawElement>) -> (r: Vec<PropertyRef>)
    ensures
        property_refs_of(raws@, r@),
{
    let ghost h = raws@;
    let mut rest = raws;
    let mut out: Vec<PropertyRef> = Vec::new();
    let n = rest.len();
    let mut j: usize = 0;
    while j < n
        invariant
            j <= n == h.len(),
            h == raws@,
            rest@ == h.skip(j as int),
            out@.len() == j,
            forall|i: int| 0 <= i < j ==> #[trigger] property_ref_read(h[i], out@[i]),
        decreases n - j,
    {
        proof {
            assert(rest@[0] == h[j as int]);
        }
        let x = rest.remove(0);
        proof {
            assert(rest@ =~= h.skip(j + 1));
        }
        let y = parse_property_ref(x);
        out.push(y);
        j = j + 1;
    }
    out
}

pub fn parse_key(raw: RawElement) -> (r: Key)
    ensures
        key_read(raw, r),
{
    let (refs, _) = take_named(raw.children, "PropertyRef");
    Key { property_refs: parse_property_refs(refs) }
}

pub fn parse_entity_type(raw: RawElement) -> (r: Result<EntityType, ReadError>)
    ensures
        match structured_fail(raw) {
            None => r matches Ok(x) && entity_type_read(raw, x),
            Some(m) => r matches Err(e) && csdl_message(e) == Some(m),
        },
{
    let ghost ch = raw.children@;
    let name = raw_attr_or_empty(&raw, "Name");
    let base_type = raw_attr(&raw, "BaseType");
    let abstract_ = raw_attr_bool(&raw, "Abstract");
    let open_type = raw_attr_bool(&raw, "OpenType");
    let has_stream = raw_attr_bool(&raw, "HasStream");
    let (key_raw, rest) = take_first(raw.children, "Key");
    let key = match key_raw {
        Some(k) => Some(parse_key(k)),
        None => None,
    };
    let (props, rest) = take_named(rest, "Property");
    let (navs, rest) = take_named(rest, "NavigationProperty");
    proof {
        lemma_structured_names();
        let c1 = not_named(ch, "Key"@);
        let c2 = not_named(c1, "Property"@);
        lemma_named_skips(ch, "Key"@, "Property"@);
        lemma_named_skips(ch, "Key"@, "NavigationProperty"@);
        lemma_named_skips(c1, "Property"@, "NavigationProperty"@);
        lemma_named_skips(ch, "Key"@, "Annotation"@);
        lemma_named_skips(c1, "Property"@, "Annotation"@);
        lemma_named_skips(c2, "NavigationProperty"@, "Annotation"@);
    }
    let properties = match parse_properties(props) {
        Ok(v) => v,
        Err(e) => {
            return Err(e);
        },
    };
    let navigation_properties = match parse_navigation_properties(navs) {
        Ok(v) => v,
        Err(e) => {
            return Err(e);
        },
    };
    let (annotations, _) = parse_annotations(rest);
    Ok(EntityType { name, base_type, abstract_, open_type, has_stream, key, properties, navigation_properties, annotations })
}

/// Leaving out children of one name keeps those of another.
proof fn lemma_named_skips(ch: Seq<RawElement>, a: Seq<char>, b: Seq<char>)
    requires
        a != b,
    ensures
        named(not_named(ch, a), b) == named(ch, b),
    decreases ch.len(),
{
    if ch.len() > 0 {
        let d = ch.drop_last();
        lemma_named_skips(d, a, b);
        if ch.last().name@ != a {
            assert(not_named(ch, a).drop_last() =~= not_named(d, a));
            assert(not_named(ch, a).last() == ch.last());
        }
    }
}

pub fn parse_complex_type(raw: RawElement) -> (r: Result<ComplexType, ReadError>)
    ensures
        match structured_fail(raw) {
            None => r matches Ok(x) && complex_type_read(raw, x),
            Some(m) => r matches Err(e) && csdl_message(e) == Some(m),
        },
{
    let ghost ch = raw.children@;
    let name = raw_attr_or_empty(&raw, "Name");
    let base_type = raw_attr(&raw, "BaseType");
    let abstract_ = raw_attr_bool(&raw, "Abstract");
    let open_type = raw_attr_bool(&raw, "OpenType");
    let (props, rest) = take_named(raw.children, "Property");
    let (navs, rest) = take_named(rest, "NavigationProperty");
    proof {
        lemma_structured_names();
        lemma_named_skips(ch, "Property"@, "NavigationProperty"@);
        lemma_named_skips(ch, "Property"@, "Annotation"@);
        lemma_named_skips(not_named(ch, "Property"@), "NavigationProperty"@, "Annotation"@);
    }
    let properties = match parse_properties(props) {
        Ok(v) => v,
        Err(e) => {
            return Err(e);
        },
    };
    let navigation_properties = match parse_navigation_properties(navs) {
        Ok(v) => v,
        Err(e) => {
            return Err(e);
        },
    };
    let (annotations, _) = parse_annotations(rest);
    Ok(ComplexType { name, base_type, abstract_, open_type, properties, navigation_properties, annotations })
}

pub fn parse_enum_member(raw: RawElement) -> (r: EnumMember)
    ensures
        enum_member_read(raw, r),
{
    let name = raw_attr_or_empty(&raw, "Name");
    let value = match raw_attr(&raw, "Value") {
        Some(v) => parse_i64(v.as_str()),
        None => None,
    };
    let (annotations, _) = parse_annotations(raw.children);
    EnumMember { name, value, annotations }
}

/// Reads enum member elements in order.
fn parse_enum_members(raws: Vec<RawElement>) -> (r: Vec<EnumMember>)
    ensures
        enum_members_of(raws@, r@),
{
    let ghost h = raws@;
    let mut rest = raws;
    let mut out: Vec<EnumMember> = Vec::new();
    let n = rest.len();
    let mut j: usize = 0;
    while j < n
        invariant
            j <= n == h.len(),
            h == raws@,
            rest@ == h.skip(j as int),
            out@.len() == j,
            forall|i: int| 0 <= i < j ==> #[trigger] enum_member_read(h[i], out@[i]),
        decreases n - j,
    {
        proof {
            assert(rest@[0] == h[j as int]);
        }
        let x = rest.remove(0);
        proof {
            assert(rest@ =~= h.skip(j + 1));
        }
        let y = parse_enum_member(x);
        out.push(y);
        j = j + 1;
    }
    out
}

pub fn parse_enum_type(raw: RawElement) -> (r: EnumType)
    ensures
        enum_type_read(raw, r),
{
    let ghost ch = raw.children@;
    let name = raw_attr_or_empty(&raw, "Name");
    let underlying_type = raw_attr(&raw, "UnderlyingType");
    let is_flags = raw_attr_bool(&raw, "IsFlags");
    let (ms, rest) = take_named(raw.children, "Member");
    let members = parse_enum_members(ms);
    let (annotations, _) = parse_annotations(rest);
    proof {
        lemma_member_names();
        lemma_named_skips(ch, "Member"@, "Annotation"@);
    }
    EnumType { name, underlying_type, is_flags, members, annotations }
}

pub fn parse_type_definition(raw: RawElement) -> (r: Result<TypeDefinition, ReadError>)
    ensures
        match facets_fail(raw) {
            None => r matches Ok(x) && type_definition_read(raw, x),
            Some(m) => r matches Err(e) && csdl_message(e) == Some(m),
        },
{
    let name = raw_attr_or_empty(&raw, "Name");
    let underlying_type = raw_attr_or_empty(&raw, "UnderlyingType");
    let (max_length, scale, srid) = match facets_of(&raw) {
        Ok(t) => t,
        Err(e) => {
            return Err(e);
        },
    };
    let precision = raw_attr(&raw, "Precision");
    let unicode = raw_attr_bool(&raw, "Unicode");
    let (annotations, _) = parse_annotations(raw.children);
    Ok(TypeDefinition { name, underlying_type, max_length, precision, scale, srid, unicode, annotations })
}

/// Whether `char::is_whitespace` holds: the Unicode `White_Space` characters.
pub open spec fn is_white_space(c: char) -> bool {
    let u = c as u32;
    ||| (0x9 <= u && u <= 0xD)
    ||| u == 0x20
    ||| u == 0x85
    ||| u == 0xA0
    ||| u == 0x1680
    ||| (0x2000 <= u && u <= 0x200A)
    ||| u == 0x2028
    ||| u == 0x2029
    ||| u == 0x202F
    ||| u == 0x205F
    ||| u == 0x3000
}

fn white_space(c: char) -> (r: bool)
    ensures
        r == is_white_space(c),
{
    let u = c as u32;
    (0x9 <= u && u <= 0xD) || u == 0x20 || u == 0x85 || u == 0xA0 || u == 0x1680 || (0x2000 <= u
        && u <= 0x200A) || u == 0x2028 || u == 0x2029 || u == 0x202F || u == 0x205F || u == 0x3000
}

/// The words of a text (`str::split_whitespace`): the maximal runs of
/// characters that are not white space.
pub open spec fn words(s: Seq<char>) -> Seq<Seq<char>>
    decreases s.len(),
{
    words_from(s, Seq::empty())
}

/// The words of `s`, the current word having begun with `cur`.
pub open spec fn words_from(s: Seq<char>, cur: Seq<char>) -> Seq<Seq<char>>
    decreases s.len(),
{
    if s.len() == 0 {
        if cur.len() > 0 {
            seq![cur]
        } else {
            Seq::empty()
        }
    } else if is_white_space(s[0]) {
        if cur.len() > 0 {
            seq![cur] + words_from(s.drop_first(), Seq::empty())
        } else {
            words_from(s.drop_first(), Seq::empty())
        }
    } else {
        words_from(s.drop_first(), cur.push(s[0]))
    }
}

fn split_whitespace(s: &str) -> (r: Vec<String>)
    ensures
        crate::text::strs(r@) == words(s@),
{
    let cs = crate::text::chars_of(s);
    let mut out: Vec<String> = Vec::new();
    let mut cur: Vec<char> = Vec::new();
    let mut i: usize = 0;
    proof {
        assert(cs@.skip(0) =~= cs@);
    }
    while i < cs.len()
        invariant
            i <= cs@.len(),
            cs@ == s@,
            crate::text::strs(out@) + words_from(cs@.skip(i as int), cur@) == words(s@),
        decreases cs.len() - i,
    {
        let ghost rest = cs@.skip(i as int);
        proof {
            assert(rest[0] == cs@[i as int]);
            assert(rest.drop_first() =~= cs@.skip(i + 1));
        }
        if white_space(cs[i]) {
            if cur.len() > 0 {
                let w = crate::text::string_of(cur.as_slice());
                let ghost o = out@;
                let ghost cw = cur@;
                out.push(w);
                cur = Vec::new();
                proof {
                    crate::text::lemma_strs_push(o, w);
                    assert(crate::text::strs(out@) + words_from(cs@.skip(i + 1), cur@) =~= crate::text::strs(o)
                        + (seq![cw] + words_from(cs@.skip(i + 1), Seq::empty())));
                }
            } else {
                proof {
                    assert(cur@ =~= Seq::<char>::empty());
                }
            }
        } else {
            cur.push(cs[i]);
        }
        i = i + 1;
    }
    proof {
        assert(cs@.skip(i as int) =~= Seq::<char>::empty());
    }
    if cur.len() > 0 {
        let w = crate::text::string_of(cur.as_slice());
        let ghost o = out@;
        out.push(w);
        proof {
            crate::text::lemma_strs_push(o, w);
            assert(crate::text::strs(out@) =~= crate::text::strs(o) + seq![cur@]);
        }
    } else {
        proof {
            assert(crate::text::strs(out@) =~= crate::text::strs(out@) + Seq::<Seq<char>>::empty());
        }
    }
    out
}

pub fn parse_term(raw: RawElement) -> (r: Result<Term, ReadError>)
    ensures
        match facets_fail(raw) {
            None => r matches Ok(x) && term_read(raw, x),
            Some(m) => r matches Err(e) && csdl_message(e) == Some(m),
        },
{
    let name = raw_attr_or_empty(&raw, "Name");
    let (type_ref, is_collection) = raw_type_attr(&raw, "Type");
    let base_term = raw_attr(&raw, "BaseTerm");
    let default_value = raw_attr(&raw, "DefaultValue");
    let applies_to = match raw_attr(&raw, "AppliesTo") {
        Some(v) => split_whitespace(v.as_str()),
        None => {
            let v: Vec<String> = Vec::new();
            proof {
                assert(crate::text::strs(v@) =~= Seq::<Seq<char>>::empty());
            }
            v
        },
    };
    let nullable = raw_attr_bool(&raw, "Nullable");
    let (max_length, scale, srid) = match facets_of(&raw) {
        Ok(t) => t,
        Err(e) => {
            return Err(e);
        },
    };
    let precision = raw_attr(&raw, "Precision");
    let unicode = raw_attr_bool(&raw, "Unicode");
    let (annotations, _) = parse_annotations(raw.children);
    Ok(Term { name, type_ref, is_collection, base_term, default_value, applies_to, nullable, max_length, precision, scale, srid, unicode, annotations })
}

pub fn parse_parameter(raw: RawElement) -> (r: Result<Parameter, ReadError>)
    ensures
        match facets_fail(raw) {
            None => r matches Ok(x) && parameter_read(raw, x),
            Some(m) => r matches Err(e) && csdl_message(e) == Some(m),
        },
{
    let (type_ref, is_collection) = raw_type_attr(&raw, "Type");
    let name = raw_attr_or_empty(&raw, "Name");
    let nullable = raw_attr_bool(&raw, "Nullable");
    let (max_length, scale, srid) = match facets_of(&raw) {
        Ok(t) => t,
        Err(e) => {
            return Err(e);
        },
    };
    let precision = raw_attr(&raw, "Precision");
    let unicode = raw_attr_bool(&raw, "Unicode");
    let default_value = raw_attr(&raw, "DefaultValue");
    let (annotations, _) = parse_annotations(raw.children);
    Ok(Parameter { name, type_ref, is_collection, nullable, max_length, precision, scale, srid, unicode, default_value, annotations })
}

/// Reads parameter elements in order, stopping at the first failure.
fn parse_parameters(raws: Vec<RawElement>) -> (r: Result<Vec<Parameter>, ReadError>)
    ensures
        match seq_fail(raws@, facets_fail_fn()) {
            None => r matches Ok(v) && parameters_of(raws@, v@),
            Some(m) => r matches Err(e) && csdl_message(e) == Some(m),
        },
{
    let ghost h = raws@;
    let mut rest = raws;
    let mut out: Vec<Parameter> = Vec::new();
    let n = rest.len();
    let mut j: usize = 0;
    assert(h.take(0) =~= Seq::<RawElement>::empty());
    while j < n
        invariant
            j <= n == h.len(),
            h == raws@,
            rest@ == h.skip(j as int),
            out@.len() == j,
            forall|i: int| 0 <= i < j ==> #[trigger] parameter_read(h[i], out@[i]),
            seq_fail(h.take(j as int), facets_fail_fn()) is None,
        decreases n - j,
    {
        proof {
            assert(rest@[0] == h[j as int]);
            assert(h.take(j + 1).drop_last() =~= h.take(j as int));
            assert(h.take(j + 1).last() == h[j as int]);
        }
        let x = rest.remove(0);
        proof {
            assert(rest@ =~= h.skip(j + 1));
        }
        match parse_parameter(x) {
            Ok(y) => {
                out.push(y);
            },
            Err(e) => {
                proof {
                    lemma_seq_fail_prefix(h, facets_fail_fn(), (j + 1) as nat);
                }
                return Err(e);
            },
        }
        j = j + 1;
    }
    proof {
        assert(h.take(n as int) =~= h);
    }
    Ok(out)
}

pub fn parse_return_type(raw: RawElement) -> (r: Result<ReturnType, ReadError>)
    ensures
        match facets_fail(raw) {
            None => r matches Ok(x) && return_type_read(raw, x),
            Some(m) => r matches Err(e) && csdl_message(e) == Some(m),
        },
{
    let (type_ref, is_collection) = raw_type_attr(&raw, "Type");
    let nullable = raw_attr_bool(&raw, "Nullable");
    let (max_length, scale, srid) = match facets_of(&raw) {
        Ok(t) => t,
        Err(e) => {
            return Err(e);
        },
    };
    let precision = raw_attr(&raw, "Precision");
    let unicode = raw_attr_bool(&raw, "Unicode");
    let (annotations, _) = parse_annotations(raw.children);
    Ok(ReturnType { type_ref, is_collection, nullable, max_length, precision, scale, srid, unicode, annotations })
}

/// The parameters, the return type and the annotations of a function or
/// action.
fn parse_signature(children: Vec<RawElement>) -> (r: Result<(Vec<Parameter>, Option<ReturnType>, Vec<Annotation>), ReadError>)
    ensures
        ({
            let raw_fail = or_else(
                seq_fail(named(children@, "Parameter"@), facets_fail_fn()),
                match first_named(children@, "ReturnType"@) {
                    Some(rt) => facets_fail(rt),
                    None => None,
                },
            );
            match raw_fail {
                None => r matches Ok(t) && parameters_of(named(children@, "Parameter"@), t.0@) && match first_named(
                    children@,
                    "ReturnType"@,
                ) {
                    Some(rt) => t.1 matches Some(x) && return_type_read(rt, x),
                    None => t.1 is None,
                } && annotations_read(children@, t.2@),
                Some(m) => r matches Err(e) && csdl_message(e) == Some(m),
            }
        }),
{
    let ghost ch = children@;
    let (ps, rest) = take_named(children, "Parameter");
    let (rt, rest) = take_first(rest, "ReturnType");
    proof {
        lemma_callable_names();
        lemma_named_skips(ch, "Parameter"@, "ReturnType"@);
        lemma_named_skips(ch, "Parameter"@, "Annotation"@);
        lemma_named_skips(not_named(ch, "Parameter"@), "ReturnType"@, "Annotation"@);
    }
    let parameters = match parse_parameters(ps) {
        Ok(v) => v,
        Err(e) => {
            return Err(e);
        },
    };
    let return_type = match rt {
        None => None,
        Some(x) => match parse_return_type(x) {
            Ok(v) => Some(v),
            Err(e) => {
                return Err(e);
            },
        },
    };
    let (annotations, _) = parse_annotations(rest);
    Ok((parameters, return_type, annotations))
}

pub fn parse_function(raw: RawElement) -> (r: Result<Function, ReadError>)
    ensures
        match callable_fail(raw) {
            None => r matches Ok(x) && function_read(raw, x),
            Some(m) => r matches Err(e) && csdl_message(e) == Some(m),
        },
{
    let name = raw_attr_or_empty(&raw, "Name");
    let is_bound = raw_attr_bool(&raw, "IsBound");
    let is_composable = raw_attr_bool(&raw, "IsComposable");
    let entity_set_path = raw_attr(&raw, "EntitySetPath");
    match parse_signature(raw.children) {
        Ok((parameters, return_type, annotations)) => Ok(
            Function { name, is_bound, is_composable, entity_set_path, parameters, return_type, annotations },
        ),
        Err(e) => Err(e),
    }
}

pub fn parse_action(raw: RawElement) -> (r: Result<Action, ReadError>)
    ensures
        match callable_fail(raw) {
            None => r matches Ok(x) && action_read(raw, x),
            Some(m) => r matches Err(e) && csdl_message(e) == Some(m),
        },
{
    let name = raw_attr_or_empty(&raw, "Name");
    let is_bound = raw_attr_bool(&raw, "IsBound");
    let entity_set_path = raw_attr(&raw, "EntitySetPath");
    match parse_signature(raw.children) {
        Ok((parameters, return_type, annotations)) => Ok(
            Action { name, is_bound, entity_set_path, parameters, return_type, annotations },
        ),
        Err(e) => Err(e),
    }
}

fn parse_binding(raw: RawElement) -> (r: NavigationPropertyBinding)
    ensures
        binding_read(raw, r),
{
    NavigationPropertyBinding { path: raw_attr_or_empty(&raw, "Path"), target: raw_attr_or_empty(&raw, "Target") }
}

/// Reads binding elements in order.
fn parse_bindings(raws: Vec<RawElement>) -> (r: Vec<NavigationPropertyBinding>)
    ensures
        bindings_of(raws@, r@),
{
    let ghost h = raws@;
    let mut rest = raws;
    let mut out: Vec<NavigationPropertyBinding> = Vec::new();
    let n = rest.len();
    let mut j: usize = 0;
    while j < n
        invariant
            j <= n == h.len(),
            h == raws@,
            rest@ == h.skip(j as int),
            out@.len() == j,
            forall|i: int| 0 <= i < j ==> #[trigger] binding_read(h[i], out@[i]),
        decreases n - j,
    {
        proof {
            assert(rest@[0] == h[j as int]);
        }
        let x = rest.remove(0);
        proof {
            assert(rest@ =~= h.skip(j + 1));
        }
        let y = parse_binding(x);
        out.push(y);
        j = j + 1;
    }
    out
}

/// The bindings and the annotations of an entity set or singleton.
fn parse_bound_children(children: Vec<RawElement>) -> (r: (Vec<NavigationPropertyBinding>, Vec<Annotation>))
    ensures
        bindings_of(named(children@, "NavigationPropertyBinding"@), r.0@),
        annotations_read(children@, r.1@),
{
    let ghost ch = children@;
    let (bs, rest) = take_named(children, "NavigationPropertyBinding");
    let bindings = parse_bindings(bs);
    let (annotations, _) = parse_annotations(rest);
    proof {
        lemma_binding_names();
        lemma_named_skips(ch, "NavigationPropertyBinding"@, "Annotation"@);
    }
    (bindings, annotations)
}

fn parse_entity_set(raw: RawElement) -> (r: EntitySet)
    ensures
        entity_set_read(raw, r),
{
    let name = raw_attr_or_empty(&raw, "Name");
    let entity_type = raw_attr(&raw, "EntityType");
    let include_in_service_document = raw_attr_bool(&raw, "IncludeInServiceDocument");
    let (navigation_property_bindings, annotations) = parse_bound_children(raw.children);
    EntitySet { name, entity_type, include_in_service_document, navigation_property_bindings, annotations }
}

/// Reads entity set elements in order.
fn parse_entity_sets(raws: Vec<RawElement>) -> (r: Vec<EntitySet>)
    ensures
        entity_sets_of(raws@, r@),
{
    let ghost h = raws@;
    let mut rest = raws;
    let mut out: Vec<EntitySet> = Vec::new();
    let n = rest.len();
    let mut j: usize = 0;
    while j < n
        invariant
            j <= n == h.len(),
            h == raws@,
            rest@ == h.skip(j as int),
            out@.len() == j,
            forall|i: int| 0 <= i < j ==> #[trigger] entity_set_read(h[i], out@[i]),
        decreases n - j,
    {
        proof {
            assert(rest@[0] == h[j as int]);
        }
        let x = rest.remove(0);
        proof {
            assert(rest@ =~= h.skip(j + 1));
        }
        let y = parse_entity_set(x);
        out.push(y);
        j = j + 1;
    }
    out
}

fn parse_singleton(raw: RawElement) -> (r: Singleton)
    ensures
        singleton_read(raw, r),
{
    let name = raw_attr_or_empty(&raw, "Name");
    let type_ref = raw_attr(&raw, "Type");
    let include_in_service_document = raw_attr_bool(&raw, "IncludeInServiceDocument");
    let (navigation_property_bindings, annotations) = parse_bound_children(raw.children);
    Singleton { name, type_ref, include_in_service_document, navigation_property_bindings, annotations }
}

/// Reads singleton elements in order.
fn parse_singletons(raws: Vec<RawElement>) -> (r: Vec<Singleton>)
    ensures
        singletons_of(raws@, r@),
{
    let ghost h = raws@;
    let mut rest = raws;
    let mut out: Vec<Singleton> = Vec::new();
    let n = rest.len();
    let mut j: usize = 0;
    while j < n
        invariant
            j <= n == h.len(),
            h == raws@,
            rest@ == h.skip(j as int),
            out@.len() == j,
            forall|i: int| 0 <= i < j ==> #[trigger] singleton_read(h[i], out@[i]),
        decreases n - j,
    {
        proof {
            assert(rest@[0] == h[j as int]);
        }
        let x = rest.remove(0);
        proof {
            assert(rest@ =~= h.skip(j + 1));
        }
        let y = parse_singleton(x);
        out.push(y);
        j = j + 1;
    }
    out
}

fn parse_function_import(raw: RawElement) -> (r: FunctionImport)
    ensures
        function_import_read(raw, r),
{
    let name = raw_attr_or_empty(&raw, "Name");
    let entity_set = raw_attr(&raw, "EntitySet");
    let function = raw_attr(&raw, "Function");
    let include_in_service_document = raw_attr_bool(&raw, "IncludeInServiceDocument");
    let (annotations, _) = parse_annotations(raw.children);
    FunctionImport { name, entity_set, function, include_in_service_document, annotations }
}

/// Reads function import elements in order.
fn parse_function_imports(raws: Vec<RawElement>) -> (r: Vec<FunctionImport>)
    ensures
        function_imports_of(raws@, r@),
{
    let ghost h = raws@;
    let mut rest = raws;
    let mut out: Vec<FunctionImport> = Vec::new();
    let n = rest.len();
    let mut j: usize = 0;
    while j < n
        invariant
            j <= n == h.len(),
            h == raws@,
            rest@ == h.skip(j as int),
            out@.len() == j,
            forall|i: int| 0 <= i < j ==> #[trigger] function_import_read(h[i], out@[i]),
        decreases n - j,
    {
        proof {
            assert(rest@[0] == h[j as int]);
        }
        let x = rest.remove(0);
        proof {
            assert(rest@ =~= h.skip(j + 1));
        }
        let y = parse_function_import(x);
        out.push(y);
        j = j + 1;
    }
    out
}

fn parse_action_import(raw: RawElement) -> (r: ActionImport)
    ensures
        action_import_read(raw, r),
{
    let name = raw_attr_or_empty(&raw, "Name");
    let action = raw_attr(&raw, "Action");
    let entity_set = raw_attr(&raw, "EntitySet");
    let include_in_service_document = raw_attr_bool(&raw, "IncludeInServiceDocument");
    let (annotations, _) = parse_annotations(raw.children);
    ActionImport { name, action, entity_set, include_in_service_document, annotations }
}

/// Reads action import elements in order.
fn parse_action_imports(raws: Vec<RawElement>) -> (r: Vec<ActionImport>)
    ensures
        action_imports_of(raws@, r@),
{
    let ghost h = raws@;
    let mut rest = raws;
    let mut out: Vec<ActionImport> = Vec::new();
    let n = rest.len();
    let mut j: usize = 0;
    while j < n
        invariant
            j <= n == h.len(),
            h == raws@,
            rest@ == h.skip(j as int),
            out@.len() == j,
            forall|i: int| 0 <= i < j ==> #[trigger] action_import_read(h[i], out@[i]),
        decreases n - j,
    {
        proof {
            assert(rest@[0] == h[j as int]);
        }
        let x = rest.remove(0);
        proof {
            assert(rest@ =~= h.skip(j + 1));
        }
        let y = parse_action_import(x);
        out.push(y);
        j = j + 1;
    }
    out
}

pub fn parse_entity_container(raw: RawElement) -> (r: EntityContainer)
    ensures
        entity_container_read(raw, r),
{
    let ghost ch = raw.children@;
    let name = raw_attr_or_empty(&raw, "Name");
    let extends = raw_attr(&raw, "Extends");
    let (sets, rest) = take_named(raw.children, "EntitySet");
    let (sgs, rest) = take_named(rest, "Singleton");
    let (fis, rest) = take_named(rest, "FunctionImport");
    let (ais, rest) = take_named(rest, "ActionImport");
    proof {
        lemma_container_names();
        let c1 = not_named(ch, "EntitySet"@);
        let c2 = not_named(c1, "Singleton"@);
        let c3 = not_named(c2, "FunctionImport"@);
        lemma_named_skips(ch, "EntitySet"@, "Singleton"@);
        lemma_named_skips(ch, "EntitySet"@, "FunctionImport"@);
        lemma_named_skips(c1, "Singleton"@, "FunctionImport"@);
        lemma_named_skips(ch, "EntitySet"@, "ActionImport"@);
        lemma_named_skips(c1, "Singleton"@, "ActionImport"@);
        lemma_named_skips(c2, "FunctionImport"@, "ActionImport"@);
        lemma_named_skips(ch, "EntitySet"@, "Annotation"@);
        lemma_named_skips(c1, "Singleton"@, "Annotation"@);
        lemma_named_skips(c2, "FunctionImport"@, "Annotation"@);
        lemma_named_skips(c3, "ActionImport"@, "Annotation"@);
    }
    let entity_sets = parse_entity_sets(sets);
    let singletons = parse_singletons(sgs);
    let function_imports = parse_function_imports(fis);
    let action_imports = parse_action_imports(ais);
    let (annotations, _) = parse_annotations(rest);
    EntityContainer { name, extends, entity_sets, singletons, function_imports, action_imports, annotations }
}

/// Reading the first `n` children and then the next one.
proof fn lemma_element_raws_step(ch: Seq<RawElement>, k: int)
    requires
        0 <= k < ch.len(),
    ensures
        element_raws(ch.take(k + 1)) == if is_element_name(ch[k].name@) {
            element_raws(ch.take(k)).push(ch[k])
        } else {
            element_raws(ch.take(k))
        },
        named(ch.take(k + 1), "Annotation"@) == if ch[k].name@ == "Annotation"@ {
            named(ch.take(k), "Annotation"@).push(ch[k])
        } else {
            named(ch.take(k), "Annotation"@)
        },
        seq_fail(ch.take(k + 1), schema_child_fail_fn()) == or_else(
            seq_fail(ch.take(k), schema_child_fail_fn()),
            schema_child_fail(ch[k]),
        ),
{
    assert(ch.take(k + 1).drop_last() =~= ch.take(k));
    assert(ch.take(k + 1).last() == ch[k]);
}

pub fn parse_schema(raw: RawElement) -> (r: Result<Schema, ReadError>)
    ensures
        match schema_fail(raw) {
            None => r matches Ok(x) && schema_read(raw, x),
            Some(m) => r matches Err(e) && csdl_message(e) == Some(m),
        },
{
    let ghost ch = raw.children@;
    let namespace = raw_attr_or_empty(&raw, "Namespace");
    let alias = raw_attr(&raw, "Alias");
    let mut elements: Vec<SchemaElement> = Vec::new();
    let mut annotation_children: Vec<RawElement> = Vec::new();
    let mut children = raw.children;
    let total = children.len();
    let mut k: usize = 0;
    proof {
        lemma_schema_names();
        assert(ch.take(0) =~= Seq::<RawElement>::empty());
    }
    while k < total
        invariant
            k <= total == ch.len(),
            ch == raw.children@,
            children@ == ch.skip(k as int),
            elements_of(element_raws(ch.take(k as int)), elements@),
            annotation_children@ == named(ch.take(k as int), "Annotation"@),
            seq_fail(ch.take(k as int), schema_child_fail_fn()) is None,
        decreases total - k,
    {
        proof {
            assert(children@[0] == ch[k as int]);
            lemma_element_raws_step(ch, k as int);
            lemma_schema_names();
        }
        let child = children.remove(0);
        proof {
            assert(children@ =~= ch.skip(k + 1));
        }
        let ghost c = child;
        let ghost before = elements@;
        if str_eq(child.name.as_str(), "EntityType") {
            match parse_entity_type(child) {
                Ok(x) => elements.push(SchemaElement::EntityType(x)),
                Err(e) => {
                    proof {
                        lemma_seq_fail_prefix(ch, schema_child_fail_fn(), (k + 1) as nat);
                    }
                    return Err(e);
                },
            }
        } else if str_eq(child.name.as_str(), "ComplexType") {
            match parse_complex_type(child) {
                Ok(x) => elements.push(SchemaElement::ComplexType(x)),
                Err(e) => {
                    proof {
                        lemma_seq_fail_prefix(ch, schema_child_fail_fn(), (k + 1) as nat);
                    }
                    return Err(e);
                },
            }
        } else if str_eq(child.name.as_str(), "EnumType") {
            elements.push(SchemaElement::EnumType(parse_enum_type(child)));
        } else if str_eq(child.name.as_str(), "TypeDefinition") {
            match parse_type_definition(child) {
                Ok(x) => elements.push(SchemaElement::TypeDefinition(x)),
                Err(e) => {
                    proof {
                        lemma_seq_fail_prefix(ch, schema_child_fail_fn(), (k + 1) as nat);
                    }
                    return Err(e);
                },
            }
        } else if str_eq(child.name.as_str(), "Term") {
            match parse_term(child) {
                Ok(x) => elements.push(SchemaElement::Term(x)),
                Err(e) => {
                    proof {
                        lemma_seq_fail_prefix(ch, schema_child_fail_fn(), (k + 1) as nat);
                    }
                    return Err(e);
                },
            }
        } else if str_eq(child.name.as_str(), "Function") {
            match parse_function(child) {
                Ok(x) => elements.push(SchemaElement::Function(x)),
                Err(e) => {
                    proof {
                        lemma_seq_fail_prefix(ch, schema_child_fail_fn(), (k + 1) as nat);
                    }
                    return Err(e);
                },
            }
        } else if str_eq(child.name.as_str(), "Action") {
            match parse_action(child) {
                Ok(x) => elements.push(SchemaElement::Action(x)),
                Err(e) => {
                    proof {
                        lemma_seq_fail_prefix(ch, schema_child_fail_fn(), (k + 1) as nat);
                    }
                    return Err(e);
                },
            }
        } else if str_eq(child.name.as_str(), "EntityContainer") {
            elements.push(SchemaElement::EntityContainer(parse_entity_container(child)));
        } else if str_eq(child.name.as_str(), "Annotation") {
            annotation_children.push(child);
        }
        proof {
            assert(elements_of(element_raws(ch.take(k + 1)), elements@)) by {
                if is_element_name(c.name@) {
                    assert(elements@.len() == before.len() + 1);
                    assert(element_read(c, elements@[before.len() as int]));
                    assert forall|i: int| 0 <= i < elements@.len() implies #[trigger] element_read(
                        element_raws(ch.take(k + 1))[i],
                        elements@[i],
                    ) by {
                        if i < before.len() {
                            assert(elements@[i] == before[i]);
                        }
                    }
                }
            }
        }
        k = k + 1;
    }
    proof {
        assert(ch.take(k as int) =~= ch);
        lemma_named_twice(ch, "Annotation"@);
    }
    let (annotations, _) = parse_annotations(annotation_children);
    Ok(Schema { namespace, alias, elements, annotations })
}

/// Reads schema elements in order, stopping at the first failure.
fn parse_schemas(raws: Vec<RawElement>) -> (r: Result<Vec<Schema>, ReadError>)
    ensures
        match seq_fail(raws@, schema_fail_fn()) {
            None => r matches Ok(v) && schemas_of(raws@, v@),
            Some(m) => r matches Err(e) && csdl_message(e) == Some(m),
        },
{
    let ghost h = raws@;
    let mut rest = raws;
    let mut out: Vec<Schema> = Vec::new();
    let n = rest.len();
    let mut j: usize = 0;
    assert(h.take(0) =~= Seq::<RawElement>::empty());
    while j < n
        invariant
            j <= n == h.len(),
            h == raws@,
            rest@ == h.skip(j as int),
            out@.len() == j,
            forall|i: int| 0 <= i < j ==> #[trigger] schema_read(h[i], out@[i]),
            seq_fail(h.take(j as int), schema_fail_fn()) is None,
        decreases n - j,
    {
        proof {
            assert(rest@[0] == h[j as int]);
            assert(h.take(j + 1).drop_last() =~= h.take(j as int));
            assert(h.take(j + 1).last() == h[j as int]);
        }
        let x = rest.remove(0);
        proof {
            assert(rest@ =~= h.skip(j + 1));
        }
        match parse_schema(x) {
            Ok(y) => {
                out.push(y);
            },
            Err(e) => {
                proof {
                    lemma_seq_fail_prefix(h, schema_fail_fn(), (j + 1) as nat);
                }
                return Err(e);
            },
        }
        j = j + 1;
    }
    proof {
        assert(h.take(n as int) =~= h);
    }
    Ok(out)
}

pub fn parse_include_annotations(raw: RawElement) -> (r: IncludeAnnotations)
    ensures
        include_annotations_read(raw, r),
{
    IncludeAnnotations {
        term_namespace: raw_attr_or_empty(&raw, "TermNamespace"),
        qualifier: raw_attr(&raw, "Qualifier"),
        target_namespace: raw_attr(&raw, "TargetNamespace"),
    }
}

/// Reads `IncludeAnnotations` elements in order.
fn parse_include_annotations_list(raws: Vec<RawElement>) -> (r: Vec<IncludeAnnotations>)
    ensures
        include_annotations_of(raws@, r@),
{
    let ghost h = raws@;
    let mut rest = raws;
    let mut out: Vec<IncludeAnnotations> = Vec::new();
    let n = rest.len();
    let mut j: usize = 0;
    while j < n
        invariant
            j <= n == h.len(),
            h == raws@,
            rest@ == h.skip(j as int),
            out@.len() == j,
            forall|i: int| 0 <= i < j ==> #[trigger] include_annotations_read(h[i], out@[i]),
        decreases n - j,
    {
        proof {
            assert(rest@[0] == h[j as int]);
        }
        let x = rest.remove(0);
        proof {
            assert(rest@ =~= h.skip(j + 1));
        }
        let y = parse_include_annotations(x);
        out.push(y);
        j = j + 1;
    }
    out
}

pub fn parse_include(raw: RawElement) -> (r: Include)
    ensures
        include_read(raw, r),
{
    let namespace = raw_attr_or_empty(&raw, "Namespace");
    let alias = raw_attr(&raw, "Alias");
    let (annotations, _) = parse_annotations(raw.children);
    Include { namespace, alias, annotations }
}

/// Reads include elements in order.
fn parse_includes(raws: Vec<RawElement>) -> (r: Vec<Include>)
    ensures
        includes_of(raws@, r@),
{
    let ghost h = raws@;
    let mut rest = raws;
    let mut out: Vec<Include> = Vec::new();
    let n = rest.len();
    let mut j: usize = 0;
    while j < n
        invariant
            j <= n == h.len(),
            h == raws@,
            rest@ == h.skip(j as int),
            out@.len() == j,
            forall|i: int| 0 <= i < j ==> #[trigger] include_read(h[i], out@[i]),
        decreases n - j,
    {
        proof {
            assert(rest@[0] == h[j as int]);
        }
        let x = rest.remove(0);
        proof {
            assert(rest@ =~= h.skip(j + 1));
        }
        let y = parse_include(x);
        out.push(y);
        j = j + 1;
    }
    out
}

pub fn parse_reference(raw: RawElement) -> (r: Reference)
    ensures
        reference_read(raw, r),
{
    let ghost ch = raw.children@;
    let uri = raw_attr_or_empty(&raw, "Uri");
    let (incs, rest) = take_named(raw.children, "Include");
    let includes = parse_includes(incs);
    let (ias, _) = take_named(rest, "IncludeAnnotations");
    let include_annotations = parse_include_annotations_list(ias);
    proof {
        lemma_reference_names();
        lemma_named_skips(ch, "Include"@, "IncludeAnnotations"@);
    }
    Reference { uri, includes, include_annotations }
}

/// The first failure of a concatenation.
proof fn lemma_seq_fail_concat(a: Seq<RawElement>, b: Seq<RawElement>, f: spec_fn(RawElement) -> Option<Seq<char>>)
    ensures
        seq_fail(a + b, f) == or_else(seq_fail(a, f), seq_fail(b, f)),
    decreases b.len(),
{
    if b.len() == 0 {
        assert(a + b =~= a);
    } else {
        lemma_seq_fail_concat(a, b.drop_last(), f);
        assert((a + b).drop_last() =~= a + b.drop_last());
        assert((a + b).last() == b.last());
    }
}

/// The schemas of a concatenation of children.
proof fn lemma_edmx_schema_raws_concat(a: Seq<RawElement>, b: Seq<RawElement>)
    ensures
        edmx_schema_raws(a + b) == edmx_schema_raws(a) + edmx_schema_raws(b),
    decreases b.len(),
{
    if b.len() == 0 {
        assert(a + b =~= a);
        assert(edmx_schema_raws(a) + edmx_schema_raws(b) =~= edmx_schema_raws(a));
    } else {
        lemma_edmx_schema_raws_concat(a, b.drop_last());
        assert((a + b).drop_last() =~= a + b.drop_last());
        assert((a + b).last() == b.last());
        let t = if b.last().name@ == "DataServices"@ {
            named(b.last().children@, "Schema"@)
        } else if b.last().name@ == "Schema"@ {
            seq![b.last()]
        } else {
            Seq::empty()
        };
        assert(edmx_schema_raws(a) + edmx_schema_raws(b.drop_last()) + t =~= edmx_schema_raws(a) + (
        edmx_schema_raws(b.drop_last()) + t));
    }
}

/// Schemas read pointwise, concatenated.
proof fn lemma_schemas_of_concat(r1: Seq<RawElement>, v1: Seq<Schema>, r2: Seq<RawElement>, v2: Seq<Schema>)
    requires
        schemas_of(r1, v1),
        schemas_of(r2, v2),
    ensures
        schemas_of(r1 + r2, v1 + v2),
{
    assert forall|i: int| 0 <= i < (v1 + v2).len() implies #[trigger] schema_read((r1 + r2)[i], (v1 + v2)[i]) by {
        if i >= v1.len() {
            assert(schema_read(r2[i - v1.len()], v2[i - v1.len()]));
        } else {
            assert(schema_read(r1[i], v1[i]));
        }
    }
}

pub fn parse_edmx(raw: RawElement) -> (r: Result<Edmx, ReadError>)
    ensures
        match edmx_fail(raw) {
            None => r matches Ok(x) && edmx_read(raw, x),
            Some(m) => r matches Err(e) && csdl_message(e) == Some(m),
        },
{
    let ghost ch = raw.children@;
    let version = raw_attr(&raw, "Version");
    let mut references: Vec<Reference> = Vec::new();
    let mut schemas: Vec<Schema> = Vec::new();
    let mut children = raw.children;
    let total = children.len();
    let mut k: usize = 0;
    proof {
        assert(ch.take(0) =~= Seq::<RawElement>::empty());
    }
    while k < total
        invariant
            k <= total == ch.len(),
            ch == raw.children@,
            children@ == ch.skip(k as int),
            references_of(named(ch.take(k as int), "Reference"@), references@),
            schemas_of(edmx_schema_raws(ch.take(k as int)), schemas@),
            seq_fail(edmx_schema_raws(ch.take(k as int)), schema_fail_fn()) is None,
        decreases total - k,
    {
        proof {
            lemma_edmx_names();
            assert(children@[0] == ch[k as int]);
            assert(ch.take(k + 1).drop_last() =~= ch.take(k as int));
            assert(ch.take(k + 1).last() == ch[k as int]);
            assert(ch =~= ch.take(k + 1) + ch.skip(k + 1));
            lemma_edmx_schema_raws_concat(ch.take(k + 1), ch.skip(k + 1));
        }
        let child = children.remove(0);
        proof {
            assert(children@ =~= ch.skip(k + 1));
        }
        let ghost c = child;
        let ghost before = schemas@;
        let ghost done = edmx_schema_raws(ch.take(k as int));
        if str_eq(child.name.as_str(), "Reference") {
            references.push(parse_reference(child));
            proof {
                assert(edmx_schema_raws(ch.take(k + 1)) =~= done);
            }
        } else if str_eq(child.name.as_str(), "DataServices") {
            let (inner, _) = take_named(child.children, "Schema");
            let ghost h = inner@;
            proof {
                assert(edmx_schema_raws(ch.take(k + 1)) == done + h);
                lemma_seq_fail_concat(done, h, schema_fail_fn());
            }
            match parse_schemas(inner) {
                Ok(v) => {
                    let mut v = v;
                    proof {
                        lemma_schemas_of_concat(done, before, h, v@);
                    }
                    schemas.append(&mut v);
                },
                Err(e) => {
                    proof {
                        lemma_seq_fail_concat(edmx_schema_raws(ch.take(k + 1)), edmx_schema_raws(ch.skip(k + 1)), schema_fail_fn());
                    }
                    return Err(e);
                },
            }
        } else if str_eq(child.name.as_str(), "Schema") {
            proof {
                assert(edmx_schema_raws(ch.take(k + 1)) == done + seq![c]);
                lemma_seq_fail_concat(done, seq![c], schema_fail_fn());
                assert(seq![c].drop_last() =~= Seq::<RawElement>::empty());
                assert(seq_fail(Seq::<RawElement>::empty(), schema_fail_fn()) is None);
                assert(seq![c].last() == c);
                assert(seq_fail(seq![c], schema_fail_fn()) == schema_fail(c));
            }
            match parse_schema(child) {
                Ok(x) => {
                    proof {
                        lemma_schemas_of_concat(done, before, seq![c], seq![x]);
                    }
                    schemas.push(x);
                    proof {
                        assert(before + seq![x] =~= schemas@);
                    }
                },
                Err(e) => {
                    proof {
                        lemma_seq_fail_concat(edmx_schema_raws(ch.take(k + 1)), edmx_schema_raws(ch.skip(k + 1)), schema_fail_fn());
                    }
                    return Err(e);
                },
            }
        } else {
            proof {
                assert(edmx_schema_raws(ch.take(k + 1)) =~= done);
            }
        }
        k = k + 1;
    }
    proof {
        assert(ch.take(k as int) =~= ch);
    }
    Ok(Edmx { version, references, schemas })
}

} // verus!
