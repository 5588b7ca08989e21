//! The XML form of CSDL read into a stream of syntax units.
//!
//! The XML itself is tokenized by `quick-xml`; this module turns its events
//! into [`SyntaxUnit`]s, folding CSDL's two spellings of an annotation
//! expression (an inline attribute or nested elements) into one, and giving
//! every element a start and an end unit.

use vstd::prelude::*;

use quick_xml::events::attributes::AttrError;
use self::XmlToken::{CData, Comment, Empty, End, Eof, Other, Start, Text};
use quick_xml::events::{BytesStart, Event};

use crate::csdl::Annotation;
use crate::error::{csdl_message, ReadError};
use crate::expr::opt_chars;
use crate::expr::{
    annotation_view, annotation_views, expr_view, expr_views, lemma_annotation_views_push, lemma_expr_views,
    lemma_expr_views_push, lemma_property_value_views_push, property_value_view, property_value_views,
    AnnotationView, BinaryOperator, CsdlAnnotationExpression, ExprView, PropertyValue, PropertyValueView,
};
use crate::text::{concat, concat3, decimal, owned, parse_i64, spec_parse_i64, str_eq, to_decimal};

verus! {

/// Token stream of a CSDL document. An element's start and end are always
/// two units, also for a self-closing element; the annotation expressions of
/// an `Annotation` element come as units of their own between them, and its
/// inline expression attribute is removed from its attributes.
#[derive(Debug, PartialEq)]
pub enum SyntaxUnit {
    StartElement { name: String, attributes: Vec<(String, String)> },
    EndElement { name: String },
    AnnotationExpression(CsdlAnnotationExpression),
}

/// A [`SyntaxUnit`] as a mathematical value.
pub enum UnitView {
    Start { name: Seq<char>, attributes: Seq<(Seq<char>, Seq<char>)> },
    End { name: Seq<char> },
    Expression(crate::expr::ExprView),
}

/// The character sequences of attribute pairs.
pub open spec fn attr_views(a: Seq<(String, String)>) -> Seq<(Seq<char>, Seq<char>)> {
    a.map_values(|p: (String, String)| (p.0@, p.1@))
}

pub open spec fn unit_view(u: SyntaxUnit) -> UnitView {
    match u {
        SyntaxUnit::StartElement { name, attributes } => UnitView::Start {
            name: name@,
            attributes: attr_views(attributes@),
        },
        SyntaxUnit::EndElement { name } => UnitView::End { name: name@ },
        SyntaxUnit::AnnotationExpression(e) => UnitView::Expression(crate::expr::expr_view(e)),
    }
}

pub open spec fn unit_views(s: Seq<SyntaxUnit>) -> Seq<UnitView> {
    s.map_values(|u: SyntaxUnit| unit_view(u))
}

/// 1-based line and column just past the most recently read XML event;
/// the column counts bytes within its line.
#[derive(Debug, Clone, Copy, PartialEq, Eq)]
pub struct Location {
    pub line: u32,
    pub column: u32,
}

/// One XML event as plain values: qualified names and raw attribute values
/// as bytes, text as its raw (escaped) bytes, and the location just past the
/// event.
pub struct XmlEvent {
    pub kind: XmlEventKind,
    pub location: Location,
}

pub enum XmlEventKind {
    Start { name: Vec<u8>, attributes: Vec<(Vec<u8>, Vec<u8>)> },
    Empty { name: Vec<u8>, attributes: Vec<(Vec<u8>, Vec<u8>)> },
    End { name: Vec<u8> },
    Text(Vec<u8>),
    CData(Vec<u8>),
    Comment,
    Eof,
    Other,
}

// ---------------------------------------------------------------------------
// quick-xml
// ---------------------------------------------------------------------------

#[verifier::external_type_specification]
#[verifier::external_body]
#[verifier::reject_recursive_types(R)]
pub struct ExReader<R>(quick_xml::Reader<R>);

#[verifier::external_type_specification]
#[verifier::external_body]
pub struct ExAttrError(quick_xml::events::attributes::AttrError);

/// One event as `quick-xml` reports it, as plain values: qualified names,
/// raw attribute values (or the attribute error) and raw text.
pub enum XmlToken {
    Start(Vec<u8>, Result<Vec<(Vec<u8>, Vec<u8>)>, AttrError>),
    Empty(Vec<u8>, Result<Vec<(Vec<u8>, Vec<u8>)>, AttrError>),
    End(Vec<u8>),
    Text(Vec<u8>),
    CData(Vec<u8>),
    Comment,
    Eof,
    Other,
}

/// The bytes of attribute pairs.
pub open spec fn byte_pairs(a: Seq<(Vec<u8>, Vec<u8>)>) -> Seq<(Seq<u8>, Seq<u8>)> {
    a.map_values(|p: (Vec<u8>, Vec<u8>)| (p.0@, p.1@))
}

/// An [`XmlToken`] as a mathematical value.
pub enum XmlTokenView {
    Start { name: Seq<u8>, attributes: Option<Seq<(Seq<u8>, Seq<u8>)>> },
    Empty { name: Seq<u8>, attributes: Option<Seq<(Seq<u8>, Seq<u8>)>> },
    End { name: Seq<u8> },
    Text(Seq<u8>),
    CData(Seq<u8>),
    Comment,
    Eof,
    Other,
}

/// The attributes of a start tag; `None` where one is malformed.
pub open spec fn attributes_view(a: Result<Vec<(Vec<u8>, Vec<u8>)>, AttrError>) -> Option<
    Seq<(Seq<u8>, Seq<u8>)>,
> {
    match a {
        Ok(v) => Some(byte_pairs(v@)),
        Err(_) => None,
    }
}

pub open spec fn token_view(t: XmlToken) -> XmlTokenView {
    match t {
        XmlToken::Start(name, attributes) => XmlTokenView::Start { name: name@, attributes: attributes_view(attributes) },
        XmlToken::Empty(name, attributes) => XmlTokenView::Empty { name: name@, attributes: attributes_view(attributes) },
        XmlToken::End(name) => XmlTokenView::End { name: name@ },
        XmlToken::Text(t) => XmlTokenView::Text(t@),
        XmlToken::CData(t) => XmlTokenView::CData(t@),
        XmlToken::Comment => XmlTokenView::Comment,
        XmlToken::Eof => XmlTokenView::Eof,
        XmlToken::Other => XmlTokenView::Other,
    }
}

/// What a reader has read: the bytes it was made over, and how many events
/// it has reported since.
pub uninterp spec fn reader_progress(r: quick_xml::Reader<&[u8]>) -> (Seq<u8>, nat);

/// The event `quick-xml` reports `k`-th (from 0) reading `input` with
/// `trim_text` set; `None` where it reports an error.
pub uninterp spec fn xml_token(input: Seq<u8>, k: nat) -> Option<XmlTokenView>;

/// `quick_xml::Reader::buffer_position` after `k` events of `input`.
pub uninterp spec fn xml_position(input: Seq<u8>, k: nat) -> u64;

/// `quick_xml::Reader::from_reader` over a byte slice, with
/// `Config::trim_text(true)` set: text events do not begin or end with
/// whitespace, and whitespace-only text produces no event. The reader has
/// read nothing yet.
#[verifier::external_body]
fn xml_reader<'a>(input: &'a [u8]) -> (r: quick_xml::Reader<&'a [u8]>)
    ensures
        reader_progress(r) == (input@, 0nat),
{
    let mut r = quick_xml::Reader::from_reader(input);
    r.config_mut().trim_text(true);
    r
}

/// `quick_xml::Reader::read_event`: the next event, as plain values, with
/// each start tag's attributes as `BytesStart::attributes` yields them (up
/// to the first attribute error). It is the event that the reader's input
/// gives at the reader's count, which goes one up.
#[verifier::external_body]
fn read_event<'a>(r: &mut quick_xml::Reader<&'a [u8]>) -> (t: Result<XmlToken, quick_xml::Error>)
    ensures
        reader_progress(*final(r)) == (reader_progress(*old(r)).0, reader_progress(*old(r)).1 + 1),
        match t {
            Ok(x) => xml_token(reader_progress(*old(r)).0, reader_progress(*old(r)).1) == Some(token_view(x)),
            Err(_) => xml_token(reader_progress(*old(r)).0, reader_progress(*old(r)).1) is None,
        },
{
    let attrs = |s: &BytesStart| s.attributes().map(|a| a.map(|a| (a.key.0.to_vec(), a.value.to_vec()))).collect();
    Ok(match r.read_event()? {
        Event::Start(s) => Start(s.name().0.to_vec(), attrs(&s)),
        Event::Empty(s) => Empty(s.name().0.to_vec(), attrs(&s)),
        Event::End(x) => End(x.name().0.to_vec()),
        Event::Text(t) => Text(t.to_vec()),
        Event::CData(t) => CData(t.to_vec()),
        Event::Comment(_) => Comment,
        Event::Eof => Eof,
        _ => Other,
    })
}

/// `quick_xml::Reader::buffer_position`: how many bytes of the input the
/// reader reports as consumed after the events it has read.
#[verifier::external_body]
fn consumed<'a>(r: &quick_xml::Reader<&'a [u8]>) -> (n: u64)
    ensures
        n == xml_position(reader_progress(*r).0, reader_progress(*r).1),
{
    r.buffer_position()
}

/// `core::str::from_utf8`: the text the bytes encode, when they are valid
/// UTF-8.
#[verifier::external_body]
fn utf8(bytes: &[u8]) -> (r: Result<String, core::str::Utf8Error>)
    ensures
        match r {
            Ok(s) => vstd::utf8::valid_utf8(bytes@) && s@ == vstd::utf8::decode_utf8(bytes@),
            Err(_) => !vstd::utf8::valid_utf8(bytes@),
        },
{
    match core::str::from_utf8(bytes) {
        Ok(s) => Ok(s.to_owned()),
        Err(e) => Err(e),
    }
}

/// The text of a UTF-8 error (`Display`).
#[verifier::external_body]
fn utf8_error_text(e: &core::str::Utf8Error) -> String {
    e.to_string()
}

/// What `quick_xml::escape::unescape` makes of a text: its entity and
/// character references replaced, or `None` where one is malformed.
pub uninterp spec fn xml_unescaped(s: Seq<char>) -> Option<Seq<char>>;

/// `quick_xml::escape::unescape`, with the text of its error.
#[verifier::external_body]
fn unescape(s: &str) -> (r: Result<String, String>)
    ensures
        match r {
            Ok(v) => xml_unescaped(s@) == Some(v@),
            Err(_) => xml_unescaped(s@) is None,
        },
{
    match quick_xml::escape::unescape(s) {
        Ok(v) => Ok(v.into_owned()),
        Err(e) => Err(e.to_string()),
    }
}

/// The location after reading `bytes` from `at`: a `\n` starts a new line,
/// every other byte moves one column on (counts stop at `u32::MAX`).
pub open spec fn advance(at: Location, bytes: Seq<u8>) -> Location
    decreases bytes.len(),
{
    if bytes.len() == 0 {
        at
    } else {
        let prev = advance(at, bytes.drop_last());
        if bytes.last() == 10u8 {
            Location {
                line: if prev.line < u32::MAX {
                    (prev.line + 1) as u32
                } else {
                    prev.line
                },
                column: 1,
            }
        } else {
            Location {
                line: prev.line,
                column: if prev.column < u32::MAX {
                    (prev.column + 1) as u32
                } else {
                    prev.column
                },
            }
        }
    }
}

fn advance_to(input: &[u8], from: usize, to: usize, at: Location) -> (r: Location)
    requires
        from <= to <= input@.len(),
    ensures
        r == advance(at, input@.subrange(from as int, to as int)),
{
    let mut loc = at;
    let mut i: usize = from;
    proof {
        assert(input@.subrange(from as int, from as int) =~= Seq::<u8>::empty());
    }
    while i < to
        invariant
            from <= i <= to <= input@.len(),
            loc == advance(at, input@.subrange(from as int, i as int)),
        decreases to - i,
    {
        proof {
            assert(input@.subrange(from as int, i + 1).drop_last() =~= input@.subrange(from as int, i as int));
            assert(input@.subrange(from as int, i + 1).last() == input@[i as int]);
        }
        if input[i] == 10u8 {
            loc = Location { line: if loc.line < u32::MAX { loc.line + 1 } else { loc.line }, column: 1 };
        } else {
            loc = Location { line: loc.line, column: if loc.column < u32::MAX { loc.column + 1 } else { loc.column } };
        }
        i = i + 1;
    }
    loc
}

/// Why reading the events fails: `quick-xml`'s own error, a malformed
/// attribute, or a reader that does not reach the end of the input.
pub enum XmlReadFail {
    Xml,
    Attribute,
    Unfinished,
}

/// The error an [`XmlReadFail`] is reported as.
pub open spec fn read_failure(e: ReadError, f: XmlReadFail) -> bool {
    match f {
        XmlReadFail::Xml => e is Xml,
        XmlReadFail::Attribute => e matches ReadError::Csdl(m) && "attribute parse error: "@.is_prefix_of(m@),
        XmlReadFail::Unfinished => csdl_message(e) == Some("the XML reader did not reach the end of the input"@),
    }
}

/// An [`XmlEventKind`] as a mathematical value.
pub enum XmlEventKindView {
    Start { name: Seq<u8>, attributes: Seq<(Seq<u8>, Seq<u8>)> },
    Empty { name: Seq<u8>, attributes: Seq<(Seq<u8>, Seq<u8>)> },
    End { name: Seq<u8> },
    Text(Seq<u8>),
    CData(Seq<u8>),
    Comment,
    Eof,
    Other,
}

/// An [`XmlEvent`] as a mathematical value.
pub struct XmlEventView {
    pub kind: XmlEventKindView,
    pub location: Location,
}

pub open spec fn event_view(e: XmlEvent) -> XmlEventView {
    XmlEventView {
        kind: match e.kind {
            XmlEventKind::Start { name, attributes } => XmlEventKindView::Start { name: name@, attributes: byte_pairs(attributes@) },
            XmlEventKind::Empty { name, attributes } => XmlEventKindView::Empty { name: name@, attributes: byte_pairs(attributes@) },
            XmlEventKind::End { name } => XmlEventKindView::End { name: name@ },
            XmlEventKind::Text(t) => XmlEventKindView::Text(t@),
            XmlEventKind::CData(t) => XmlEventKindView::CData(t@),
            XmlEventKind::Comment => XmlEventKindView::Comment,
            XmlEventKind::Eof => XmlEventKindView::Eof,
            XmlEventKind::Other => XmlEventKindView::Other,
        },
        location: e.location,
    }
}

pub open spec fn event_views(s: Seq<XmlEvent>) -> Seq<XmlEventView> {
    s.map_values(|e: XmlEvent| event_view(e))
}

/// The event kind of a token; an error where an attribute is malformed.
pub open spec fn token_kind(t: XmlTokenView) -> Result<XmlEventKindView, ()> {
    match t {
        XmlTokenView::Start { name, attributes } => match attributes {
            Some(a) => Ok(XmlEventKindView::Start { name, attributes: a }),
            None => Err(()),
        },
        XmlTokenView::Empty { name, attributes } => match attributes {
            Some(a) => Ok(XmlEventKindView::Empty { name, attributes: a }),
            None => Err(()),
        },
        XmlTokenView::End { name } => Ok(XmlEventKindView::End { name }),
        XmlTokenView::Text(t) => Ok(XmlEventKindView::Text(t)),
        XmlTokenView::CData(t) => Ok(XmlEventKindView::CData(t)),
        XmlTokenView::Comment => Ok(XmlEventKindView::Comment),
        XmlTokenView::Eof => Ok(XmlEventKindView::Eof),
        XmlTokenView::Other => Ok(XmlEventKindView::Other),
    }
}

/// A reported position, at most the input's length.
pub open spec fn clamp(pos: u64, len: nat) -> nat {
    if pos > len {
        len
    } else {
        pos as nat
    }
}

/// The events from the `k`-th on, each with the location just past it: the
/// input is read up to the reported position (which never moves back), and
/// at most `fuel` more events precede the end.
pub open spec fn events_from(input: Seq<u8>, k: nat, at: nat, loc: Location, fuel: nat) -> Result<
    Seq<XmlEventView>,
    XmlReadFail,
>
    decreases fuel,
{
    match xml_token(input, k) {
        None => Err(XmlReadFail::Xml),
        Some(t) => {
            let now = clamp(xml_position(input, k + 1), input.len());
            let loc2 = if now >= at && at <= input.len() {
                advance(loc, input.subrange(at as int, now as int))
            } else {
                loc
            };
            let at2 = if now >= at {
                now
            } else {
                at
            };
            match token_kind(t) {
                Err(_) => Err(XmlReadFail::Attribute),
                Ok(kind) => {
                    let e = XmlEventView { kind, location: loc2 };
                    if kind is Eof {
                        Ok(seq![e])
                    } else if fuel == 0 {
                        Err(XmlReadFail::Unfinished)
                    } else {
                        match events_from(input, k + 1, at2, loc2, (fuel - 1) as nat) {
                            Ok(rest) => Ok(seq![e] + rest),
                            Err(x) => Err(x),
                        }
                    }
                },
            }
        },
    }
}

/// The events of a document, up to and including its end. `quick-xml`
/// reports an event for at least every byte it consumes, so a document of
/// `n` bytes has at most `n + 1` events; reading stops there.
pub open spec fn xml_events(input: Seq<u8>) -> Result<Seq<XmlEventView>, XmlReadFail> {
    events_from(input, 0, 0, Location { line: 1, column: 1 }, input.len())
}

pub open spec fn after(done: Seq<XmlEventView>, r: Result<Seq<XmlEventView>, XmlReadFail>) -> Result<
    Seq<XmlEventView>,
    XmlReadFail,
> {
    match r {
        Ok(rest) => Ok(done + rest),
        Err(x) => Err(x),
    }
}

/// The text of an attribute error (`Display`).
#[verifier::external_body]
fn attr_error_text(e: &AttrError) -> String {
    e.to_string()
}

fn attribute_failure(e: &AttrError) -> (r: ReadError)
    ensures
        read_failure(r, XmlReadFail::Attribute),
{
    let text = concat("attribute parse error: ", attr_error_text(e).as_str());
    proof {
        assert(text@.subrange(0, "attribute parse error: "@.len() as int) =~= "attribute parse error: "@);
    }
    ReadError::Csdl(text)
}

/// The events of an XML document (see [`xml_events`]).
pub fn read_events(input: &[u8]) -> (r: Result<Vec<XmlEvent>, ReadError>)
    ensures
        match xml_events(input@) {
            Ok(evs) => r matches Ok(v) && event_views(v@) == evs,
            Err(f) => r matches Err(e) && read_failure(e, f),
        },
{
    let mut reader = xml_reader(input);
    let mut out: Vec<XmlEvent> = Vec::new();
    let mut loc = Location { line: 1, column: 1 };
    let mut at: usize = 0;
    let mut fuel: usize = input.len();
    proof {
        assert(event_views(out@) =~= Seq::<XmlEventView>::empty());
        assert(after(Seq::empty(), xml_events(input@)) == xml_events(input@)) by {
            match xml_events(input@) {
                Ok(s) => {
                    assert(Seq::<XmlEventView>::empty() + s =~= s);
                },
                Err(_) => {},
            }
        }
    }
    loop
        invariant
            at <= input@.len(),
            reader_progress(reader) == (input@, out@.len()),
            xml_events(input@) == after(event_views(out@), events_from(input@, out@.len(), at as nat, loc, fuel as nat)),
        decreases fuel,
    {
        let ghost k = out@.len();
        let ghost before = event_views(out@);
        let token = match read_event(&mut reader) {
            Ok(t) => t,
            Err(e) => {
                return Err(ReadError::Xml(e));
            },
        };
        let position = consumed(&reader);
        let now: usize = if position > input.len() as u64 {
            input.len()
        } else {
            position as usize
        };
        if now >= at {
            loc = advance_to(input, at, now, loc);
            at = now;
        }
        let kind = match token {
            XmlToken::Start(name, attributes) => match attributes {
                Ok(a) => XmlEventKind::Start { name, attributes: a },
                Err(x) => {
                    return Err(attribute_failure(&x));
                },
            },
            XmlToken::Empty(name, attributes) => match attributes {
                Ok(a) => XmlEventKind::Empty { name, attributes: a },
                Err(x) => {
                    return Err(attribute_failure(&x));
                },
            },
            XmlToken::End(name) => XmlEventKind::End { name },
            XmlToken::Text(t) => XmlEventKind::Text(t),
            XmlToken::CData(t) => XmlEventKind::CData(t),
            XmlToken::Comment => XmlEventKind::Comment,
            XmlToken::Eof => XmlEventKind::Eof,
            XmlToken::Other => XmlEventKind::Other,
        };
        let done = match kind {
            XmlEventKind::Eof => true,
            _ => false,
        };
        if !done && fuel == 0 {
            return Err(ReadError::Csdl(owned("the XML reader did not reach the end of the input")));
        }
        let event = XmlEvent { kind, location: loc };
        out.push(event);
        proof {
            assert(event_views(out@) =~= before.push(event_view(event)));
        }
        if done {
            proof {
                assert(before + seq![event_view(event)] =~= event_views(out@));
            }
            return Ok(out);
        }
        proof {
            match events_from(input@, k + 1, at as nat, loc, (fuel - 1) as nat) {
                Ok(rest) => {
                    assert(before + (seq![event_view(event)] + rest) =~= event_views(out@) + rest);
                },
                Err(_) => {},
            }
        }
        fuel = fuel - 1;
    }
}

// ---------------------------------------------------------------------------
// Names and attributes
// ---------------------------------------------------------------------------

/// The local part of a qualified name: what follows its first `:`.
pub open spec fn local_part(q: Seq<u8>) -> Seq<u8> {
    match first_colon(q) {
        Some(i) => q.skip(i + 1),
        None => q,
    }
}

pub open spec fn first_colon(q: Seq<u8>) -> Option<int>
    decreases q.len(),
{
    if q.len() == 0 {
        None
    } else {
        match first_colon(q.drop_last()) {
            Some(i) => Some(i),
            None => if q.last() == 58u8 {
                Some(q.len() - 1)
            } else {
                None
            },
        }
    }
}

proof fn lemma_first_colon(q: Seq<u8>)
    ensures
        first_colon(q) matches Some(i) ==> 0 <= i < q.len() && q[i] == 58u8 && forall|j: int|
            0 <= j < i ==> q[j] != 58u8,
        first_colon(q) is None ==> forall|j: int| 0 <= j < q.len() ==> q[j] != 58u8,
    decreases q.len(),
{
    if q.len() > 0 {
        lemma_first_colon(q.drop_last());
        assert forall|j: int| 0 <= j < q.len() - 1 implies q.drop_last()[j] == q[j] by {}
    }
}

fn first_colon_of(q: &Vec<u8>) -> (r: Option<usize>)
    ensures
        match r {
            Some(i) => first_colon(q@) == Some(i as int) && i < q@.len(),
            None => first_colon(q@) is None,
        },
{
    let mut i: usize = 0;
    while i < q.len()
        invariant
            i <= q@.len(),
            first_colon(q@.take(i as int)) is None,
        decreases q.len() - i,
    {
        proof {
            assert(q@.take(i + 1).drop_last() =~= q@.take(i as int));
            assert(q@.take(i + 1).last() == q@[i as int]);
        }
        if q[i] == 58u8 {
            proof {
                lemma_first_colon_prefix(q@, i + 1);
            }
            return Some(i);
        }
        i = i + 1;
    }
    proof {
        assert(q@.take(q@.len() as int) =~= q@);
    }
    None
}

proof fn lemma_first_colon_prefix(q: Seq<u8>, i: int)
    requires
        0 <= i <= q.len(),
        first_colon(q.take(i)) is Some,
    ensures
        first_colon(q) == first_colon(q.take(i)),
    decreases q.len() - i,
{
    if i < q.len() {
        assert(q.take(i + 1).drop_last() =~= q.take(i));
        lemma_first_colon_prefix(q, i + 1);
    } else {
        assert(q.take(i) =~= q);
    }
}

/// The local part of a qualified name as text.
pub fn local_name(q: &Vec<u8>) -> (r: Result<String, ReadError>)
    ensures
        match r {
            Ok(s) => vstd::utf8::valid_utf8(local_part(q@)) && s@ == vstd::utf8::decode_utf8(
                local_part(q@),
            ),
            Err(e) => e is Utf8 && !vstd::utf8::valid_utf8(local_part(q@)),
        },
{
    let i = match first_colon_of(q) {
        Some(i) => i,
        None => q.len(),
    };
    let mut local: Vec<u8> = Vec::new();
    let start: usize = if i < q.len() {
        i + 1
    } else {
        0
    };
    let mut j: usize = start;
    while j < q.len()
        invariant
            start <= j <= q@.len(),
            local@ == q@.subrange(start as int, j as int),
        decreases q.len() - j,
    {
        local.push(q[j]);
        proof {
            assert(q@.subrange(start as int, j + 1) =~= q@.subrange(start as int, j as int).push(q@[j as int]));
        }
        j = j + 1;
    }
    proof {
        if i < q@.len() {
            assert(local@ =~= q@.skip(i + 1));
        } else {
            assert(local@ =~= q@);
        }
    }
    match utf8(local.as_slice()) {
        Ok(s) => Ok(s),
        Err(e) => Err(ReadError::Utf8(e)),
    }
}

/// A start tag's local name and attributes: local keys and UTF-8 values.
fn parse_start(name: &Vec<u8>, attributes: &Vec<(Vec<u8>, Vec<u8>)>) -> (r: Result<
    (String, Vec<(String, String)>),
    ReadError,
>)
    ensures
        match start_text(name@, attributes@) {
            Some((n, t)) => r matches Ok((rn, ra)) && rn@ == n && attr_views(ra@) == t,
            None => r matches Err(e) && e is Utf8,
        },
{
    let n = match local_name(name) {
        Ok(n) => n,
        Err(e) => {
            return Err(e);
        },
    };
    let mut out: Vec<(String, String)> = Vec::new();
    let mut i: usize = 0;
    let ghost a = attributes@;
    proof {
        assert(a.take(0) =~= Seq::<(Vec<u8>, Vec<u8>)>::empty());
        assert(attr_views(out@) =~= Seq::<(Seq<char>, Seq<char>)>::empty());
    }
    while i < attributes.len()
        invariant
            i <= attributes@.len(),
            a == attributes@,
            n@ == vstd::utf8::decode_utf8(local_part(name@)),
            vstd::utf8::valid_utf8(local_part(name@)),
            attrs_text(a.take(i as int)) == Some(attr_views(out@)),
        decreases attributes.len() - i,
    {
        proof {
            assert(a.take(i + 1).drop_last() =~= a.take(i as int));
            assert(a.take(i + 1).last() == a[i as int]);
        }
        let k = match local_name(&attributes[i].0) {
            Ok(k) => k,
            Err(e) => {
                proof {
                    lemma_attrs_text_prefix(a, (i + 1) as nat);
                }
                return Err(e);
            },
        };
        let v = match utf8(attributes[i].1.as_slice()) {
            Ok(v) => v,
            Err(e) => {
                proof {
                    lemma_attrs_text_prefix(a, (i + 1) as nat);
                }
                return Err(ReadError::Utf8(e));
            },
        };
        let ghost o = out@;
        out.push((k, v));
        proof {
            assert(attr_views(out@) =~= attr_views(o).push((k@, v@)));
        }
        i = i + 1;
    }
    proof {
        assert(a.take(i as int) =~= a);
    }
    Ok((n, out))
}

/// The value of the first attribute named `key`.
pub open spec fn attr_spec(attrs: Seq<(String, String)>, key: Seq<char>) -> Option<Seq<char>>
    decreases attrs.len(),
{
    if attrs.len() == 0 {
        None
    } else {
        match attr_spec(attrs.drop_last(), key) {
            Some(v) => Some(v),
            None => if attrs.last().0@ == key {
                Some(attrs.last().1@)
            } else {
                None
            },
        }
    }
}

/// The value of the first attribute named `key`.
pub fn attr_value(attrs: &Vec<(String, String)>, key: &str) -> (r: Option<String>)
    ensures
        match r {
            Some(v) => attr_spec(attrs@, key@) == Some(v@),
            None => attr_spec(attrs@, key@) is None,
        },
{
    let mut i: usize = 0;
    while i < attrs.len()
        invariant
            i <= attrs@.len(),
            attr_spec(attrs@.take(i as int), key@) is None,
        decreases attrs.len() - i,
    {
        proof {
            assert(attrs@.take(i + 1).drop_last() =~= attrs@.take(i as int));
            assert(attrs@.take(i + 1).last() == attrs@[i as int]);
        }
        if str_eq(attrs[i].0.as_str(), key) {
            proof {
                lemma_attr_prefix(attrs@, key@, i + 1);
            }
            return Some(owned(attrs[i].1.as_str()));
        }
        i = i + 1;
    }
    proof {
        assert(attrs@.take(attrs@.len() as int) =~= attrs@);
    }
    None
}

pub proof fn lemma_attr_prefix(attrs: Seq<(String, String)>, key: Seq<char>, i: int)
    requires
        0 <= i <= attrs.len(),
        attr_spec(attrs.take(i), key) is Some,
    ensures
        attr_spec(attrs, key) == attr_spec(attrs.take(i), key),
    decreases attrs.len() - i,
{
    if i < attrs.len() {
        assert(attrs.take(i + 1).drop_last() =~= attrs.take(i));
        lemma_attr_prefix(attrs, key, i + 1);
    } else {
        assert(attrs.take(i) =~= attrs);
    }
}

/// The attributes that spell an annotation expression inline.
pub open spec fn is_inline_constant(k: Seq<char>) -> bool {
    ||| k == "Binary"@
    ||| k == "Bool"@
    ||| k == "Date"@
    ||| k == "DateTimeOffset"@
    ||| k == "Decimal"@
    ||| k == "Duration"@
    ||| k == "EnumMember"@
    ||| k == "Float"@
    ||| k == "Guid"@
    ||| k == "Int"@
    ||| k == "String"@
    ||| k == "TimeOfDay"@
    ||| k == "AnnotationPath"@
    ||| k == "NavigationPropertyPath"@
    ||| k == "Path"@
    ||| k == "PropertyPath"@
    ||| k == "UrlRef"@
}

fn inline_constant(k: &str) -> (r: bool)
    ensures
        r == is_inline_constant(k@),
{
    str_eq(k, "Binary") || str_eq(k, "Bool") || str_eq(k, "Date") || str_eq(k, "DateTimeOffset")
        || str_eq(k, "Decimal") || str_eq(k, "Duration") || str_eq(k, "EnumMember") || str_eq(
        k,
        "Float",
    ) || str_eq(k, "Guid") || str_eq(k, "Int") || str_eq(k, "String") || str_eq(k, "TimeOfDay")
        || str_eq(k, "AnnotationPath") || str_eq(k, "NavigationPropertyPath") || str_eq(k, "Path")
        || str_eq(k, "PropertyPath") || str_eq(k, "UrlRef")
}

/// Position of the first attribute that spells an expression inline.
pub fn find_inline_constant_idx(attrs: &Vec<(String, String)>) -> (r: Option<usize>)
    ensures
        match r {
            Some(i) => i < attrs@.len() && is_inline_constant(attrs@[i as int].0@) && forall|j: int|
                0 <= j < i ==> !is_inline_constant(#[trigger] attrs@[j].0@),
            None => forall|j: int| 0 <= j < attrs@.len() ==> !is_inline_constant(#[trigger] attrs@[j].0@),
        },
{
    let mut i: usize = 0;
    while i < attrs.len()
        invariant
            i <= attrs@.len(),
            forall|j: int| 0 <= j < i ==> !is_inline_constant(#[trigger] attrs@[j].0@),
        decreases attrs.len() - i,
    {
        if inline_constant(attrs[i].0.as_str()) {
            return Some(i);
        }
        i = i + 1;
    }
    None
}

/// ASCII case-insensitive comparison with `true`.
pub open spec fn is_true_text(s: Seq<char>) -> bool {
    &&& s.len() == 4
    &&& (s[0] == 't' || s[0] == 'T')
    &&& (s[1] == 'r' || s[1] == 'R')
    &&& (s[2] == 'u' || s[2] == 'U')
    &&& (s[3] == 'e' || s[3] == 'E')
}

pub fn true_text(s: &str) -> (r: bool)
    ensures
        r == is_true_text(s@),
{
    let cs = crate::text::chars_of(s);
    cs.len() == 4 && (cs[0] == 't' || cs[0] == 'T') && (cs[1] == 'r' || cs[1] == 'R') && (cs[2]
        == 'u' || cs[2] == 'U') && (cs[3] == 'e' || cs[3] == 'E')
}

/// The expression an inline attribute spells.
pub fn constant_attr_to_expr(key: &str, value: String) -> (r: CsdlAnnotationExpression)
    ensures
        expr_view(r) == constant_view(key@, value@),
{
    if str_eq(key, "Binary") {
        CsdlAnnotationExpression::Binary(value.as_str().as_bytes_vec())
    } else if str_eq(key, "Bool") {
        CsdlAnnotationExpression::Bool(true_text(value.as_str()))
    } else if str_eq(key, "Date") {
        CsdlAnnotationExpression::Date(value)
    } else if str_eq(key, "DateTimeOffset") {
        CsdlAnnotationExpression::DateTimeOffset(value)
    } else if str_eq(key, "Decimal") {
        CsdlAnnotationExpression::Decimal(value)
    } else if str_eq(key, "Duration") {
        CsdlAnnotationExpression::Duration(value)
    } else if str_eq(key, "EnumMember") {
        CsdlAnnotationExpression::EnumMember(value)
    } else if str_eq(key, "Float") {
        CsdlAnnotationExpression::Float(value)
    } else if str_eq(key, "Guid") {
        CsdlAnnotationExpression::Guid(value)
    } else if str_eq(key, "Int") {
        CsdlAnnotationExpression::Int(
            match parse_i64(value.as_str()) {
                Some(n) => n,
                None => 0,
            },
        )
    } else if str_eq(key, "String") {
        CsdlAnnotationExpression::String(value)
    } else if str_eq(key, "TimeOfDay") {
        CsdlAnnotationExpression::TimeOfDay(value)
    } else if str_eq(key, "AnnotationPath") {
        CsdlAnnotationExpression::AnnotationPath(value)
    } else if str_eq(key, "NavigationPropertyPath") {
        CsdlAnnotationExpression::NavigationPropertyPath(value)
    } else if str_eq(key, "Path") {
        CsdlAnnotationExpression::Path(value)
    } else if str_eq(key, "PropertyPath") {
        CsdlAnnotationExpression::PropertyPath(value)
    } else {
        CsdlAnnotationExpression::String(value)
    }
}

/// Removes the inline expression attribute, if any, and returns the
/// expression it spells. The last attribute takes the removed one's place.
fn take_inline(attrs: &mut Vec<(String, String)>) -> (r: Option<CsdlAnnotationExpression>)
    ensures
        match inline_of(attr_views(old(attrs)@)) {
            Some(x) => r matches Some(e) && expr_view(e) == x,
            None => r is None,
        },
        attr_views(final(attrs)@) == without_inline(attr_views(old(attrs)@)),
{
    let ghost a = attrs@;
    proof {
        lemma_inline_pos(attr_views(a));
    }
    match find_inline_constant_idx(attrs) {
        None => {
            proof {
                if inline_pos(attr_views(a)) is Some {
                    let i = inline_pos(attr_views(a))->Some_0;
                    assert(!is_inline_constant(a[i].0@));
                }
            }
            None
        },
        Some(idx) => {
            proof {
                match inline_pos(attr_views(a)) {
                    Some(i) => {
                        if i < idx {
                            assert(!is_inline_constant(a[i].0@));
                        } else if i > idx {
                            assert(!is_inline_constant(attr_views(a)[idx as int].0));
                        }
                    },
                    None => {
                        assert(!is_inline_constant(attr_views(a)[idx as int].0));
                    },
                }
            }
            let (k, v) = attrs.swap_remove(idx);
            proof {
                assert(attr_views(attrs@) =~= attr_views(a).update(idx as int, attr_views(a).last()).drop_last());
            }
            Some(constant_attr_to_expr(k.as_str(), v))
        },
    }
}

// ---------------------------------------------------------------------------
// What reading events gives
// ---------------------------------------------------------------------------

pub type AttrsView = Seq<(Seq<char>, Seq<char>)>;

/// How reading can fail: a CSDL error with this message, a CSDL error
/// whose message starts with this text (the rest is an outside error's own
/// text), or a UTF-8 error.
pub enum ReadFail {
    Csdl(Seq<char>),
    CsdlPrefix(Seq<char>),
    Utf8,
}

pub open spec fn fails_as(e: ReadError, f: ReadFail) -> bool {
    match f {
        ReadFail::Csdl(m) => csdl_message(e) == Some(m),
        ReadFail::CsdlPrefix(p) => e matches ReadError::Csdl(m) && p.is_prefix_of(m@),
        ReadFail::Utf8 => e is Utf8,
    }
}

/// The text of a local name, when it is UTF-8.
pub open spec fn name_text(q: Seq<u8>) -> Option<Seq<char>> {
    if vstd::utf8::valid_utf8(local_part(q)) {
        Some(vstd::utf8::decode_utf8(local_part(q)))
    } else {
        None
    }
}

/// The attributes as text, keys by their local names; none when a key or
/// value is not UTF-8.
pub open spec fn attrs_text(a: Seq<(Vec<u8>, Vec<u8>)>) -> Option<AttrsView>
    decreases a.len(),
{
    if a.len() == 0 {
        Some(Seq::empty())
    } else {
        match attrs_text(a.drop_last()) {
            None => None,
            Some(t) => match name_text(a.last().0@) {
                None => None,
                Some(k) => if vstd::utf8::valid_utf8(a.last().1@) {
                    Some(t.push((k, vstd::utf8::decode_utf8(a.last().1@))))
                } else {
                    None
                },
            },
        }
    }
}

/// A start tag as text: its local name and attributes.
pub open spec fn start_text(name: Seq<u8>, a: Seq<(Vec<u8>, Vec<u8>)>) -> Option<(Seq<char>, AttrsView)> {
    match name_text(name) {
        None => None,
        Some(n) => match attrs_text(a) {
            None => None,
            Some(t) => Some((n, t)),
        },
    }
}

/// An attribute that fails within the first `n` fails the whole list.
proof fn lemma_attrs_text_prefix(a: Seq<(Vec<u8>, Vec<u8>)>, n: nat)
    requires
        n <= a.len(),
        attrs_text(a.take(n as int)) is None,
    ensures
        attrs_text(a) is None,
    decreases a.len() - n,
{
    if n < a.len() {
        assert(a.take((n + 1) as int).drop_last() =~= a.take(n as int));
        lemma_attrs_text_prefix(a, n + 1);
    } else {
        assert(a.take(n as int) =~= a);
    }
}

/// The value of the first attribute named `key`.
pub open spec fn attr_of(a: AttrsView, key: Seq<char>) -> Option<Seq<char>>
    decreases a.len(),
{
    if a.len() == 0 {
        None
    } else {
        match attr_of(a.drop_last(), key) {
            Some(v) => Some(v),
            None => if a.last().0 == key {
                Some(a.last().1)
            } else {
                None
            },
        }
    }
}

pub proof fn lemma_attr_of(a: Seq<(String, String)>, key: Seq<char>)
    ensures
        attr_spec(a, key) == attr_of(attr_views(a), key),
    decreases a.len(),
{
    if a.len() > 0 {
        lemma_attr_of(a.drop_last(), key);
        assert(attr_views(a).drop_last() =~= attr_views(a.drop_last()));
    }
}

pub open spec fn text_or_empty(o: Option<Seq<char>>) -> Seq<char> {
    match o {
        Some(v) => v,
        None => Seq::empty(),
    }
}

/// The position of the first attribute that spells an expression inline.
pub open spec fn inline_pos(a: AttrsView) -> Option<int>
    decreases a.len(),
{
    if a.len() == 0 {
        None
    } else if is_inline_constant(a[0].0) {
        Some(0)
    } else {
        match inline_pos(a.drop_first()) {
            Some(i) => Some(i + 1),
            None => None,
        }
    }
}

proof fn lemma_inline_pos(a: AttrsView)
    ensures
        match inline_pos(a) {
            Some(i) => 0 <= i < a.len() && is_inline_constant(a[i].0) && forall|j: int|
                0 <= j < i ==> !is_inline_constant(#[trigger] a[j].0),
            None => forall|j: int| 0 <= j < a.len() ==> !is_inline_constant(#[trigger] a[j].0),
        },
    decreases a.len(),
{
    if a.len() > 0 {
        lemma_inline_pos(a.drop_first());
        if !is_inline_constant(a[0].0) {
            match inline_pos(a.drop_first()) {
                Some(i) => {
                    assert forall|j: int| 0 <= j < i + 1 implies !is_inline_constant(#[trigger] a[j].0) by {
                        if j > 0 {
                            assert(a[j] == a.drop_first()[j - 1]);
                        }
                    }
                },
                None => {
                    assert forall|j: int| 0 <= j < a.len() implies !is_inline_constant(#[trigger] a[j].0) by {
                        if j > 0 {
                            assert(a[j] == a.drop_first()[j - 1]);
                        }
                    }
                },
            }
        }
    }
}

/// The expression an inline attribute spells.
pub open spec fn constant_view(k: Seq<char>, v: Seq<char>) -> ExprView {
    if k == "Binary"@ {
        ExprView::Binary(vstd::utf8::encode_utf8(v))
    } else if k == "Bool"@ {
        ExprView::Bool(is_true_text(v))
    } else if k == "Date"@ {
        ExprView::Date(v)
    } else if k == "DateTimeOffset"@ {
        ExprView::DateTimeOffset(v)
    } else if k == "Decimal"@ {
        ExprView::Decimal(v)
    } else if k == "Duration"@ {
        ExprView::Duration(v)
    } else if k == "EnumMember"@ {
        ExprView::EnumMember(v)
    } else if k == "Float"@ {
        ExprView::Float(v)
    } else if k == "Guid"@ {
        ExprView::Guid(v)
    } else if k == "Int"@ {
        ExprView::Int(
            match spec_parse_i64(v) {
                Some(n) => n,
                None => 0,
            },
        )
    } else if k == "String"@ {
        ExprView::String(v)
    } else if k == "TimeOfDay"@ {
        ExprView::TimeOfDay(v)
    } else if k == "AnnotationPath"@ {
        ExprView::AnnotationPath(v)
    } else if k == "NavigationPropertyPath"@ {
        ExprView::NavigationPropertyPath(v)
    } else if k == "Path"@ {
        ExprView::Path(v)
    } else if k == "PropertyPath"@ {
        ExprView::PropertyPath(v)
    } else {
        ExprView::String(v)
    }
}

/// The inline expression of a tag, if it has one.
pub open spec fn inline_of(a: AttrsView) -> Option<ExprView> {
    match inline_pos(a) {
        Some(i) => Some(constant_view(a[i].0, a[i].1)),
        None => None,
    }
}

/// The attributes without the inline expression's: the last one takes
/// its place.
pub open spec fn without_inline(a: AttrsView) -> AttrsView {
    match inline_pos(a) {
        Some(i) => a.update(i, a.last()).drop_last(),
        None => a,
    }
}

/// The message of an error at event `i`: its line and column, then `msg`.
pub open spec fn at_event(ev: Seq<XmlEvent>, i: int, msg: Seq<char>) -> Seq<char> {
    "at line "@ + decimal(ev[i].location.line as nat) + ", column "@ + decimal(
        ev[i].location.column as nat,
    ) + ": "@ + msg
}

pub open spec fn angle(name: Seq<char>) -> Seq<char> {
    "<"@ + name + ">"@
}

/// `<name> expects n children, got m`.
pub open spec fn exact_msg(name: Seq<char>, n: nat, got: nat) -> Seq<char> {
    (angle(name) + " expects "@ + decimal(n)) + " children, got "@ + decimal(got)
}

pub open spec fn binary_of_name(n: Seq<char>) -> Option<BinaryOperator> {
    if n == "And"@ {
        Some(BinaryOperator::And)
    } else if n == "Or"@ {
        Some(BinaryOperator::Or)
    } else if n == "Eq"@ {
        Some(BinaryOperator::Eq)
    } else if n == "Ne"@ {
        Some(BinaryOperator::Ne)
    } else if n == "Gt"@ {
        Some(BinaryOperator::Gt)
    } else if n == "Ge"@ {
        Some(BinaryOperator::Ge)
    } else if n == "Lt"@ {
        Some(BinaryOperator::Lt)
    } else if n == "Le"@ {
        Some(BinaryOperator::Le)
    } else {
        None
    }
}

/// The expression a self-closing element spells.
pub open spec fn empty_expr(n: Seq<char>, a: AttrsView) -> ExprView {
    if n == "Null"@ {
        ExprView::Null
    } else if n == "Binary"@ {
        ExprView::Binary(Seq::empty())
    } else if n == "Bool"@ {
        ExprView::Bool(false)
    } else if n == "Date"@ {
        ExprView::Date(Seq::empty())
    } else if n == "DateTimeOffset"@ {
        ExprView::DateTimeOffset(Seq::empty())
    } else if n == "Decimal"@ {
        ExprView::Decimal(Seq::empty())
    } else if n == "Duration"@ {
        ExprView::Duration(Seq::empty())
    } else if n == "EnumMember"@ {
        ExprView::EnumMember(Seq::empty())
    } else if n == "Float"@ {
        ExprView::Float("0"@)
    } else if n == "Guid"@ {
        ExprView::Guid(Seq::empty())
    } else if n == "Int"@ {
        ExprView::Int(0)
    } else if n == "String"@ {
        ExprView::String(Seq::empty())
    } else if n == "TimeOfDay"@ {
        ExprView::TimeOfDay(Seq::empty())
    } else if n == "Path"@ {
        ExprView::Path(Seq::empty())
    } else if n == "PropertyPath"@ {
        ExprView::PropertyPath(Seq::empty())
    } else if n == "NavigationPropertyPath"@ {
        ExprView::NavigationPropertyPath(Seq::empty())
    } else if n == "AnnotationPath"@ {
        ExprView::AnnotationPath(Seq::empty())
    } else if n == "LabeledElementReference"@ {
        ExprView::LabeledElementReference(Seq::empty())
    } else if n == "Collection"@ {
        ExprView::Collection(Seq::empty())
    } else if n == "Record"@ {
        ExprView::Record { type_: attr_of(a, "Type"@), properties: Seq::empty(), annotations: Seq::empty() }
    } else if n == "Apply"@ {
        ExprView::Apply { function: text_or_empty(attr_of(a, "Function"@)), args: Seq::empty() }
    } else {
        ExprView::Null
    }
}

/// A self-closing annotation: its expression is the inline one, else `true`.
pub open spec fn annotation_empty(a: AttrsView) -> AnnotationView {
    AnnotationView {
        term: text_or_empty(attr_of(a, "Term"@)),
        qualifier: attr_of(a, "Qualifier"@),
        target: attr_of(a, "Target"@),
        expression: Some(
            match inline_of(a) {
                Some(x) => x,
                None => ExprView::Bool(true),
            },
        ),
    }
}

/// The text of element `name` from event `i` on, `acc` read so far, up to
/// its end tag; the result is the text and the event after the end tag.
pub open spec fn text_from(ev: Seq<XmlEvent>, i: int, name: Seq<char>, acc: Seq<char>) -> Result<(Seq<char>, int), ReadFail>
    decreases ev.len() - i,
{
    if i < 0 || i >= ev.len() {
        Err(ReadFail::Csdl("unexpected end of the XML events"@))
    } else {
        match ev[i].kind {
            XmlEventKind::Text(t) => if !vstd::utf8::valid_utf8(t@) {
                Err(ReadFail::CsdlPrefix("text decode error: "@))
            } else {
                match xml_unescaped(vstd::utf8::decode_utf8(t@)) {
                    None => Err(ReadFail::CsdlPrefix("text unescape error: "@)),
                    Some(u) => text_from(ev, i + 1, name, acc + u),
                }
            },
            XmlEventKind::CData(t) => if !vstd::utf8::valid_utf8(t@) {
                Err(ReadFail::Utf8)
            } else {
                text_from(ev, i + 1, name, acc + vstd::utf8::decode_utf8(t@))
            },
            XmlEventKind::End { name: n } => match name_text(n@) {
                None => Err(ReadFail::Utf8),
                Some(nt) => if nt == name {
                    Ok((acc, i + 1))
                } else {
                    Err(ReadFail::Csdl(at_event(ev, i, ("unexpected </"@ + nt + ">"@) + " in text body of "@ + angle(name))))
                },
            },
            XmlEventKind::Comment => text_from(ev, i + 1, name, acc),
            XmlEventKind::Eof => Err(ReadFail::Csdl(at_event(ev, i, "unexpected EOF in text body of "@ + angle(name)))),
            _ => Err(ReadFail::Csdl(at_event(ev, i, "unexpected non-text event in "@ + angle(name)))),
        }
    }
}

/// Text and comments skipped up to the end tag of `name`; the result is
/// the event after it.
pub open spec fn end_from(ev: Seq<XmlEvent>, i: int, name: Seq<char>) -> Result<int, ReadFail>
    decreases ev.len() - i,
{
    if i < 0 || i >= ev.len() {
        Err(ReadFail::Csdl("unexpected end of the XML events"@))
    } else {
        match ev[i].kind {
            XmlEventKind::End { name: n } => match name_text(n@) {
                None => Err(ReadFail::Utf8),
                Some(nt) => if nt == name {
                    Ok(i + 1)
                } else {
                    Err(ReadFail::Csdl(at_event(ev, i, ("expected </"@ + name + ">"@) + ", got "@ + ("</"@ + nt + ">"@))))
                },
            },
            XmlEventKind::Text(_) => end_from(ev, i + 1, name),
            XmlEventKind::CData(_) => end_from(ev, i + 1, name),
            XmlEventKind::Comment => end_from(ev, i + 1, name),
            XmlEventKind::Eof => Err(ReadFail::Csdl(at_event(ev, i, "EOF while expecting "@ + ("</"@ + name + ">"@)))),
            _ => Err(ReadFail::Csdl(at_event(ev, i, "unexpected event while expecting "@ + ("</"@ + name + ">"@)))),
        }
    }
}

pub open spec fn end_of_events() -> ReadFail {
    ReadFail::Csdl("unexpected end of the XML events"@)
}

/// The elements whose text is the expression.
pub open spec fn is_text_element(n: Seq<char>) -> bool {
    ||| n == "Binary"@
    ||| n == "Bool"@
    ||| n == "Date"@
    ||| n == "DateTimeOffset"@
    ||| n == "Decimal"@
    ||| n == "Duration"@
    ||| n == "EnumMember"@
    ||| n == "Float"@
    ||| n == "Guid"@
    ||| n == "Int"@
    ||| n == "String"@
    ||| n == "TimeOfDay"@
    ||| n == "Path"@
    ||| n == "PropertyPath"@
    ||| n == "NavigationPropertyPath"@
    ||| n == "AnnotationPath"@
    ||| n == "LabeledElementReference"@
}

/// The expression element `n` with text `t` spells.
pub open spec fn text_expr(n: Seq<char>, t: Seq<char>) -> ExprView {
    if n == "Binary"@ {
        ExprView::Binary(vstd::utf8::encode_utf8(t))
    } else if n == "Bool"@ {
        ExprView::Bool(is_true_text(t))
    } else if n == "Date"@ {
        ExprView::Date(t)
    } else if n == "DateTimeOffset"@ {
        ExprView::DateTimeOffset(t)
    } else if n == "Decimal"@ {
        ExprView::Decimal(t)
    } else if n == "Duration"@ {
        ExprView::Duration(t)
    } else if n == "EnumMember"@ {
        ExprView::EnumMember(t)
    } else if n == "Float"@ {
        ExprView::Float(t)
    } else if n == "Guid"@ {
        ExprView::Guid(t)
    } else if n == "Int"@ {
        ExprView::Int(
            match spec_parse_i64(t) {
                Some(x) => x,
                None => 0,
            },
        )
    } else if n == "String"@ {
        ExprView::String(t)
    } else if n == "TimeOfDay"@ {
        ExprView::TimeOfDay(t)
    } else if n == "Path"@ {
        ExprView::Path(t)
    } else if n == "PropertyPath"@ {
        ExprView::PropertyPath(t)
    } else if n == "NavigationPropertyPath"@ {
        ExprView::NavigationPropertyPath(t)
    } else if n == "AnnotationPath"@ {
        ExprView::AnnotationPath(t)
    } else {
        ExprView::LabeledElementReference(t)
    }
}

/// The expressions from event `i` on, `acc` read so far, up to the end
/// tag of `parent`; the result is the expressions and the event after it.
pub open spec fn exprs_from(ev: Seq<XmlEvent>, i: int, parent: Seq<char>, acc: Seq<ExprView>) -> Result<(Seq<ExprView>, int), ReadFail>
    decreases ev.len() - i, 1nat,
{
    if i < 0 || i >= ev.len() {
        Err(end_of_events())
    } else {
        match ev[i].kind {
            XmlEventKind::Start { name, attributes } => match start_text(name@, attributes@) {
                None => Err(ReadFail::Utf8),
                Some((n, a)) => match expr_start(ev, i + 1, n, a) {
                    Err(f) => Err(f),
                    Ok((x, next)) => if i < next <= ev.len() {
                        exprs_from(ev, next, parent, acc.push(x))
                    } else {
                        Err(end_of_events())
                    },
                },
            },
            XmlEventKind::Empty { name, attributes } => match start_text(name@, attributes@) {
                None => Err(ReadFail::Utf8),
                Some((n, a)) => exprs_from(ev, i + 1, parent, acc.push(empty_expr(n, a))),
            },
            XmlEventKind::End { name } => match name_text(name@) {
                None => Err(ReadFail::Utf8),
                Some(nt) => if nt == parent {
                    Ok((acc, i + 1))
                } else {
                    Err(ReadFail::Csdl(at_event(ev, i, ("unexpected </"@ + nt + ">"@) + " in "@ + angle(parent))))
                },
            },
            XmlEventKind::Eof => Err(ReadFail::Csdl(at_event(ev, i, "unexpected EOF in "@ + angle(parent)))),
            _ => exprs_from(ev, i + 1, parent, acc),
        }
    }
}

/// The expression element `name` with attributes `a`, its start tag just
/// read; `pos` is the event after it.
pub open spec fn expr_start(ev: Seq<XmlEvent>, pos: int, name: Seq<char>, a: AttrsView) -> Result<(ExprView, int), ReadFail>
    decreases ev.len() - pos, 2nat,
{
    if is_text_element(name) {
        match text_from(ev, pos, name, Seq::empty()) {
            Err(f) => Err(f),
            Ok((t, p)) => Ok((text_expr(name, t), p)),
        }
    } else if name == "Not"@ || name == "UrlRef"@ {
        match exprs_from(ev, pos, name, Seq::empty()) {
            Err(f) => Err(f),
            Ok((c, p)) => if c.len() != 1 {
                Err(ReadFail::Csdl(exact_msg(name, 1, c.len())))
            } else if name == "Not"@ {
                Ok((ExprView::Not(Box::new(c[0])), p))
            } else {
                Ok((ExprView::UrlRef(Box::new(c[0])), p))
            },
        }
    } else if binary_of_name(name) is Some {
        match exprs_from(ev, pos, name, Seq::empty()) {
            Err(f) => Err(f),
            Ok((c, p)) => if c.len() != 2 {
                Err(ReadFail::Csdl(exact_msg(name, 2, c.len())))
            } else {
                Ok(
                    (
                        ExprView::BinaryExpression {
                            op: binary_of_name(name)->Some_0,
                            lhs: Box::new(c[0]),
                            rhs: Box::new(c[1]),
                        },
                        p,
                    ),
                )
            },
        }
    } else if name == "If"@ {
        match exprs_from(ev, pos, name, Seq::empty()) {
            Err(f) => Err(f),
            Ok((c, p)) => if c.len() != 2 && c.len() != 3 {
                Err(ReadFail::Csdl(at_event(ev, p - 1, "<If> expects 2 or 3 children, got "@ + decimal(c.len()))))
            } else {
                Ok(
                    (
                        ExprView::If {
                            test: Box::new(c[0]),
                            then_: Box::new(c[1]),
                            else_: if c.len() == 3 {
                                Some(Box::new(c[2]))
                            } else {
                                None
                            },
                        },
                        p,
                    ),
                )
            },
        }
    } else if name == "Apply"@ {
        match exprs_from(ev, pos, name, Seq::empty()) {
            Err(f) => Err(f),
            Ok((c, p)) => Ok((ExprView::Apply { function: text_or_empty(attr_of(a, "Function"@)), args: c }, p)),
        }
    } else if name == "Cast"@ || name == "IsOf"@ || name == "LabeledElement"@ {
        let label = text_or_empty(
            attr_of(
                a,
                if name == "LabeledElement"@ {
                    "Name"@
                } else {
                    "Type"@
                },
            ),
        );
        match exprs_from(ev, pos, name, Seq::empty()) {
            Err(f) => Err(f),
            Ok((c, p)) => if c.len() != 1 {
                Err(ReadFail::Csdl(exact_msg(name, 1, c.len())))
            } else if name == "Cast"@ {
                Ok((ExprView::Cast { type_: label, expr: Box::new(c[0]) }, p))
            } else if name == "IsOf"@ {
                Ok((ExprView::IsOf { type_: label, expr: Box::new(c[0]) }, p))
            } else {
                Ok((ExprView::LabeledElement { name: label, expr: Box::new(c[0]) }, p))
            },
        }
    } else if name == "Collection"@ {
        match exprs_from(ev, pos, name, Seq::empty()) {
            Err(f) => Err(f),
            Ok((c, p)) => Ok((ExprView::Collection(c), p)),
        }
    } else if name == "Record"@ {
        match record_from(ev, pos, name, Seq::empty(), Seq::empty()) {
            Err(f) => Err(f),
            Ok((props, anns, p)) => Ok(
                (ExprView::Record { type_: attr_of(a, "Type"@), properties: props, annotations: anns }, p),
            ),
        }
    } else if name == "Null"@ {
        match end_from(ev, pos, name) {
            Err(f) => Err(f),
            Ok(p) => Ok((ExprView::Null, p)),
        }
    } else {
        Err(ReadFail::Csdl(at_event(ev, pos - 1, "unknown expression element "@ + angle(name))))
    }
}

/// `(("unexpected " + tag) + " in ") + <parent> + " (expected ...)"`.
pub open spec fn unexpected_in_record(tag: Seq<char>, parent: Seq<char>) -> Seq<char> {
    (("unexpected "@ + tag) + " in "@) + angle(parent) + " (expected PropertyValue or Annotation)"@
}

/// The body of a record from event `i` on, property values and
/// annotations read so far, up to the end tag of `parent`.
pub open spec fn record_from(
    ev: Seq<XmlEvent>,
    i: int,
    parent: Seq<char>,
    props: Seq<PropertyValueView>,
    anns: Seq<AnnotationView>,
) -> Result<(Seq<PropertyValueView>, Seq<AnnotationView>, int), ReadFail>
    decreases ev.len() - i, 1nat,
{
    if i < 0 || i >= ev.len() {
        Err(end_of_events())
    } else {
        match ev[i].kind {
            XmlEventKind::Start { name, attributes } => match start_text(name@, attributes@) {
                None => Err(ReadFail::Utf8),
                Some((n, a)) => if n == "PropertyValue"@ {
                    match pv_from(ev, i + 1, text_or_empty(attr_of(a, "Property"@)), inline_of(a), Seq::empty(), Seq::empty()) {
                        Err(f) => Err(f),
                        Ok((v, next)) => if i < next <= ev.len() {
                            record_from(ev, next, parent, props.push(v), anns)
                        } else {
                            Err(end_of_events())
                        },
                    }
                } else if n == "Annotation"@ {
                    match annotation_start(ev, i + 1, a) {
                        Err(f) => Err(f),
                        Ok((v, next)) => if i < next <= ev.len() {
                            record_from(ev, next, parent, props, anns.push(v))
                        } else {
                            Err(end_of_events())
                        },
                    }
                } else {
                    Err(ReadFail::Csdl(at_event(ev, i, unexpected_in_record(angle(n), parent))))
                },
            },
            XmlEventKind::Empty { name, attributes } => match start_text(name@, attributes@) {
                None => Err(ReadFail::Utf8),
                Some((n, a)) => if n == "PropertyValue"@ {
                    record_from(
                        ev,
                        i + 1,
                        parent,
                        props.push(
                            PropertyValueView {
                                property: text_or_empty(attr_of(a, "Property"@)),
                                value: inline_of(a),
                                annotations: Seq::empty(),
                            },
                        ),
                        anns,
                    )
                } else if n == "Annotation"@ {
                    record_from(ev, i + 1, parent, props, anns.push(annotation_empty(a)))
                } else {
                    Err(ReadFail::Csdl(at_event(ev, i, unexpected_in_record("<"@ + n + "/>"@, parent))))
                },
            },
            XmlEventKind::End { name } => match name_text(name@) {
                None => Err(ReadFail::Utf8),
                Some(nt) => if nt == parent {
                    Ok((props, anns, i + 1))
                } else {
                    Err(ReadFail::Csdl(at_event(ev, i, ("unexpected </"@ + nt + ">"@) + " in "@ + angle(parent))))
                },
            },
            XmlEventKind::Eof => Err(ReadFail::Csdl(at_event(ev, i, "unexpected EOF in "@ + angle(parent)))),
            _ => record_from(ev, i + 1, parent, props, anns),
        }
    }
}

/// The inline value if there is one, else the first body value.
pub open spec fn first_value(inline: Option<ExprView>, body: Seq<ExprView>) -> Option<ExprView> {
    match inline {
        Some(x) => Some(x),
        None => if body.len() == 0 {
            None
        } else {
            Some(body[0])
        },
    }
}

/// The rest of a `PropertyValue` element from event `i` on.
pub open spec fn pv_from(
    ev: Seq<XmlEvent>,
    i: int,
    property: Seq<char>,
    inline: Option<ExprView>,
    body: Seq<ExprView>,
    anns: Seq<AnnotationView>,
) -> Result<(PropertyValueView, int), ReadFail>
    decreases ev.len() - i, 1nat,
{
    if i < 0 || i >= ev.len() {
        Err(end_of_events())
    } else {
        match ev[i].kind {
            XmlEventKind::Start { name, attributes } => match start_text(name@, attributes@) {
                None => Err(ReadFail::Utf8),
                Some((n, a)) => if n == "Annotation"@ {
                    match annotation_start(ev, i + 1, a) {
                        Err(f) => Err(f),
                        Ok((v, next)) => if i < next <= ev.len() {
                            pv_from(ev, next, property, inline, body, anns.push(v))
                        } else {
                            Err(end_of_events())
                        },
                    }
                } else {
                    match expr_start(ev, i + 1, n, a) {
                        Err(f) => Err(f),
                        Ok((v, next)) => if i < next <= ev.len() {
                            pv_from(ev, next, property, inline, body.push(v), anns)
                        } else {
                            Err(end_of_events())
                        },
                    }
                },
            },
            XmlEventKind::Empty { name, attributes } => match start_text(name@, attributes@) {
                None => Err(ReadFail::Utf8),
                Some((n, a)) => if n == "Annotation"@ {
                    pv_from(ev, i + 1, property, inline, body, anns.push(annotation_empty(a)))
                } else {
                    pv_from(ev, i + 1, property, inline, body.push(empty_expr(n, a)), anns)
                },
            },
            XmlEventKind::End { name } => match name_text(name@) {
                None => Err(ReadFail::Utf8),
                Some(nt) => if nt == "PropertyValue"@ {
                    Ok(
                        (
                            PropertyValueView { property, value: first_value(inline, body), annotations: anns },
                            i + 1,
                        ),
                    )
                } else {
                    Err(ReadFail::Csdl(at_event(ev, i, ("unexpected </"@ + nt + ">"@) + " in <PropertyValue>"@)))
                },
            },
            XmlEventKind::Eof => Err(ReadFail::Csdl(at_event(ev, i, "unexpected EOF in <PropertyValue>"@))),
            _ => pv_from(ev, i + 1, property, inline, body, anns),
        }
    }
}

/// An `Annotation` element that is not self-closing, its start tag just
/// read: its expression is the inline one, else the first of its body,
/// else `true`.
pub open spec fn annotation_start(ev: Seq<XmlEvent>, pos: int, a: AttrsView) -> Result<(AnnotationView, int), ReadFail>
    decreases ev.len() - pos, 2nat,
{
    match exprs_from(ev, pos, "Annotation"@, Seq::empty()) {
        Err(f) => Err(f),
        Ok((body, p)) => Ok(
            (
                AnnotationView {
                    term: text_or_empty(attr_of(a, "Term"@)),
                    qualifier: attr_of(a, "Qualifier"@),
                    target: attr_of(a, "Target"@),
                    expression: Some(
                        match inline_of(a) {
                            Some(x) => x,
                            None => if body.len() == 0 {
                                ExprView::Bool(true)
                            } else {
                                body[0]
                            },
                        },
                    ),
                },
                p,
            ),
        ),
    }
}

/// The expressions of an `Annotation` element as units.
pub open spec fn expression_units(x: Seq<ExprView>) -> Seq<UnitView> {
    x.map_values(|e: ExprView| UnitView::Expression(e))
}

/// The expressions of an `Annotation` element: the inline one, then those
/// of its body; `true` when there are none.
pub open spec fn annotation_exprs(a: AttrsView, body: Seq<ExprView>) -> Seq<ExprView> {
    let given = match inline_of(a) {
        Some(x) => seq![x] + body,
        None => body,
    };
    if given.len() == 0 {
        seq![ExprView::Bool(true)]
    } else {
        given
    }
}

/// The units of an `Annotation` element with the given body.
pub open spec fn annotation_units(n: Seq<char>, a: AttrsView, body: Seq<ExprView>) -> Seq<UnitView> {
    seq![UnitView::Start { name: n, attributes: without_inline(a) }] + expression_units(annotation_exprs(a, body))
        + seq![UnitView::End { name: "Annotation"@ }]
}

/// The units of a self-closing element.
pub open spec fn empty_units(n: Seq<char>, a: AttrsView) -> Seq<UnitView> {
    if n == "Annotation"@ {
        seq![
            UnitView::Start { name: n, attributes: without_inline(a) },
            UnitView::Expression(
                match inline_of(a) {
                    Some(x) => x,
                    None => ExprView::Bool(true),
                },
            ),
            UnitView::End { name: "Annotation"@ },
        ]
    } else {
        seq![UnitView::Start { name: n, attributes: a }, UnitView::End { name: n }]
    }
}

/// The syntax units of the events from `i` on, `acc` made so far, up to
/// the end of the document.
pub open spec fn units_from(ev: Seq<XmlEvent>, i: int, acc: Seq<UnitView>) -> Result<Seq<UnitView>, ReadFail>
    decreases ev.len() - i,
{
    if i < 0 || i >= ev.len() {
        Ok(acc)
    } else {
        match ev[i].kind {
            XmlEventKind::Eof => Ok(acc),
            XmlEventKind::Start { name, attributes } => match start_text(name@, attributes@) {
                None => Err(ReadFail::Utf8),
                Some((n, a)) => if n == "Annotation"@ {
                    match exprs_from(ev, i + 1, "Annotation"@, Seq::empty()) {
                        Err(f) => Err(f),
                        Ok((body, next)) => if i < next <= ev.len() {
                            units_from(ev, next, acc + annotation_units(n, a, body))
                        } else {
                            Err(end_of_events())
                        },
                    }
                } else {
                    units_from(ev, i + 1, acc.push(UnitView::Start { name: n, attributes: a }))
                },
            },
            XmlEventKind::End { name } => match name_text(name@) {
                None => Err(ReadFail::Utf8),
                Some(nt) => units_from(ev, i + 1, acc.push(UnitView::End { name: nt })),
            },
            XmlEventKind::Empty { name, attributes } => match start_text(name@, attributes@) {
                None => Err(ReadFail::Utf8),
                Some((n, a)) => units_from(ev, i + 1, acc + empty_units(n, a)),
            },
            _ => units_from(ev, i + 1, acc),
        }
    }
}

// ---------------------------------------------------------------------------
// Annotation expressions
// ---------------------------------------------------------------------------

/// An error at the location of event `at`.
fn csdl_err(ev: &Vec<XmlEvent>, at: usize, msg: &str) -> (r: ReadError)
    requires
        at < ev@.len(),
    ensures
        csdl_message(r) == Some(at_event(ev@, at as int, msg@)),
{
    let loc = ev[at].location;
    let a = concat("at line ", to_decimal(loc.line as u128).as_str());
    let b = concat3(a.as_str(), ", column ", to_decimal(loc.column as u128).as_str());
    let c = concat3(b.as_str(), ": ", msg);
    ReadError::Csdl(c)
}

fn tag(open: &str, name: &str, close: &str) -> (r: String)
    ensures
        r@ == open@ + name@ + close@,
{
    concat3(open, name, close)
}

/// Reads the text content of element `name` up to its end tag.
fn read_text_body(ev: &Vec<XmlEvent>, pos: usize, name: &str) -> (r: Result<(String, usize), ReadError>)
    requires
        pos <= ev@.len(),
    ensures
        match text_from(ev@, pos as int, name@, Seq::empty()) {
            Ok((t, p)) => r matches Ok((s, q)) && s@ == t && q == p,
            Err(f) => r matches Err(e) && fails_as(e, f),
        },
        r matches Ok((_, p)) ==> pos < p <= ev@.len(),
{
    let mut out = String::new();
    let mut i: usize = pos;
    while i < ev.len()
        invariant
            pos <= i <= ev@.len(),
            text_from(ev@, pos as int, name@, Seq::empty()) == text_from(ev@, i as int, name@, out@),
        decreases ev.len() - i,
    {
        match &ev[i].kind {
            XmlEventKind::Text(t) => {
                let decoded = match utf8(t.as_slice()) {
                    Ok(s) => s,
                    Err(e) => {
                        let m = concat("text decode error: ", utf8_error_text(&e).as_str());
                        proof {
                            lemma_prefix_of_concat("text decode error: "@, m@);
                        }
                        return Err(ReadError::Csdl(m));
                    },
                };
                let unescaped = match unescape(decoded.as_str()) {
                    Ok(s) => s,
                    Err(msg) => {
                        let m = concat("text unescape error: ", msg.as_str());
                        proof {
                            lemma_prefix_of_concat("text unescape error: "@, m@);
                        }
                        return Err(ReadError::Csdl(m));
                    },
                };
                out = concat(out.as_str(), unescaped.as_str());
            },
            XmlEventKind::CData(t) => {
                let s = match utf8(t.as_slice()) {
                    Ok(s) => s,
                    Err(e) => {
                        return Err(ReadError::Utf8(e));
                    },
                };
                out = concat(out.as_str(), s.as_str());
            },
            XmlEventKind::End { name: n } => {
                let n = match local_name(n) {
                    Ok(n) => n,
                    Err(e) => {
                        return Err(e);
                    },
                };
                if str_eq(n.as_str(), name) {
                    return Ok((out, i + 1));
                }
                let m = concat3(tag("unexpected </", n.as_str(), ">").as_str(), " in text body of ", tag("<", name, ">").as_str());
                return Err(csdl_err(ev, i, m.as_str()));
            },
            XmlEventKind::Comment => {},
            XmlEventKind::Eof => {
                let m = concat("unexpected EOF in text body of ", tag("<", name, ">").as_str());
                return Err(csdl_err(ev, i, m.as_str()));
            },
            _ => {
                let m = concat("unexpected non-text event in ", tag("<", name, ">").as_str());
                return Err(csdl_err(ev, i, m.as_str()));
            },
        }
        i = i + 1;
    }
    Err(ReadError::Csdl(owned("unexpected end of the XML events")))
}

/// `a` begins `m` when `m` is `a` followed by more.
proof fn lemma_prefix_of_concat(a: Seq<char>, m: Seq<char>)
    requires
        exists|b: Seq<char>| m == a + b,
    ensures
        a.is_prefix_of(m),
{
    let b = choose|b: Seq<char>| m == a + b;
    assert(m.subrange(0, a.len() as int) =~= a);
}

/// Reads annotation expressions up to the end tag of `parent`.
fn read_expression_list(ev: &Vec<XmlEvent>, pos: usize, parent: &str) -> (r: Result<
    (Vec<CsdlAnnotationExpression>, usize),
    ReadError,
>)
    requires
        pos <= ev@.len(),
    ensures
        match exprs_from(ev@, pos as int, parent@, Seq::empty()) {
            Ok((x, p)) => r matches Ok((v, q)) && expr_views(v@) == x && q == p,
            Err(f) => r matches Err(e) && fails_as(e, f),
        },
        r matches Ok((_, p)) ==> pos < p <= ev@.len(),
    decreases ev@.len() - pos, 1nat,
{
    let mut out: Vec<CsdlAnnotationExpression> = Vec::new();
    let mut i: usize = pos;
    proof {
        assert(expr_views(out@) =~= Seq::<ExprView>::empty());
    }
    while i < ev.len()
        invariant
            pos <= i <= ev@.len(),
            exprs_from(ev@, pos as int, parent@, Seq::empty()) == exprs_from(ev@, i as int, parent@, expr_views(out@)),
        decreases ev.len() - i,
    {
        match &ev[i].kind {
            XmlEventKind::Start { name, attributes } => {
                let (n, a) = match parse_start(name, attributes) {
                    Ok(x) => x,
                    Err(e) => {
                        return Err(e);
                    },
                };
                let (x, next) = match build_expr_from_start(ev, i + 1, n.as_str(), a) {
                    Ok(x) => x,
                    Err(e) => {
                        return Err(e);
                    },
                };
                let ghost o = out@;
                out.push(x);
                proof {
                    lemma_expr_views_push(o, x);
                }
                i = next;
            },
            XmlEventKind::Empty { name, attributes } => {
                let (n, a) = match parse_start(name, attributes) {
                    Ok(x) => x,
                    Err(e) => {
                        return Err(e);
                    },
                };
                let x = build_expr_from_empty(n.as_str(), &a);
                let ghost o = out@;
                out.push(x);
                proof {
                    lemma_expr_views_push(o, x);
                }
                i = i + 1;
            },
            XmlEventKind::End { name } => {
                let n = match local_name(name) {
                    Ok(n) => n,
                    Err(e) => {
                        return Err(e);
                    },
                };
                if str_eq(n.as_str(), parent) {
                    return Ok((out, i + 1));
                }
                let m = concat3(tag("unexpected </", n.as_str(), ">").as_str(), " in ", tag("<", parent, ">").as_str());
                return Err(csdl_err(ev, i, m.as_str()));
            },
            XmlEventKind::Eof => {
                let m = concat("unexpected EOF in ", tag("<", parent, ">").as_str());
                return Err(csdl_err(ev, i, m.as_str()));
            },
            _ => {
                i = i + 1;
            },
        }
    }
    Err(ReadError::Csdl(owned("unexpected end of the XML events")))
}

fn exact_error(name: &str, n: u64, got: usize) -> (r: ReadError)
    ensures
        csdl_message(r) == Some(exact_msg(name@, n as nat, got as nat)),
{
    let a = concat3(tag("<", name, ">").as_str(), " expects ", to_decimal(n as u128).as_str());
    let b = concat3(a.as_str(), " children, got ", to_decimal(got as u128).as_str());
    ReadError::Csdl(b)
}

fn binary_operator(name: &str) -> (r: Option<BinaryOperator>)
    ensures
        r == binary_of_name(name@),
{
    if str_eq(name, "And") {
        Some(BinaryOperator::And)
    } else if str_eq(name, "Or") {
        Some(BinaryOperator::Or)
    } else if str_eq(name, "Eq") {
        Some(BinaryOperator::Eq)
    } else if str_eq(name, "Ne") {
        Some(BinaryOperator::Ne)
    } else if str_eq(name, "Gt") {
        Some(BinaryOperator::Gt)
    } else if str_eq(name, "Ge") {
        Some(BinaryOperator::Ge)
    } else if str_eq(name, "Lt") {
        Some(BinaryOperator::Lt)
    } else if str_eq(name, "Le") {
        Some(BinaryOperator::Le)
    } else {
        None
    }
}

/// The one expression an element must hold.
fn single(name: &str, mut c: Vec<CsdlAnnotationExpression>) -> (r: Result<CsdlAnnotationExpression, ReadError>)
    ensures
        c@.len() == 1 ==> r == Ok::<CsdlAnnotationExpression, ReadError>(c@[0]),
        c@.len() != 1 ==> (r matches Err(e) && csdl_message(e) == Some(exact_msg(name@, 1, c@.len()))),
{
    if c.len() != 1 {
        return Err(exact_error(name, 1, c.len()));
    }
    Ok(c.remove(0))
}

/// The expression element `name` with text `t` spells.
fn text_to_expr(name: &str, t: String) -> (r: CsdlAnnotationExpression)
    ensures
        expr_view(r) == text_expr(name@, t@),
{
    if str_eq(name, "Binary") {
        return CsdlAnnotationExpression::Binary(t.as_str().as_bytes_vec());
    }
    if str_eq(name, "Bool") {
        return CsdlAnnotationExpression::Bool(true_text(t.as_str()));
    }
    if str_eq(name, "Date") {
        return CsdlAnnotationExpression::Date(t);
    }
    if str_eq(name, "DateTimeOffset") {
        return CsdlAnnotationExpression::DateTimeOffset(t);
    }
    if str_eq(name, "Decimal") {
        return CsdlAnnotationExpression::Decimal(t);
    }
    if str_eq(name, "Duration") {
        return CsdlAnnotationExpression::Duration(t);
    }
    if str_eq(name, "EnumMember") {
        return CsdlAnnotationExpression::EnumMember(t);
    }
    if str_eq(name, "Float") {
        return CsdlAnnotationExpression::Float(t);
    }
    if str_eq(name, "Guid") {
        return CsdlAnnotationExpression::Guid(t);
    }
    if str_eq(name, "Int") {
        return CsdlAnnotationExpression::Int(
            match parse_i64(t.as_str()) {
                Some(x) => x,
                None => 0,
            },
        );
    }
    if str_eq(name, "String") {
        return CsdlAnnotationExpression::String(t);
    }
    if str_eq(name, "TimeOfDay") {
        return CsdlAnnotationExpression::TimeOfDay(t);
    }
    if str_eq(name, "Path") {
        return CsdlAnnotationExpression::Path(t);
    }
    if str_eq(name, "PropertyPath") {
        return CsdlAnnotationExpression::PropertyPath(t);
    }
    if str_eq(name, "NavigationPropertyPath") {
        return CsdlAnnotationExpression::NavigationPropertyPath(t);
    }
    if str_eq(name, "AnnotationPath") {
        return CsdlAnnotationExpression::AnnotationPath(t);
    }
    CsdlAnnotationExpression::LabeledElementReference(t)
}

/// Builds the expression element `name` whose start tag was just read; `pos`
/// is the event after it.
fn build_expr_from_start(
    ev: &Vec<XmlEvent>,
    pos: usize,
    name: &str,
    attrs: Vec<(String, String)>,
) -> (r: Result<(CsdlAnnotationExpression, usize), ReadError>)
    requires
        0 < pos <= ev@.len(),
    ensures
        match expr_start(ev@, pos as int, name@, attr_views(attrs@)) {
            Ok((x, p)) => r matches Ok((e, q)) && expr_view(e) == x && q == p,
            Err(f) => r matches Err(e) && fails_as(e, f),
        },
        r matches Ok((_, p)) ==> pos < p <= ev@.len(),
    decreases ev@.len() - pos, 2nat,
{
    let ghost av = attr_views(attrs@);
    proof {
        lemma_attr_of(attrs@, "Function"@);
        lemma_attr_of(attrs@, "Type"@);
        lemma_attr_of(attrs@, "Name"@);
        reveal_strlit("");
        assert(""@ =~= Seq::<char>::empty());
    }
    if str_eq(name, "Binary") || str_eq(name, "Bool") || str_eq(name, "Date") || str_eq(
        name,
        "DateTimeOffset",
    ) || str_eq(name, "Decimal") || str_eq(name, "Duration") || str_eq(name, "EnumMember")
        || str_eq(name, "Float") || str_eq(name, "Guid") || str_eq(name, "Int") || str_eq(
        name,
        "String",
    ) || str_eq(name, "TimeOfDay") || str_eq(name, "Path") || str_eq(name, "PropertyPath")
        || str_eq(name, "NavigationPropertyPath") || str_eq(name, "AnnotationPath") || str_eq(
        name,
        "LabeledElementReference",
    ) {
        let (t, p) = match read_text_body(ev, pos, name) {
            Ok(x) => x,
            Err(e) => {
                return Err(e);
            },
        };
        return Ok((text_to_expr(name, t), p));
    }
    if str_eq(name, "Not") || str_eq(name, "UrlRef") {
        let (c, p) = match read_expression_list(ev, pos, name) {
            Ok(x) => x,
            Err(e) => {
                return Err(e);
            },
        };
        proof {
            lemma_expr_views(c@);
        }
        let inner = match single(name, c) {
            Ok(x) => x,
            Err(e) => {
                return Err(e);
            },
        };
        if str_eq(name, "Not") {
            return Ok((CsdlAnnotationExpression::Not(Box::new(inner)), p));
        }
        return Ok((CsdlAnnotationExpression::UrlRef(Box::new(inner)), p));
    }
    if let Some(op) = binary_operator(name) {
        let (mut c, p) = match read_expression_list(ev, pos, name) {
            Ok(x) => x,
            Err(e) => {
                return Err(e);
            },
        };
        proof {
            lemma_expr_views(c@);
        }
        if c.len() != 2 {
            return Err(exact_error(name, 2, c.len()));
        }
        let ghost c0 = c@;
        let rhs = c.remove(1);
        let lhs = c.remove(0);
        assert(lhs == c0[0] && rhs == c0[1]);
        return Ok((CsdlAnnotationExpression::BinaryExpression { op, lhs: Box::new(lhs), rhs: Box::new(rhs) }, p));
    }
    if str_eq(name, "If") {
        let (mut c, p) = match read_expression_list(ev, pos, name) {
            Ok(x) => x,
            Err(e) => {
                return Err(e);
            },
        };
        proof {
            lemma_expr_views(c@);
        }
        if c.len() != 2 && c.len() != 3 {
            let m = concat("<If> expects 2 or 3 children, got ", to_decimal(c.len() as u128).as_str());
            return Err(csdl_err(ev, p - 1, m.as_str()));
        }
        let ghost c0 = c@;
        let else_ = if c.len() == 3 {
            Some(Box::new(c.remove(2)))
        } else {
            None
        };
        let then_ = Box::new(c.remove(1));
        let test = Box::new(c.remove(0));
        assert(*test == c0[0] && *then_ == c0[1]);
        return Ok((CsdlAnnotationExpression::If { test, then_, else_ }, p));
    }
    if str_eq(name, "Apply") {
        let function = match attr_value(&attrs, "Function") {
            Some(f) => f,
            None => owned(""),
        };
        let (args, p) = match read_expression_list(ev, pos, name) {
            Ok(x) => x,
            Err(e) => {
                return Err(e);
            },
        };
        return Ok((CsdlAnnotationExpression::Apply { function, args }, p));
    }
    if str_eq(name, "Cast") || str_eq(name, "IsOf") || str_eq(name, "LabeledElement") {
        let key = if str_eq(name, "LabeledElement") {
            "Name"
        } else {
            "Type"
        };
        let label = match attr_value(&attrs, key) {
            Some(f) => f,
            None => owned(""),
        };
        let (c, p) = match read_expression_list(ev, pos, name) {
            Ok(x) => x,
            Err(e) => {
                return Err(e);
            },
        };
        proof {
            lemma_expr_views(c@);
        }
        let expr = match single(name, c) {
            Ok(x) => Box::new(x),
            Err(e) => {
                return Err(e);
            },
        };
        if str_eq(name, "Cast") {
            return Ok((CsdlAnnotationExpression::Cast { type_: label, expr }, p));
        } else if str_eq(name, "IsOf") {
            return Ok((CsdlAnnotationExpression::IsOf { type_: label, expr }, p));
        }
        return Ok((CsdlAnnotationExpression::LabeledElement { name: label, expr }, p));
    }
    if str_eq(name, "Collection") {
        let (items, p) = match read_expression_list(ev, pos, name) {
            Ok(x) => x,
            Err(e) => {
                return Err(e);
            },
        };
        return Ok((CsdlAnnotationExpression::Collection(items), p));
    }
    if str_eq(name, "Record") {
        let type_ = attr_value(&attrs, "Type");
        let (properties, annotations, p) = match read_record_body(ev, pos, name) {
            Ok(x) => x,
            Err(e) => {
                return Err(e);
            },
        };
        return Ok((CsdlAnnotationExpression::Record { type_, properties, annotations }, p));
    }
    if str_eq(name, "Null") {
        let p = match expect_end(ev, pos, name) {
            Ok(p) => p,
            Err(e) => {
                return Err(e);
            },
        };
        return Ok((CsdlAnnotationExpression::Null, p));
    }
    let m = concat("unknown expression element ", tag("<", name, ">").as_str());
    Err(csdl_err(ev, pos - 1, m.as_str()))
}

/// The expression a self-closing element spells.
pub fn build_expr_from_empty(name: &str, attrs: &Vec<(String, String)>) -> (r: CsdlAnnotationExpression)
    ensures
        expr_view(r) == empty_expr(name@, attr_views(attrs@)),
{
    proof {
        lemma_attr_of(attrs@, "Type"@);
        lemma_attr_of(attrs@, "Function"@);
        reveal_strlit("");
        assert(""@ =~= Seq::<char>::empty());
    }
    if str_eq(name, "Null") {
        return CsdlAnnotationExpression::Null;
    }
    if str_eq(name, "Binary") {
        return CsdlAnnotationExpression::Binary(Vec::new());
    }
    if str_eq(name, "Bool") {
        return CsdlAnnotationExpression::Bool(false);
    }
    if str_eq(name, "Date") {
        return CsdlAnnotationExpression::Date(owned(""));
    }
    if str_eq(name, "DateTimeOffset") {
        return CsdlAnnotationExpression::DateTimeOffset(owned(""));
    }
    if str_eq(name, "Decimal") {
        return CsdlAnnotationExpression::Decimal(owned(""));
    }
    if str_eq(name, "Duration") {
        return CsdlAnnotationExpression::Duration(owned(""));
    }
    if str_eq(name, "EnumMember") {
        return CsdlAnnotationExpression::EnumMember(owned(""));
    }
    if str_eq(name, "Float") {
        return CsdlAnnotationExpression::Float(owned("0"));
    }
    if str_eq(name, "Guid") {
        return CsdlAnnotationExpression::Guid(owned(""));
    }
    if str_eq(name, "Int") {
        return CsdlAnnotationExpression::Int(0);
    }
    if str_eq(name, "String") {
        return CsdlAnnotationExpression::String(owned(""));
    }
    if str_eq(name, "TimeOfDay") {
        return CsdlAnnotationExpression::TimeOfDay(owned(""));
    }
    if str_eq(name, "Path") {
        return CsdlAnnotationExpression::Path(owned(""));
    }
    if str_eq(name, "PropertyPath") {
        return CsdlAnnotationExpression::PropertyPath(owned(""));
    }
    if str_eq(name, "NavigationPropertyPath") {
        return CsdlAnnotationExpression::NavigationPropertyPath(owned(""));
    }
    if str_eq(name, "AnnotationPath") {
        return CsdlAnnotationExpression::AnnotationPath(owned(""));
    }
    if str_eq(name, "LabeledElementReference") {
        return CsdlAnnotationExpression::LabeledElementReference(owned(""));
    }
    if str_eq(name, "Collection") {
        let items: Vec<CsdlAnnotationExpression> = Vec::new();
        assert(expr_views(items@) =~= Seq::<ExprView>::empty());
        return CsdlAnnotationExpression::Collection(items);
    }
    if str_eq(name, "Record") {
        let type_ = attr_value(attrs, "Type");
        let properties: Vec<PropertyValue> = Vec::new();
        let annotations: Vec<Annotation> = Vec::new();
        assert(property_value_views(properties@) =~= Seq::<PropertyValueView>::empty());
        assert(annotation_views(annotations@) =~= Seq::<AnnotationView>::empty());
        return CsdlAnnotationExpression::Record { type_, properties, annotations };
    }
    if str_eq(name, "Apply") {
        let function = match attr_value(attrs, "Function") {
            Some(f) => f,
            None => owned(""),
        };
        let args: Vec<CsdlAnnotationExpression> = Vec::new();
        assert(expr_views(args@) =~= Seq::<ExprView>::empty());
        return CsdlAnnotationExpression::Apply { function, args };
    }
    CsdlAnnotationExpression::Null
}

/// Reads the body of a `Record` up to its end tag: property values and
/// annotations.
fn read_record_body(ev: &Vec<XmlEvent>, pos: usize, parent: &str) -> (r: Result<
    (Vec<PropertyValue>, Vec<Annotation>, usize),
    ReadError,
>)
    requires
        pos <= ev@.len(),
    ensures
        match record_from(ev@, pos as int, parent@, Seq::empty(), Seq::empty()) {
            Ok((pv, an, p)) => r matches Ok((v, w, q)) && property_value_views(v@) == pv && annotation_views(w@)
                == an && q == p,
            Err(f) => r matches Err(e) && fails_as(e, f),
        },
        r matches Ok((_, _, p)) ==> pos < p <= ev@.len(),
    decreases ev@.len() - pos, 1nat,
{
    let mut properties: Vec<PropertyValue> = Vec::new();
    let mut annotations: Vec<Annotation> = Vec::new();
    let mut i: usize = pos;
    proof {
        assert(property_value_views(properties@) =~= Seq::<PropertyValueView>::empty());
        assert(annotation_views(annotations@) =~= Seq::<AnnotationView>::empty());
        reveal_strlit("");
        assert(""@ =~= Seq::<char>::empty());
    }
    while i < ev.len()
        invariant
            pos <= i <= ev@.len(),
            record_from(ev@, pos as int, parent@, Seq::empty(), Seq::empty()) == record_from(
                ev@,
                i as int,
                parent@,
                property_value_views(properties@),
                annotation_views(annotations@),
            ),
            ""@ == Seq::<char>::empty(),
        decreases ev.len() - i,
    {
        match &ev[i].kind {
            XmlEventKind::Start { name, attributes } => {
                let (n, a) = match parse_start(name, attributes) {
                    Ok(x) => x,
                    Err(e) => {
                        return Err(e);
                    },
                };
                if str_eq(n.as_str(), "PropertyValue") {
                    let (v, next) = match read_property_value_start(ev, i + 1, a) {
                        Ok(x) => x,
                        Err(e) => {
                            return Err(e);
                        },
                    };
                    let ghost o = properties@;
                    properties.push(v);
                    proof {
                        lemma_property_value_views_push(o, v);
                    }
                    i = next;
                } else if str_eq(n.as_str(), "Annotation") {
                    let (v, next) = match read_annotation_start(ev, i + 1, a) {
                        Ok(x) => x,
                        Err(e) => {
                            return Err(e);
                        },
                    };
                    let ghost o = annotations@;
                    annotations.push(v);
                    proof {
                        lemma_annotation_views_push(o, v);
                    }
                    i = next;
                } else {
                    let m = concat3(
                        concat3("unexpected ", tag("<", n.as_str(), ">").as_str(), " in ").as_str(),
                        tag("<", parent, ">").as_str(),
                        " (expected PropertyValue or Annotation)",
                    );
                    return Err(csdl_err(ev, i, m.as_str()));
                }
            },
            XmlEventKind::Empty { name, attributes } => {
                let (n, mut a) = match parse_start(name, attributes) {
                    Ok(x) => x,
                    Err(e) => {
                        return Err(e);
                    },
                };
                let ghost av = attr_views(a@);
                proof {
                    lemma_attr_of(a@, "Property"@);
                }
                if str_eq(n.as_str(), "PropertyValue") {
                    let property = match attr_value(&a, "Property") {
                        Some(p) => p,
                        None => owned(""),
                    };
                    let value = take_inline(&mut a);
                    let pv_annotations: Vec<Annotation> = Vec::new();
                    assert(annotation_views(pv_annotations@) =~= Seq::<AnnotationView>::empty());
                    let v = PropertyValue { property, value, annotations: pv_annotations };
                    assert(property_value_view(v) == PropertyValueView {
                        property: text_or_empty(attr_of(av, "Property"@)),
                        value: inline_of(av),
                        annotations: Seq::empty(),
                    });
                    let ghost o = properties@;
                    properties.push(v);
                    proof {
                        lemma_property_value_views_push(o, v);
                    }
                } else if str_eq(n.as_str(), "Annotation") {
                    let v = read_annotation_empty(a);
                    let ghost o = annotations@;
                    annotations.push(v);
                    proof {
                        lemma_annotation_views_push(o, v);
                    }
                } else {
                    let m = concat3(
                        concat3("unexpected ", tag("<", n.as_str(), "/>").as_str(), " in ").as_str(),
                        tag("<", parent, ">").as_str(),
                        " (expected PropertyValue or Annotation)",
                    );
                    return Err(csdl_err(ev, i, m.as_str()));
                }
                i = i + 1;
            },
            XmlEventKind::End { name } => {
                let n = match local_name(name) {
                    Ok(n) => n,
                    Err(e) => {
                        return Err(e);
                    },
                };
                if str_eq(n.as_str(), parent) {
                    return Ok((properties, annotations, i + 1));
                }
                let m = concat3(tag("unexpected </", n.as_str(), ">").as_str(), " in ", tag("<", parent, ">").as_str());
                return Err(csdl_err(ev, i, m.as_str()));
            },
            XmlEventKind::Eof => {
                let m = concat("unexpected EOF in ", tag("<", parent, ">").as_str());
                return Err(csdl_err(ev, i, m.as_str()));
            },
            _ => {
                i = i + 1;
            },
        }
    }
    Err(ReadError::Csdl(owned("unexpected end of the XML events")))
}

/// Reads the rest of a `PropertyValue` element: its value is the inline
/// one, else the first expression of its body.
#[verifier::rlimit(60)]
fn read_property_value_start(ev: &Vec<XmlEvent>, pos: usize, attrs: Vec<(String, String)>) -> (r:
    Result<(PropertyValue, usize), ReadError>)
    requires
        pos <= ev@.len(),
    ensures
        match pv_from(
            ev@,
            pos as int,
            text_or_empty(attr_of(attr_views(attrs@), "Property"@)),
            inline_of(attr_views(attrs@)),
            Seq::empty(),
            Seq::empty(),
        ) {
            Ok((v, p)) => r matches Ok((x, q)) && property_value_view(x) == v && q == p,
            Err(f) => r matches Err(e) && fails_as(e, f),
        },
        r matches Ok((_, p)) ==> pos < p <= ev@.len(),
    decreases ev@.len() - pos, 1nat,
{
    let ghost av = attr_views(attrs@);
    proof {
        lemma_attr_of(attrs@, "Property"@);
        reveal_strlit("");
        assert(""@ =~= Seq::<char>::empty());
    }
    let mut own = attrs;
    let property = match attr_value(&own, "Property") {
        Some(p) => p,
        None => owned(""),
    };
    let inline = take_inline(&mut own);
    let ghost iv = inline_of(av);
    let mut body_values: Vec<CsdlAnnotationExpression> = Vec::new();
    let mut annotations: Vec<Annotation> = Vec::new();
    let mut i: usize = pos;
    proof {
        assert(expr_views(body_values@) =~= Seq::<ExprView>::empty());
        assert(annotation_views(annotations@) =~= Seq::<AnnotationView>::empty());
    }
    while i < ev.len()
        invariant
            pos <= i <= ev@.len(),
            av == attr_views(attrs@),
            iv == inline_of(av),
            property@ == text_or_empty(attr_of(av, "Property"@)),
            match inline {
                Some(e) => iv == Some(expr_view(e)),
                None => iv is None,
            },
            pv_from(ev@, pos as int, property@, iv, Seq::empty(), Seq::empty()) == pv_from(
                ev@,
                i as int,
                property@,
                iv,
                expr_views(body_values@),
                annotation_views(annotations@),
            ),
        decreases ev.len() - i,
    {
        match &ev[i].kind {
            XmlEventKind::Start { name, attributes } => {
                let (n, a) = match parse_start(name, attributes) {
                    Ok(x) => x,
                    Err(e) => {
                        return Err(e);
                    },
                };
                if str_eq(n.as_str(), "Annotation") {
                    let (v, next) = match read_annotation_start(ev, i + 1, a) {
                        Ok(x) => x,
                        Err(e) => {
                            return Err(e);
                        },
                    };
                    let ghost o = annotations@;
                    annotations.push(v);
                    proof {
                        lemma_annotation_views_push(o, v);
                    }
                    i = next;
                } else {
                    let (v, next) = match build_expr_from_start(ev, i + 1, n.as_str(), a) {
                        Ok(x) => x,
                        Err(e) => {
                            return Err(e);
                        },
                    };
                    let ghost o = body_values@;
                    body_values.push(v);
                    proof {
                        lemma_expr_views_push(o, v);
                    }
                    i = next;
                }
            },
            XmlEventKind::Empty { name, attributes } => {
                let (n, a) = match parse_start(name, attributes) {
                    Ok(x) => x,
                    Err(e) => {
                        return Err(e);
                    },
                };
                if str_eq(n.as_str(), "Annotation") {
                    let v = read_annotation_empty(a);
                    let ghost o = annotations@;
                    annotations.push(v);
                    proof {
                        lemma_annotation_views_push(o, v);
                    }
                } else {
                    let v = build_expr_from_empty(n.as_str(), &a);
                    let ghost o = body_values@;
                    body_values.push(v);
                    proof {
                        lemma_expr_views_push(o, v);
                    }
                }
                i = i + 1;
            },
            XmlEventKind::End { name } => {
                let n = match local_name(name) {
                    Ok(n) => n,
                    Err(e) => {
                        return Err(e);
                    },
                };
                if str_eq(n.as_str(), "PropertyValue") {
                    let ghost bv = body_values@;
                    proof {
                        lemma_expr_views(bv);
                    }
                    let value = pick_first_value(inline, body_values);
                    let ghost anv = annotation_views(annotations@);
                    let v = PropertyValue { property, value, annotations };
                    assert(property_value_view(v) == PropertyValueView {
                        property: property@,
                        value: first_value(iv, expr_views(bv)),
                        annotations: anv,
                    });
                    return Ok((v, i + 1));
                }
                let m = concat(tag("unexpected </", n.as_str(), ">").as_str(), " in <PropertyValue>");
                return Err(csdl_err(ev, i, m.as_str()));
            },
            XmlEventKind::Eof => {
                return Err(csdl_err(ev, i, "unexpected EOF in <PropertyValue>"));
            },
            _ => {
                i = i + 1;
            },
        }
    }
    Err(ReadError::Csdl(owned("unexpected end of the XML events")))
}

/// The inline value if there is one, else the first body value.
pub fn pick_first_value(
    inline: Option<CsdlAnnotationExpression>,
    mut body: Vec<CsdlAnnotationExpression>,
) -> (r: Option<CsdlAnnotationExpression>)
    ensures
        inline is Some ==> r == inline,
        inline is None ==> (r is None <==> body@.len() == 0),
        inline is None && body@.len() > 0 ==> r == Some(body@[0]),
{
    match inline {
        Some(v) => Some(v),
        None => if body.len() == 0 {
            None
        } else {
            Some(body.swap_remove(0))
        },
    }
}

/// Reads the rest of an `Annotation` element that is not self-closing.
fn read_annotation_start(ev: &Vec<XmlEvent>, pos: usize, attrs: Vec<(String, String)>) -> (r: Result<
    (Annotation, usize),
    ReadError,
>)
    requires
        pos <= ev@.len(),
    ensures
        match annotation_start(ev@, pos as int, attr_views(attrs@)) {
            Ok((v, p)) => r matches Ok((x, q)) && annotation_view(x) == v && q == p,
            Err(f) => r matches Err(e) && fails_as(e, f),
        },
        r matches Ok((_, p)) ==> pos < p <= ev@.len(),
    decreases ev@.len() - pos, 2nat,
{
    let ghost av = attr_views(attrs@);
    proof {
        lemma_attr_of(attrs@, "Term"@);
        lemma_attr_of(attrs@, "Qualifier"@);
        lemma_attr_of(attrs@, "Target"@);
        reveal_strlit("");
        assert(""@ =~= Seq::<char>::empty());
    }
    let mut attrs = attrs;
    let term = match attr_value(&attrs, "Term") {
        Some(t) => t,
        None => owned(""),
    };
    let qualifier = attr_value(&attrs, "Qualifier");
    let target = attr_value(&attrs, "Target");
    let inline = take_inline(&mut attrs);
    let (mut body, p) = match read_expression_list(ev, pos, "Annotation") {
        Ok(x) => x,
        Err(e) => {
            return Err(e);
        },
    };
    proof {
        lemma_expr_views(body@);
    }
    let expression = match inline {
        Some(e) => Some(e),
        None => if body.len() == 0 {
            Some(CsdlAnnotationExpression::Bool(true))
        } else {
            Some(body.swap_remove(0))
        },
    };
    assert(term@ == text_or_empty(attr_of(av, "Term"@)));
    assert(opt_chars(qualifier) == attr_of(av, "Qualifier"@));
    assert(opt_chars(target) == attr_of(av, "Target"@));
    Ok((Annotation { term, qualifier, target, expression }, p))
}

/// A self-closing `Annotation` element; without an inline expression it
/// stands for `true`.
pub fn read_annotation_empty(attrs: Vec<(String, String)>) -> (r: Annotation)
    ensures
        annotation_view(r) == annotation_empty(attr_views(attrs@)),
{
    proof {
        lemma_attr_of(attrs@, "Term"@);
        lemma_attr_of(attrs@, "Qualifier"@);
        lemma_attr_of(attrs@, "Target"@);
        reveal_strlit("");
    }
    let ghost a0 = attr_views(attrs@);
    let mut attrs = attrs;
    let term = match attr_value(&attrs, "Term") {
        Some(t) => t,
        None => owned(""),
    };
    let qualifier = attr_value(&attrs, "Qualifier");
    let target = attr_value(&attrs, "Target");
    let expression = match take_inline(&mut attrs) {
        Some(e) => Some(e),
        None => Some(CsdlAnnotationExpression::Bool(true)),
    };
    let ghost av = a0;
    assert(term@ == text_or_empty(attr_of(av, "Term"@)));
    assert(opt_chars(qualifier) == attr_of(av, "Qualifier"@));
    assert(opt_chars(target) == attr_of(av, "Target"@));
    assert(match expression { Some(e) => Some(expr_view(e)), None => None } == Some(match inline_of(av) { Some(x) => x, None => ExprView::Bool(true) }));
    Annotation { term, qualifier, target, expression }
}

/// Skips text and comments up to the end tag of `name`.
fn expect_end(ev: &Vec<XmlEvent>, pos: usize, name: &str) -> (r: Result<usize, ReadError>)
    requires
        pos <= ev@.len(),
    ensures
        match end_from(ev@, pos as int, name@) {
            Ok(p) => r matches Ok(q) && q == p,
            Err(f) => r matches Err(e) && fails_as(e, f),
        },
        r matches Ok(p) ==> pos < p <= ev@.len(),
{
    let mut i: usize = pos;
    while i < ev.len()
        invariant
            pos <= i <= ev@.len(),
            end_from(ev@, pos as int, name@) == end_from(ev@, i as int, name@),
        decreases ev.len() - i,
    {
        match &ev[i].kind {
            XmlEventKind::End { name: n } => {
                let n = match local_name(n) {
                    Ok(n) => n,
                    Err(e) => {
                        return Err(e);
                    },
                };
                if str_eq(n.as_str(), name) {
                    return Ok(i + 1);
                }
                let m = concat3(tag("expected </", name, ">").as_str(), ", got ", tag("</", n.as_str(), ">").as_str());
                return Err(csdl_err(ev, i, m.as_str()));
            },
            XmlEventKind::Text(_) | XmlEventKind::CData(_) | XmlEventKind::Comment => {},
            XmlEventKind::Eof => {
                let m = concat("EOF while expecting ", tag("</", name, ">").as_str());
                return Err(csdl_err(ev, i, m.as_str()));
            },
            _ => {
                let m = concat("unexpected event while expecting ", tag("</", name, ">").as_str());
                return Err(csdl_err(ev, i, m.as_str()));
            },
        }
        i = i + 1;
    }
    Err(ReadError::Csdl(owned("unexpected end of the XML events")))
}

// ---------------------------------------------------------------------------
// Syntax units
// ---------------------------------------------------------------------------

/// Pushing a unit pushes its view.
proof fn lemma_unit_views_push(s: Seq<SyntaxUnit>, x: SyntaxUnit)
    ensures
        unit_views(s.push(x)) == unit_views(s).push(unit_view(x)),
{
    assert(unit_views(s.push(x)) =~= unit_views(s).push(unit_view(x)));
}

/// Pushes the units of a self-closing element.
fn push_empty_units(units: &mut Vec<SyntaxUnit>, n: String, a: Vec<(String, String)>)
    ensures
        unit_views(final(units)@) == unit_views(old(units)@) + empty_units(n@, attr_views(a@)),
{
    let ghost base = unit_views(units@);
    let ghost nv = n@;
    let ghost av = attr_views(a@);
    let mut a = a;
    if str_eq(n.as_str(), "Annotation") {
        let x = match take_inline(&mut a) {
            Some(x) => x,
            None => CsdlAnnotationExpression::Bool(true),
        };
        let u1 = SyntaxUnit::StartElement { name: n, attributes: a };
        let u2 = SyntaxUnit::AnnotationExpression(x);
        let u3 = SyntaxUnit::EndElement { name: owned("Annotation") };
        let ghost v = seq![unit_view(u1), unit_view(u2), unit_view(u3)];
        let ghost s0 = units@;
        units.push(u1);
        let ghost s1 = units@;
        units.push(u2);
        let ghost s2 = units@;
        units.push(u3);
        proof {
            lemma_unit_views_push(s0, u1);
            lemma_unit_views_push(s1, u2);
            lemma_unit_views_push(s2, u3);
            assert(unit_views(units@) =~= base + v);
            assert(v =~= empty_units(nv, av));
        }
    } else {
        let end = owned(n.as_str());
        let u1 = SyntaxUnit::StartElement { name: n, attributes: a };
        let u2 = SyntaxUnit::EndElement { name: end };
        let ghost v = seq![unit_view(u1), unit_view(u2)];
        let ghost s0 = units@;
        units.push(u1);
        let ghost s1 = units@;
        units.push(u2);
        proof {
            lemma_unit_views_push(s0, u1);
            lemma_unit_views_push(s1, u2);
            assert(unit_views(units@) =~= base + v);
            assert(v =~= empty_units(nv, av));
        }
    }
}

/// Pushes the units of an `Annotation` element with the expressions of
/// its body.
fn push_annotation_units(
    units: &mut Vec<SyntaxUnit>,
    n: String,
    a: Vec<(String, String)>,
    body: Vec<CsdlAnnotationExpression>,
)
    ensures
        unit_views(final(units)@) == unit_views(old(units)@) + annotation_units(n@, attr_views(a@), expr_views(body@)),
{
    let ghost base = unit_views(units@);
    let ghost nv = n@;
    let ghost av = attr_views(a@);
    let ghost bv = body@;
    let mut a = a;
    let mut body = body;
    let mut exprs: Vec<CsdlAnnotationExpression> = Vec::new();
    match take_inline(&mut a) {
        Some(x) => exprs.push(x),
        None => {},
    }
    let ghost lead = exprs@;
    exprs.append(&mut body);
    proof {
        lemma_expr_views(lead);
        lemma_expr_views(bv);
        lemma_expr_views(exprs@);
        let given = match inline_of(av) {
            Some(x) => seq![x] + expr_views(bv),
            None => expr_views(bv),
        };
        assert(expr_views(exprs@) =~= given);
    }
    if exprs.len() == 0 {
        let t = CsdlAnnotationExpression::Bool(true);
        let ghost o = exprs@;
        exprs.push(t);
        proof {
            lemma_expr_views_push(o, t);
            assert(expr_views(o) =~= Seq::<ExprView>::empty());
        }
    }
    let ghost xs = exprs@;
    proof {
        assert(expr_views(xs) =~= annotation_exprs(av, expr_views(bv)));
    }
    let ghost s0 = units@;
    let st = SyntaxUnit::StartElement { name: n, attributes: a };
    let ghost stv = unit_view(st);
    units.push(st);
    proof {
        lemma_unit_views_push(s0, st);
        lemma_expr_views(xs);
        assert(expression_units(expr_views(xs).take(0)) =~= Seq::<UnitView>::empty());
        assert(base.push(stv) =~= base.push(stv) + expression_units(expr_views(xs).take(0)));
    }
    let mut k: usize = 0;
    let total = exprs.len();
    while k < total
        invariant
            k <= total == xs.len(),
            exprs@ == xs.skip(k as int),
            expr_views(xs).len() == xs.len(),
            forall|j: int| 0 <= j < xs.len() ==> #[trigger] expr_views(xs)[j] == expr_view(xs[j]),
            unit_views(units@) == base.push(stv) + expression_units(expr_views(xs).take(k as int)),
        decreases total - k,
    {
        proof {
            assert(exprs@[0] == xs[k as int]);
        }
        let x = exprs.remove(0);
        proof {
            assert(exprs@ =~= xs.skip(k + 1));
        }
        let u = SyntaxUnit::AnnotationExpression(x);
        let ghost s1 = units@;
        units.push(u);
        proof {
            lemma_unit_views_push(s1, u);
            assert(expression_units(expr_views(xs).take(k + 1)) =~= expression_units(expr_views(xs).take(k as int)).push(
                UnitView::Expression(expr_views(xs)[k as int]),
            ));
            assert(unit_views(units@) =~= base.push(stv) + expression_units(expr_views(xs).take(k + 1)));
        }
        k = k + 1;
    }
    let en = SyntaxUnit::EndElement { name: owned("Annotation") };
    let ghost s2 = units@;
    units.push(en);
    proof {
        lemma_unit_views_push(s2, en);
        assert(expr_views(xs).take(total as int) =~= expr_views(xs));
        assert(unit_views(units@) =~= base + annotation_units(nv, av, expr_views(bv)));
    }
}

/// The syntax units of a document's events, in order.
pub fn units_from_events(ev: &Vec<XmlEvent>) -> (r: Result<Vec<SyntaxUnit>, ReadError>)
    ensures
        match units_from(ev@, 0, Seq::empty()) {
            Ok(u) => r matches Ok(v) && unit_views(v@) == u,
            Err(f) => r matches Err(e) && fails_as(e, f),
        },
{
    let mut units: Vec<SyntaxUnit> = Vec::new();
    let mut i: usize = 0;
    proof {
        assert(unit_views(units@) =~= Seq::<UnitView>::empty());
    }
    while i < ev.len()
        invariant
            i <= ev@.len(),
            units_from(ev@, 0, Seq::empty()) == units_from(ev@, i as int, unit_views(units@)),
        decreases ev.len() - i,
    {
        match &ev[i].kind {
            XmlEventKind::Eof => {
                return Ok(units);
            },
            XmlEventKind::Start { name, attributes } => {
                let (n, a) = match parse_start(name, attributes) {
                    Ok(x) => x,
                    Err(e) => {
                        return Err(e);
                    },
                };
                if str_eq(n.as_str(), "Annotation") {
                    let (body, next) = match read_expression_list(ev, i + 1, "Annotation") {
                        Ok(x) => x,
                        Err(e) => {
                            return Err(e);
                        },
                    };
                    push_annotation_units(&mut units, n, a, body);
                    i = next;
                } else {
                    let st = SyntaxUnit::StartElement { name: n, attributes: a };
                    let ghost s0 = units@;
                    units.push(st);
                    proof {
                        lemma_unit_views_push(s0, st);
                    }
                    i = i + 1;
                }
            },
            XmlEventKind::End { name } => {
                let n = match local_name(name) {
                    Ok(n) => n,
                    Err(e) => {
                        return Err(e);
                    },
                };
                let en = SyntaxUnit::EndElement { name: n };
                let ghost s0 = units@;
                units.push(en);
                proof {
                    lemma_unit_views_push(s0, en);
                }
                i = i + 1;
            },
            XmlEventKind::Empty { name, attributes } => {
                let (n, a) = match parse_start(name, attributes) {
                    Ok(x) => x,
                    Err(e) => {
                        return Err(e);
                    },
                };
                push_empty_units(&mut units, n, a);
                i = i + 1;
            },
            _ => {
                i = i + 1;
            },
        }
    }
    Ok(units)
}

/// The syntax units of an XML CSDL document.
pub fn read_units(input: &[u8]) -> (r: Result<Vec<SyntaxUnit>, ReadError>)
    ensures
        match xml_events(input@) {
            Err(f) => r matches Err(e) && read_failure(e, f),
            Ok(evs) => exists|ev: Seq<XmlEvent>| #[trigger] event_views(ev) == evs && match units_from(
                ev,
                0,
                Seq::empty(),
            ) {
                Ok(u) => r matches Ok(v) && unit_views(v@) == u,
                Err(f) => r matches Err(e) && fails_as(e, f),
            },
        },
{
    match read_events(input) {
        Ok(ev) => {
            let r = units_from_events(&ev);
            proof {
                assert(event_views(ev@) == event_views(ev@));
            }
            r
        },
        Err(e) => Err(e),
    }
}

} // verus!
