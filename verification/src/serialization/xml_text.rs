//! The CSDL XML text of a document: its XML events (see
//! [`crate::serialization::xml::xml_events`]) put down by `quick-xml`'s
//! writer, indented by four spaces.

use vstd::prelude::*;

use quick_xml::events::{BytesDecl, BytesEnd, BytesStart, BytesText, Event};
use quick_xml::Writer;

use crate::serialization::xml::{attrs_view, XmlOut, XmlOutView};

verus! {

#[verifier::external_type_specification]
#[verifier::external_body]
#[verifier::reject_recursive_types(W)]
pub struct ExWriter<W>(Writer<W>);

#[verifier::external_type_specification]
#[verifier::external_body]
pub struct ExIoError(std::io::Error);

/// What a writer over a byte buffer has been given: the byte it indents
/// with and how many of it per level, and the events written into it since
/// it was made.
pub uninterp spec fn writer_progress(w: Writer<Vec<u8>>) -> ((u8, nat), Seq<XmlOutView>);

/// The bytes `quick_xml::Writer::new_with_indent` (indenting with the byte
/// `indent.0`, `indent.1` times per level) puts into an empty buffer for
/// these events, in order.
pub uninterp spec fn indented_xml(indent: (u8, nat), events: Seq<XmlOutView>) -> Seq<u8>;

/// `quick_xml::Writer::new_with_indent` over an empty buffer, indenting
/// with `indent_char`, `indent_size` times per level. Nothing is written
/// yet.
#[verifier::external_body]
fn indenting_writer(indent_char: u8, indent_size: usize) -> (w: Writer<Vec<u8>>)
    ensures
        writer_progress(w) == ((indent_char, indent_size as nat), Seq::<XmlOutView>::empty()),
{
    Writer::new_with_indent(Vec::new(), indent_char, indent_size)
}

/// `Writer::write_event` with an XML declaration of the given version and
/// encoding. `write_event` fails only where its sink does, and this sink is
/// a `Vec<u8>`, into which a write does not fail; the same holds of the
/// writes below.
#[verifier::external_body]
fn write_decl(w: &mut Writer<Vec<u8>>, version: &str, encoding: &str) -> (r: Result<(), std::io::Error>)
    ensures
        r is Ok,
        version@ == "1.0"@ && encoding@ == "UTF-8"@ ==> writer_progress(*final(w)) == (writer_progress(*old(w)).0, writer_progress(*old(w)).1.push(XmlOutView::Decl)),
{
    w.write_event(Event::Decl(BytesDecl::new(version, Some(encoding), None)))
}

/// `Writer::write_event` with a start tag carrying the attributes in
/// order; `quick-xml` escapes their values.
#[verifier::external_body]
fn write_start(w: &mut Writer<Vec<u8>>, name: &str, attributes: &Vec<(String, String)>) -> (r: Result<(), std::io::Error>)
    ensures
        r is Ok,
        writer_progress(*final(w)) == (
            writer_progress(*old(w)).0,
            writer_progress(*old(w)).1.push(XmlOutView::Start { name: name@, attributes: attrs_view(attributes@) }),
        ),
{
    let tag = BytesStart::new(name).with_attributes(attributes.iter().map(|p| (p.0.as_str(), p.1.as_str())));
    w.write_event(Event::Start(tag))
}

/// `Writer::write_event` with an empty element carrying the attributes in
/// order; `quick-xml` escapes their values.
#[verifier::external_body]
fn write_empty(w: &mut Writer<Vec<u8>>, name: &str, attributes: &Vec<(String, String)>) -> (r: Result<(), std::io::Error>)
    ensures
        r is Ok,
        writer_progress(*final(w)) == (
            writer_progress(*old(w)).0,
            writer_progress(*old(w)).1.push(XmlOutView::Empty { name: name@, attributes: attrs_view(attributes@) }),
        ),
{
    let tag = BytesStart::new(name).with_attributes(attributes.iter().map(|p| (p.0.as_str(), p.1.as_str())));
    w.write_event(Event::Empty(tag))
}

/// `Writer::write_event` with an end tag.
#[verifier::external_body]
fn write_end(w: &mut Writer<Vec<u8>>, name: &str) -> (r: Result<(), std::io::Error>)
    ensures
        r is Ok,
        writer_progress(*final(w)) == (
            writer_progress(*old(w)).0,
            writer_progress(*old(w)).1.push(XmlOutView::End { name: name@ }),
        ),
{
    w.write_event(Event::End(BytesEnd::new(name)))
}

/// `Writer::write_event` with text, which `quick-xml` escapes.
#[verifier::external_body]
fn write_text(w: &mut Writer<Vec<u8>>, text: &str) -> (r: Result<(), std::io::Error>)
    ensures
        r is Ok,
        writer_progress(*final(w)) == (
            writer_progress(*old(w)).0,
            writer_progress(*old(w)).1.push(XmlOutView::Text(text@)),
        ),
{
    w.write_event(Event::Text(BytesText::new(text)))
}

/// `Writer::into_inner`: the buffer, holding what was written.
#[verifier::external_body]
fn written_bytes(w: Writer<Vec<u8>>) -> (r: Vec<u8>)
    ensures
        r@ == indented_xml(writer_progress(w).0, writer_progress(w).1),
{
    w.into_inner()
}

pub open spec fn xml_out_views(s: Seq<XmlOut>) -> Seq<XmlOutView> {
    s.map_values(|e: XmlOut| e@)
}

/// The XML text of the events: the bytes `quick-xml`'s writer, indenting
/// by four spaces (byte 32), puts down for them (see [`indented_xml`]).
pub fn xml_text(events: &Vec<XmlOut>) -> (r: Vec<u8>)
    ensures
        r@ == indented_xml((32u8, 4nat), xml_out_views(events@)),
{
    let mut w = indenting_writer(32, 4);
    let mut i: usize = 0;
    while i < events.len()
        invariant
            i <= events@.len(),
            writer_progress(w) == ((32u8, 4nat), xml_out_views(events@.take(i as int))),
        decreases events@.len() - i,
    {
        let step = match &events[i] {
            XmlOut::Decl => write_decl(&mut w, "1.0", "UTF-8"),
            XmlOut::Start { name, attributes } => write_start(&mut w, name.as_str(), attributes),
            XmlOut::Empty { name, attributes } => write_empty(&mut w, name.as_str(), attributes),
            XmlOut::End { name } => write_end(&mut w, name.as_str()),
            XmlOut::Text(text) => write_text(&mut w, text.as_str()),
        };
        match step {
            Ok(()) => {},
            Err(_) => {},
        }
        proof {
            assert(events@.take(i + 1) =~= events@.take(i as int).push(events@[i as int]));
            assert(xml_out_views(events@.take(i + 1)) =~= xml_out_views(events@.take(i as int)).push(
                events@[i as int]@,
            ));
        }
        i = i + 1;
    }
    proof {
        assert(events@.take(i as int) =~= events@);
    }
    written_bytes(w)
}

} // verus!
