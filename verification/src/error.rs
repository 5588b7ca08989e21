//! Errors of reading CSDL documents.

use vstd::prelude::*;

verus! {

#[verifier::external_type_specification]
#[verifier::external_body]
pub struct ExXmlError(quick_xml::Error);

#[verifier::external_type_specification]
#[verifier::external_body]
pub struct ExUtf8Error(core::str::Utf8Error);

/// What can go wrong reading a CSDL document: the XML is not well formed,
/// a name or value is not UTF-8, or the XML is not CSDL.
#[derive(Debug)]
pub enum ReadError {
    Xml(quick_xml::Error),
    Utf8(core::str::Utf8Error),
    Csdl(String),
}

/// The message of a CSDL error; `None` for the other kinds.
pub open spec fn csdl_message(e: ReadError) -> Option<Seq<char>> {
    match e {
        ReadError::Csdl(m) => Some(m@),
        _ => None,
    }
}

} // verus!
