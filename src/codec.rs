//! The calls into the XML tokenizer and the GZIP codec.

use vstd::prelude::*;
use crate::graph::{Attribute, Element, XmlEvent};
use std::io::Read;
use std::io::Write;
use quick_xml::events::BytesStart;
use quick_xml::events::Event::{Empty, End, Eof, Start, Text};
use quick_xml::Reader;

verus! {

#[verifier::external_type_specification]
#[verifier::external_body]
#[verifier::reject_recursive_types(R)]
pub struct ExXmlReader<R>(quick_xml::Reader<R>);

/// What GZIP decompression of the bytes gives, read as UTF-8 text; `None`
/// when the bytes are no GZIP stream of UTF-8 text.
pub uninterp spec fn gunzip_text(b: Seq<u8>) -> Option<Seq<char>>;

/// The GZIP stream, at the default level and with an empty header, of the
/// text's UTF-8 bytes.
pub uninterp spec fn gzip_bytes(s: Seq<char>) -> Seq<u8>;

/// Relies on quick_xml's `Reader::from_str` and `Config::trim_text`: a reader
/// over `text` that drops the white space around text.
#[verifier::external_body]
pub(crate) fn xml_reader<'a>(text: &'a str) -> quick_xml::Reader<&'a [u8]> {
    let mut reader = quick_xml::Reader::from_str(text);
    reader.config_mut().trim_text(true);
    reader
}

/// Relies on quick_xml's `Reader::read_event`: the next event, with names,
/// attribute values and unescaped texts as strings.
#[verifier::external_body]
pub(crate) fn next_xml_event(reader: &mut Reader<&[u8]>) -> XmlEvent {
    let el = |e: BytesStart| Element {
        tag: String::from_utf8_lossy(e.name().0).into_owned(),
        attrs: e.attributes().flatten().map(|a| Attribute {
            key: String::from_utf8_lossy(a.key.0).into_owned(), value: String::from_utf8_lossy(&a.value).into_owned() }).collect(),
    };
    match reader.read_event() {
        Ok(Start(e)) => XmlEvent::Start(el(e)),
        Ok(Empty(e)) => XmlEvent::Empty(el(e)),
        Ok(End(_)) => XmlEvent::End,
        Ok(Text(e)) => XmlEvent::Text(e.unescape().unwrap_or_default().into_owned()),
        Ok(Eof) => XmlEvent::Eof,
        Ok(_) => XmlEvent::Other,
        _ => XmlEvent::Malformed,
    }
}

/// Relies on flate2's `read::GzDecoder` and `Read::read_to_string`: the text
/// inside a GZIP stream, or `None` when decompression or UTF-8 decoding fails.
#[verifier::external_body]
pub(crate) fn gunzip(bytes: &[u8]) -> (r: Option<String>)
    ensures
        match r {
            Some(s) => gunzip_text(bytes@) == Some(s@),
            None => gunzip_text(bytes@) is None,
        },
{
    let mut out = String::new();
    match flate2::read::GzDecoder::new(bytes).read_to_string(&mut out) {
        Ok(_) => Some(out),
        Err(_) => None,
    }
}

/// Relies on flate2's `write::GzEncoder` at `Compression::default()`: the text
/// compressed into a GZIP stream; writing into memory cannot fail.
#[verifier::external_body]
pub(crate) fn gzip(text: &str) -> (r: Vec<u8>)
    ensures
        r@ == gzip_bytes(text@),
{
    let mut e = flate2::write::GzEncoder::new(Vec::new(), flate2::Compression::default());
    let _ = e.write_all(text.as_bytes());
    e.finish().unwrap_or_default()
}

} // verus!
