use vstd::prelude::*;

use quick_xml::events::{BytesEnd, BytesStart, BytesText, Event};
use quick_xml::Writer;
use std::io::Cursor;
use std::string::FromUtf8Error;
use vstd::utf8::{decode_utf8, valid_utf8};

verus! {

#[verifier::external_type_specification]
#[verifier::external_body]
#[verifier::reject_recursive_types(W)]
pub struct ExXmlWriter<W>(quick_xml::Writer<W>);

#[verifier::external_type_specification]
#[verifier::external_body]
#[verifier::reject_recursive_types(T)]
pub struct ExCursor<T>(std::io::Cursor<T>);

#[verifier::external_type_specification]
#[verifier::external_body]
pub struct ExXmlError(quick_xml::Error);

#[verifier::external_type_specification]
#[verifier::external_body]
pub struct ExFromUtf8Error(std::string::FromUtf8Error);

#[verifier::external_type_specification]
#[verifier::external_body]
pub struct ExIoError(std::io::Error);

/// Why an XML document could not be made.
pub enum XmlWriteError {
    FromUt8Error(FromUtf8Error),
    IOError(std::io::Error),
    WriterError(quick_xml::Error),
}

/// An XML event: a start tag with its attributes, an end tag, text, or an
/// empty element with its attributes.
pub enum XmlEvent {
    Start { name: String, attributes: Vec<(String, String)> },
    End { name: String },
    Text { text: String },
    Empty { name: String, attributes: Vec<(String, String)> },
}

/// An event as plain values: its kind (0 for a start tag, 1 for an end tag,
/// 2 for text, 3 for an empty element), the tag's name or the text, and the
/// attributes in order.
pub type XmlEventView = (u8, Seq<char>, Seq<(Seq<char>, Seq<char>)>);

/// The attributes as pairs of character sequences.
pub open spec fn attributes_view(attributes: Seq<(String, String)>) -> Seq<(Seq<char>, Seq<char>)> {
    Seq::new(attributes.len(), |i: int| (attributes[i].0@, attributes[i].1@))
}

pub open spec fn start_view(name: Seq<char>, attributes: Seq<(Seq<char>, Seq<char>)>) -> XmlEventView {
    (0u8, name, attributes)
}

pub open spec fn end_view(name: Seq<char>) -> XmlEventView {
    (1u8, name, Seq::empty())
}

pub open spec fn text_view(text: Seq<char>) -> XmlEventView {
    (2u8, text, Seq::empty())
}

pub open spec fn empty_view(name: Seq<char>, attributes: Seq<(Seq<char>, Seq<char>)>) -> XmlEventView {
    (3u8, name, attributes)
}

impl View for XmlEvent {
    type V = XmlEventView;

    open spec fn view(&self) -> XmlEventView {
        match self {
            XmlEvent::Start { name, attributes } => start_view(name@, attributes_view(attributes@)),
            XmlEvent::End { name } => end_view(name@),
            XmlEvent::Text { text } => text_view(text@),
            XmlEvent::Empty { name, attributes } => empty_view(name@, attributes_view(attributes@)),
        }
    }
}

/// The views of the events.
pub open spec fn events_view(events: Seq<XmlEvent>) -> Seq<XmlEventView> {
    Seq::new(events.len(), |i: int| events[i]@)
}

/// The events of each index of the order, one after the other.
pub open spec fn concat_map(order: Seq<usize>, f: spec_fn(usize) -> Seq<XmlEventView>) -> Seq<XmlEventView>
    decreases order.len(),
{
    if order.len() == 0 {
        Seq::empty()
    } else {
        concat_map(order.drop_last(), f) + f(order.last())
    }
}

pub proof fn lemma_concat_map_step(order: Seq<usize>, f: spec_fn(usize) -> Seq<XmlEventView>, i: int)
    requires
        0 <= i < order.len(),
    ensures
        concat_map(order.take(i + 1), f) == concat_map(order.take(i), f) + f(order[i]),
{
    assert(order.take(i + 1).drop_last() =~= order.take(i));
}

/// Appends the event.
pub fn push_event(events: &mut Vec<XmlEvent>, event: XmlEvent)
    ensures
        events_view(final(events)@) == events_view(old(events)@).push(event@),
{
    let ghost before = events@;
    events.push(event);
    assert(events_view(events@) =~= events_view(before).push(event@));
}

/// The events that were written into the writer, in order.
pub uninterp spec fn written_events(writer: Writer<Cursor<Vec<u8>>>) -> Seq<XmlEventView>;

/// The bytes that a quick_xml writer that indents nested elements by two
/// spaces produces for the events, written in order into an empty buffer.
pub uninterp spec fn xml_document(events: Seq<XmlEventView>) -> Seq<u8>;

/// `Writer::new_with_indent` over an empty in-memory buffer (a `Cursor` over
/// an empty `Vec`), indenting by two spaces: nothing is written into it yet.
#[verifier::external_body]
fn new_indented_writer() -> (res: Writer<Cursor<Vec<u8>>>)
    ensures
        written_events(res) == Seq::<XmlEventView>::empty(),
{
    Writer::new_with_indent(Cursor::new(Vec::new()), b' ', 2)
}

/// `Writer::write_event` with a start tag (`BytesStart`) with the attributes,
/// in order. `write_event` fails only when the underlying writer fails, and
/// writing into an in-memory `Cursor<Vec<u8>>` does not fail: the call
/// succeeds and the writer holds one more event.
#[verifier::external_body]
fn write_start_tag(
    writer: &mut Writer<Cursor<Vec<u8>>>,
    name: &str,
    attributes: &Vec<(String, String)>,
) -> (res: Result<(), quick_xml::Error>)
    ensures
        res is Ok,
        written_events(*final(writer)) == written_events(*old(writer)).push(start_view(name@, attributes_view(attributes@))),
{
    let start = BytesStart::new(name).with_attributes(attributes.iter().map(|(k, v)| (k.as_str(), v.as_str())));
    writer.write_event(Event::Start(start))
}

/// `Writer::write_event` with an end tag (`BytesEnd`); as for start tags.
#[verifier::external_body]
fn write_end_tag(writer: &mut Writer<Cursor<Vec<u8>>>, name: &str) -> (res: Result<(), quick_xml::Error>)
    ensures
        res is Ok,
        written_events(*final(writer)) == written_events(*old(writer)).push(end_view(name@)),
{
    writer.write_event(Event::End(BytesEnd::new(name)))
}

/// `Writer::write_event` with escaped text (`BytesText::new`); as for start tags.
#[verifier::external_body]
fn write_text(writer: &mut Writer<Cursor<Vec<u8>>>, text: &str) -> (res: Result<(), quick_xml::Error>)
    ensures
        res is Ok,
        written_events(*final(writer)) == written_events(*old(writer)).push(text_view(text@)),
{
    writer.write_event(Event::Text(BytesText::new(text)))
}

/// `Writer::write_event` with an empty element (`Event::Empty`) with the
/// attributes, in order; as for start tags.
#[verifier::external_body]
fn write_empty_tag(
    writer: &mut Writer<Cursor<Vec<u8>>>,
    name: &str,
    attributes: &Vec<(String, String)>,
) -> (res: Result<(), quick_xml::Error>)
    ensures
        res is Ok,
        written_events(*final(writer)) == written_events(*old(writer)).push(empty_view(name@, attributes_view(attributes@))),
{
    let empty = BytesStart::new(name).with_attributes(attributes.iter().map(|(k, v)| (k.as_str(), v.as_str())));
    writer.write_event(Event::Empty(empty))
}

/// The bytes in the writer's buffer (`Writer::into_inner`, then
/// `Cursor::into_inner`): the document of the events written into it. Names,
/// attributes and texts come from `str`s, escaping keeps them UTF-8 and the
/// markup is ASCII, so the bytes are valid UTF-8.
#[verifier::external_body]
fn writer_bytes(writer: Writer<Cursor<Vec<u8>>>) -> (res: Vec<u8>)
    ensures
        res@ == xml_document(written_events(writer)),
        valid_utf8(res@),
{
    writer.into_inner().into_inner()
}

/// `String::from_utf8`: `Ok` exactly when the bytes are valid UTF-8, and then
/// the string holds the characters that they encode.
#[verifier::external_body]
pub(crate) fn string_from_utf8(bytes: Vec<u8>) -> (res: Result<String, FromUtf8Error>)
    ensures
        res is Ok == valid_utf8(bytes@),
        res matches Ok(s) ==> s@ == decode_utf8(bytes@),
{
    String::from_utf8(bytes)
}

/// Writes the events, in order, with a writer that indents nested elements
/// by two spaces, and reads the result as text.
pub fn write_events(events: &Vec<XmlEvent>) -> (res: Result<String, XmlWriteError>)
    ensures
        valid_utf8(xml_document(events_view(events@))),
        res matches Ok(s) && s@ == decode_utf8(xml_document(events_view(events@))),
{
    let mut writer = new_indented_writer();
    let mut i: usize = 0;
    while i < events.len()
        invariant
            i <= events@.len(),
            written_events(writer) == events_view(events@).take(i as int),
        decreases events@.len() - i,
    {
        let written = match &events[i] {
            XmlEvent::Start { name, attributes } => write_start_tag(&mut writer, name.as_str(), attributes),
            XmlEvent::End { name } => write_end_tag(&mut writer, name.as_str()),
            XmlEvent::Text { text } => write_text(&mut writer, text.as_str()),
            XmlEvent::Empty { name, attributes } => write_empty_tag(&mut writer, name.as_str(), attributes),
        };
        match written {
            Ok(()) => {},
            Err(error) => {
                return Err(XmlWriteError::WriterError(error));
            },
        }
        proof {
            assert(events_view(events@).take(i + 1) =~= events_view(events@).take(i as int).push(events@[i as int]@));
        }
        i = i + 1;
    }
    proof {
        assert(events_view(events@).take(i as int) =~= events_view(events@));
    }
    let bytes = writer_bytes(writer);
    match string_from_utf8(bytes) {
        Ok(text) => Ok(text),
        Err(error) => Err(XmlWriteError::FromUt8Error(error)),
    }
}

} // verus!
