//! XML events as the document extractors read them, and the reader that produces them.

use vstd::prelude::*;
use quick_xml::events::Event;
use quick_xml::Reader;

verus! {

#[verifier::external_type_specification]
#[verifier::external_body]
#[verifier::reject_recursive_types(R)]
pub struct ExXmlReader<R>(Reader<R>);

#[verifier::external_type_specification]
#[verifier::external_body]
pub struct ExXmlEvent<'a>(Event<'a>);

#[verifier::external_type_specification]
#[verifier::external_body]
pub struct ExXmlError(quick_xml::Error);

/// One attribute of an element: malformed (with the parser's message), or a key
/// with its decoded value (or the decoder's message).
#[derive(Debug)]
pub enum XmlAttribute {
    Malformed(String),
    Pair { key: Vec<u8>, value: Result<String, String> },
}

/// A start or empty element: its qualified name and its attributes in order.
#[derive(Debug)]
pub struct XmlElement {
    pub name: Vec<u8>,
    pub attributes: Vec<XmlAttribute>,
}

/// One reader event. `Text` holds the decoded text or the decoder's message;
/// `Error` the reader's message; `Stalled` stands for a reader that stopped
/// advancing within its input; `Other` is every event the extractors ignore.
#[derive(Debug)]
pub enum XmlEvent {
    Start(XmlElement),
    Empty(XmlElement),
    Text(Result<String, String>),
    End(Vec<u8>),
    Eof,
    Error(String),
    Stalled,
    Other,
}

/// Which variant a reader event is; `Error` for a reader error.
pub enum EventKind {
    Start,
    Empty,
    Text,
    End,
    Eof,
    Error,
    Other,
}

/// A reader over one input, with the number of events it has given.
pub struct EventSource<'a> {
    reader: Reader<&'a [u8]>,
    input: &'a [u8],
    trim: bool,
    count: u64,
}

/// One event as the reader gave it, with the input, the trim setting and
/// the event's index among the reader's events.
pub struct RawEvent<'a> {
    event: Result<Event<'a>, quick_xml::Error>,
    input: &'a [u8],
    trim: bool,
    index: u64,
}

/// The variant of the `index`-th event (counting from 0) that quick-xml's
/// `Reader::read_event` gives over `xml`, with `Config::trim_text(trim)`.
pub uninterp spec fn xml_event_kind(xml: Seq<u8>, trim: bool, index: nat) -> EventKind;

/// The name and attributes of that event when it is a start or empty element.
pub uninterp spec fn xml_element(xml: Seq<u8>, trim: bool, index: nat) -> XmlElement;

/// The content of that event when it is text (`BytesText::xml_content`).
pub uninterp spec fn xml_text(xml: Seq<u8>, trim: bool, index: nat) -> Result<String, String>;

/// The qualified name of that event when it is an end element.
pub uninterp spec fn xml_end_name(xml: Seq<u8>, trim: bool, index: nat) -> Vec<u8>;

/// The `Display` text of the reader's error when that read fails.
pub uninterp spec fn xml_error(xml: Seq<u8>, trim: bool, index: nat) -> String;

/// `Reader::buffer_position` after `count` events have been read.
pub uninterp spec fn xml_position(xml: Seq<u8>, trim: bool, count: nat) -> u64;

/// `quick_xml::Reader::from_reader` over a byte slice.
#[verifier::external_body]
fn xml_reader<'a>(xml: &'a [u8]) -> Reader<&'a [u8]> {
    Reader::from_reader(xml)
}

/// `Config::trim_text(true)`: whitespace around text events is dropped.
#[verifier::external_body]
fn trim_text<'a>(reader: &mut Reader<&'a [u8]>) {
    reader.config_mut().trim_text(true);
}

/// A reader over `xml` that has given no event yet.
fn event_source<'a>(xml: &'a [u8], trim: bool) -> (s: EventSource<'a>)
    ensures
        s.input@ == xml@,
        s.trim == trim,
        s.count == 0,
{
    let mut reader = xml_reader(xml);
    if trim {
        trim_text(&mut reader);
    }
    EventSource { reader, input: xml, trim, count: 0 }
}

/// `Reader::buffer_position`: the bytes consumed after the source's events.
/// The claim holds of a source made by `event_source` whose count was raised
/// by one after each read, which is the only way this module uses one.
#[verifier::external_body]
fn position<'a>(source: &EventSource<'a>) -> (p: u64)
    ensures
        p == xml_position(source.input@, source.trim, source.count as nat),
{
    source.reader.buffer_position()
}

/// `Reader::read_event`: the next event, tagged with its index (the source's
/// count, which the caller raises afterwards); the reader advances.
#[verifier::external_body]
fn read_raw<'a>(source: &mut EventSource<'a>) -> (raw: RawEvent<'a>)
    ensures
        raw.input@ == old(source).input@,
        raw.trim == old(source).trim,
        raw.index == old(source).count,
        final(source).input@ == old(source).input@,
        final(source).trim == old(source).trim,
        final(source).count == old(source).count,
{
    let event = source.reader.read_event();
    RawEvent { event, input: source.input, trim: source.trim, index: source.count }
}

/// The `Display` text of a reader error (empty for a read that succeeded).
#[verifier::external_body]
fn error_text<'a>(raw: &RawEvent<'a>) -> (m: String)
    ensures
        m == xml_error(raw.input@, raw.trim, raw.index as nat),
{
    let Err(error) = &raw.event else { return String::new() };
    error.to_string()
}

/// Tell the variants of a reader event apart.
#[verifier::external_body]
fn kind_of<'a>(raw: &RawEvent<'a>) -> (k: EventKind)
    ensures
        k == xml_event_kind(raw.input@, raw.trim, raw.index as nat),
{
    match &raw.event {
        Err(_) => EventKind::Error,
        Ok(Event::Start(_)) => EventKind::Start,
        Ok(Event::Empty(_)) => EventKind::Empty,
        Ok(Event::Text(_)) => EventKind::Text,
        Ok(Event::End(_)) => EventKind::End,
        Ok(Event::Eof) => EventKind::Eof,
        Ok(_) => EventKind::Other,
    }
}

/// The qualified name and attributes of a start or empty element
/// (`BytesStart::name`, `attributes`, `Attribute::decode_and_unescape_value`).
#[verifier::external_body]
fn element_of<'a>(raw: &RawEvent<'a>) -> (e: XmlElement)
    ensures
        e == xml_element(raw.input@, raw.trim, raw.index as nat),
{
    let Ok(Event::Start(element) | Event::Empty(element)) = &raw.event else {
        return XmlElement { name: Vec::new(), attributes: Vec::new() };
    };
    let attributes = element.attributes().map(|attribute| match attribute {
        Err(error) => XmlAttribute::Malformed(error.to_string()),
        Ok(value) => XmlAttribute::Pair {
            key: value.key.as_ref().to_vec(),
            value: value.decode_and_unescape_value(element.decoder())
                .map(|text| text.into_owned()).map_err(|error| error.to_string()),
        },
    });
    XmlElement { name: element.name().as_ref().to_vec(), attributes: attributes.collect() }
}

/// The text of a text event (`BytesText::xml_content`), or the decoder's message.
#[verifier::external_body]
fn text_of<'a>(raw: &RawEvent<'a>) -> (t: Result<String, String>)
    ensures
        t == xml_text(raw.input@, raw.trim, raw.index as nat),
{
    let Ok(Event::Text(text)) = &raw.event else { return Ok(String::new()) };
    text.xml_content().map(|value| value.into_owned()).map_err(|error| error.to_string())
}

/// The qualified name of an end element (`BytesEnd::name`).
#[verifier::external_body]
fn end_name_of<'a>(raw: &RawEvent<'a>) -> (n: Vec<u8>)
    ensures
        n == xml_end_name(raw.input@, raw.trim, raw.index as nat),
{
    let Ok(Event::End(element)) = &raw.event else { return Vec::new() };
    element.name().as_ref().to_vec()
}

/// The `index`-th event of `xml`, as the reader gives it.
pub open spec fn xml_event(xml: Seq<u8>, trim: bool, index: nat) -> XmlEvent {
    match xml_event_kind(xml, trim, index) {
        EventKind::Start => XmlEvent::Start(xml_element(xml, trim, index)),
        EventKind::Empty => XmlEvent::Empty(xml_element(xml, trim, index)),
        EventKind::Text => XmlEvent::Text(xml_text(xml, trim, index)),
        EventKind::End => XmlEvent::End(xml_end_name(xml, trim, index)),
        EventKind::Eof => XmlEvent::Eof,
        EventKind::Error => XmlEvent::Error(xml_error(xml, trim, index)),
        EventKind::Other => XmlEvent::Other,
    }
}

/// The next event of the source, converted; the source's count is raised
/// by the caller.
fn next_event<'a>(source: &mut EventSource<'a>) -> (e: XmlEvent)
    ensures
        e == xml_event(old(source).input@, old(source).trim, old(source).count as nat),
        final(source).input@ == old(source).input@,
        final(source).trim == old(source).trim,
        final(source).count == old(source).count,
{
    let raw = read_raw(source);
    match kind_of(&raw) {
        EventKind::Start => XmlEvent::Start(element_of(&raw)),
        EventKind::Empty => XmlEvent::Empty(element_of(&raw)),
        EventKind::Text => XmlEvent::Text(text_of(&raw)),
        EventKind::End => XmlEvent::End(end_name_of(&raw)),
        EventKind::Eof => XmlEvent::Eof,
        EventKind::Error => XmlEvent::Error(error_text(&raw)),
        EventKind::Other => XmlEvent::Other,
    }
}

/// The event ends the document.
pub open spec fn is_final(e: XmlEvent) -> bool {
    e is Eof || e is Error || e is Stalled
}

/// The events of `xml` from the `index`-th on: each event up to and
/// including the first that ends the document, where after each other event
/// the reader must have advanced and stayed within the input, else the
/// events end with `Stalled`.
pub open spec fn xml_events_from(xml: Seq<u8>, trim: bool, index: nat) -> Seq<XmlEvent>
    decreases xml.len() - xml_position(xml, trim, index),
{
    let e = xml_event(xml, trim, index);
    if is_final(e) {
        seq![e]
    } else {
        let before = xml_position(xml, trim, index);
        let after = xml_position(xml, trim, index + 1);
        if after <= before || after > xml.len() {
            seq![e, XmlEvent::Stalled]
        } else {
            seq![e] + xml_events_from(xml, trim, index + 1)
        }
    }
}

/// All events of `xml` as `read_events` gives them (see `xml_events_from`);
/// a reader that starts past its input gives only `Stalled`.
pub open spec fn xml_events(xml: Seq<u8>, trim: bool) -> Seq<XmlEvent> {
    if xml_position(xml, trim, 0) > xml.len() {
        seq![XmlEvent::Stalled]
    } else {
        xml_events_from(xml, trim, 0)
    }
}

proof fn lemma_events_end(xml: Seq<u8>, trim: bool, index: nat)
    ensures
        xml_events_from(xml, trim, index).len() > 0,
        is_final(xml_events_from(xml, trim, index).last()),
        forall|k: int| 0 <= k < xml_events_from(xml, trim, index).len() - 1
            ==> !is_final(#[trigger] xml_events_from(xml, trim, index)[k]),
    decreases xml.len() - xml_position(xml, trim, index),
{
    let e = xml_event(xml, trim, index);
    if !is_final(e) {
        let before = xml_position(xml, trim, index);
        let after = xml_position(xml, trim, index + 1);
        if !(after <= before || after > xml.len()) {
            lemma_events_end(xml, trim, index + 1);
            let rest = xml_events_from(xml, trim, index + 1);
            assert(xml_events_from(xml, trim, index) == seq![e] + rest);
            assert forall|k: int| 0 <= k < xml_events_from(xml, trim, index).len() - 1
                implies !is_final(#[trigger] xml_events_from(xml, trim, index)[k]) by {
                if k > 0 {
                    assert(xml_events_from(xml, trim, index)[k] == rest[k - 1]);
                }
            }
        }
    }
}

/// All events of `xml` as the reader gives them (see `xml_events`). With
/// `trim`, whitespace around text is dropped.
pub fn read_events(xml: &[u8], trim: bool) -> (events: Vec<XmlEvent>)
    ensures
        events@ == xml_events(xml@, trim),
        events@.len() > 0,
        is_final(events@.last()),
        forall|k: int| 0 <= k < events@.len() - 1 ==> !is_final(#[trigger] events@[k]),
{
    let mut source = event_source(xml, trim);
    let ghost input = xml@;
    let mut events: Vec<XmlEvent> = Vec::new();
    let limit = xml.len() as u64;
    let mut last = position(&source);
    if last > limit {
        events.push(XmlEvent::Stalled);
        proof {
            assert(events@ =~= xml_events(input, trim));
        }
        return events;
    }
    proof {
        lemma_events_end(input, trim, 0);
    }
    loop
        invariant
            source.input@ == input,
            source.trim == trim,
            input == xml@,
            limit == xml@.len(),
            last == xml_position(input, trim, source.count as nat),
            source.count <= last,
            last <= limit,
            xml_position(input, trim, 0) <= input.len(),
            events@ + xml_events_from(input, trim, source.count as nat) == xml_events(input, trim),
        decreases limit - last,
    {
        let ghost k = source.count as nat;
        let ghost rest = xml_events_from(input, trim, k);
        let event = next_event(&mut source);
        let done = match &event {
            XmlEvent::Eof => true,
            XmlEvent::Error(_) => true,
            _ => false,
        };
        if done {
            events.push(event);
            proof {
                assert(rest =~= seq![xml_event(input, trim, k)]);
                assert(events@ =~= xml_events(input, trim));
                lemma_events_end(input, trim, 0);
            }
            return events;
        }
        if source.count == u64::MAX {
            events.push(event);
            events.push(XmlEvent::Stalled);
            proof {
                assert(xml_position(input, trim, k + 1) <= xml_position(input, trim, k));
                assert(rest =~= seq![xml_event(input, trim, k), XmlEvent::Stalled]);
                assert(events@ =~= xml_events(input, trim));
                lemma_events_end(input, trim, 0);
            }
            return events;
        }
        source.count = source.count + 1;
        let now = position(&source);
        if now <= last || now > limit {
            events.push(event);
            events.push(XmlEvent::Stalled);
            proof {
                assert(rest =~= seq![xml_event(input, trim, k), XmlEvent::Stalled]);
                assert(events@ =~= xml_events(input, trim));
                lemma_events_end(input, trim, 0);
            }
            return events;
        }
        let ghost before = events@;
        events.push(event);
        proof {
            assert(rest == seq![xml_event(input, trim, k)] + xml_events_from(input, trim, k + 1));
            assert(events@ + xml_events_from(input, trim, k + 1) =~= before + rest);
        }
        last = now;
    }
}

/// The part of a qualified name after its last `:`.
pub open spec fn local_name(name: Seq<u8>) -> Seq<u8>
    decreases name.len(),
{
    if name.len() == 0 {
        name
    } else if name.last() == 58u8 {
        Seq::empty()
    } else {
        local_name(name.drop_last()).push(name.last())
    }
}

/// The local part of a qualified name (`b"w:p"` gives `b"p"`).
pub fn local(name: &[u8]) -> (out: Vec<u8>)
    ensures
        out@ == local_name(name@),
{
    let mut start: usize = name.len();
    proof {
        assert(name@.take(name@.len() as int) =~= name@);
        assert(name@.skip(name@.len() as int) =~= Seq::<u8>::empty());
        assert(name@ + Seq::<u8>::empty() =~= name@);
    }
    while start > 0 && name[start - 1] != 58u8
        invariant
            start <= name@.len(),
            local_name(name@) == local_name(name@.take(start as int)) + name@.skip(start as int),
        decreases start,
    {
        proof {
            let t = name@.take(start as int);
            assert(t.drop_last() =~= name@.take(start - 1));
            assert(name@.skip(start - 1) =~= seq![name@[start - 1]] + name@.skip(start as int));
            assert(local_name(t) == local_name(t.drop_last()).push(t.last()));
            assert(local_name(name@.take(start - 1)).push(name@[start - 1]) + name@.skip(start as int)
                =~= local_name(name@.take(start - 1)) + name@.skip(start - 1));
        }
        start = start - 1;
    }
    let mut out: Vec<u8> = Vec::new();
    let mut i: usize = start;
    while i < name.len()
        invariant
            start <= i <= name@.len(),
            out@ == name@.subrange(start as int, i as int),
        decreases name@.len() - i,
    {
        out.push(name[i]);
        i = i + 1;
        assert(out@ =~= name@.subrange(start as int, i as int));
    }
    proof {
        if start > 0 {
            let t = name@.take(start as int);
            assert(t.last() == 58u8);
            assert(local_name(t) =~= Seq::<u8>::empty());
        } else {
            assert(name@.take(0) =~= Seq::<u8>::empty());
        }
        assert(out@ =~= name@.skip(start as int));
    }
    out
}

/// The value of the first attribute whose local name is `name`; a malformed
/// attribute met before it, or a value that cannot be decoded, is an error.
pub open spec fn attribute_lookup(attrs: Seq<XmlAttribute>, name: Seq<u8>) -> Result<Option<Seq<char>>, AttributeError>
    decreases attrs.len(),
{
    if attrs.len() == 0 {
        Ok(None)
    } else {
        match attrs[0] {
            XmlAttribute::Malformed(m) => Err(AttributeError::Malformed(m@)),
            XmlAttribute::Pair { key, value } => if local_name(key@) == name {
                match value {
                    Ok(v) => Ok(Some(v@)),
                    Err(m) => Err(AttributeError::Undecodable(m@)),
                }
            } else {
                attribute_lookup(attrs.drop_first(), name)
            },
        }
    }
}

/// Why an attribute could not be read (with the XML library's message).
pub enum AttributeError {
    Malformed(Seq<char>),
    Undecodable(Seq<char>),
}

} // verus!
