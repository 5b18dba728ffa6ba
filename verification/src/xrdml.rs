//! XRDML documents: the first scan that gives the two ends of its two-theta
//! axis and a list of intensities.
//!
//! The document is read as a stream of XML events. The events are followed by
//! a small state machine that keeps the texts of interest, in the order of the
//! document; the numbers read from these texts then make the pattern.
use crate::error::GeddesError;
use crate::error::parse_error;
use crate::numbers::{collect_numbers, numbers_of, read_by, read_numbers, reads_any};
use crate::pattern::{Axis, AxisModel, ParsedPattern, PatternModel};
use crate::text::{
    chars_of, fields, same_bytes, same_text, split_fields, texts, trim, trimmed,
};
use vstd::prelude::*;
use vstd::string::StringExecFns;

verus! {

/// `quick_xml::Reader`, the XML parser, carried as an opaque value.
#[verifier::external_type_specification]
#[verifier::external_body]
#[verifier::reject_recursive_types(R)]
pub struct ExReader<R>(quick_xml::Reader<R>);

/// `quick_xml::events::Event`, one event of a document, carried as an opaque
/// value.
#[verifier::external_type_specification]
#[verifier::external_body]
pub struct ExEvent<'a>(quick_xml::events::Event<'a>);

/// The kinds of XML events that the decoder tells apart.
#[derive(Debug, Clone, Copy, PartialEq, Eq, Structural)]
pub enum XmlKind {
    Start,
    End,
    Text,
    Eof,
    Other,
}

/// What an event holds, as plain values: for a tag its local name, for a
/// start tag also its attributes, each as key and raw value or as the message
/// of the failure to parse it, and for character data its text or the message
/// of the failure to decode it.
pub enum EventModel {
    Start { name: Seq<u8>, attributes: Seq<Result<(Seq<u8>, Seq<u8>), Seq<char>>> },
    End { name: Seq<u8> },
    Text(Result<Seq<char>, Seq<char>>),
    Eof,
    Other,
}

/// Where a reader stands: the bytes that it reads, whether it trims the text
/// between tags, and how many events or failures it has given so far.
pub struct ReaderPlace {
    pub source: Seq<u8>,
    pub trims: bool,
    pub given: nat,
}

/// What an event of `quick_xml` holds.
pub uninterp spec fn event_content(event: quick_xml::events::Event<'static>) -> EventModel;

/// Where a reader of `quick_xml` stands.
pub uninterp spec fn reader_place(reader: quick_xml::Reader<&[u8]>) -> ReaderPlace;

/// What `quick_xml::Reader::read_event_into` gives when it is called for the
/// time of this index, counted from 0, on a reader over these bytes whose
/// trimming of text was set before the first call: an event or the message of
/// a failure.
pub uninterp spec fn xml_outcome(bytes: Seq<u8>, trim: bool, index: nat) -> Result<
    EventModel,
    Seq<char>,
>;

/// What `quick_xml::events::attributes::Attribute::unescape_value` gives for
/// an attribute of this key and raw value: the value with its escape sequences
/// replaced, or the message of the failure.
pub uninterp spec fn xml_unescaped(key: Seq<u8>, value: Seq<u8>) -> Result<Seq<char>, Seq<char>>;

/// The kind of an event.
pub open spec fn kind_of(event: EventModel) -> XmlKind {
    match event {
        EventModel::Start { .. } => XmlKind::Start,
        EventModel::End { .. } => XmlKind::End,
        EventModel::Text(_) => XmlKind::Text,
        EventModel::Eof => XmlKind::Eof,
        EventModel::Other => XmlKind::Other,
    }
}

/// The local name of a tag, empty for events that are no tags.
pub open spec fn name_of(event: EventModel) -> Seq<u8> {
    match event {
        EventModel::Start { name, .. } => name,
        EventModel::End { name } => name,
        _ => Seq::empty(),
    }
}

/// The attributes of a start tag, none for other events.
pub open spec fn attributes_of(event: EventModel) -> Seq<Result<(Seq<u8>, Seq<u8>), Seq<char>>> {
    match event {
        EventModel::Start { attributes, .. } => attributes,
        _ => Seq::empty(),
    }
}

/// The text of character data, the empty text for other events.
pub open spec fn text_of(event: EventModel) -> Result<Seq<char>, Seq<char>> {
    match event {
        EventModel::Text(text) => text,
        _ => Ok(Seq::empty()),
    }
}

/// The views of a text or a message.
pub open spec fn text_model(text: Result<String, String>) -> Result<Seq<char>, Seq<char>> {
    match text {
        Ok(content) => Ok(content@),
        Err(message) => Err(message@),
    }
}

/// The views of a list of attributes as the parser gives them.
pub open spec fn raw_models(raw: Seq<Result<(Vec<u8>, Vec<u8>), String>>) -> Seq<
    Result<(Seq<u8>, Seq<u8>), Seq<char>>,
> {
    Seq::new(
        raw.len(),
        |i: int|
            match raw[i] {
                Ok(pair) => Ok((pair.0@, pair.1@)),
                Err(message) => Err(message@),
            },
    )
}

/// `quick_xml::Reader::from_reader` on a byte slice: a reader over these bytes
/// that has given nothing yet and, as the default configuration has it, does
/// not trim text.
#[verifier::external_body]
fn open_document<'a>(bytes: &'a [u8]) -> (r: quick_xml::Reader<&'a [u8]>)
    ensures
        reader_place(r) == (ReaderPlace { source: bytes@, trims: false, given: 0 }),
{
    quick_xml::Reader::from_reader(bytes)
}

/// `quick_xml::reader::Config::trim_text` on the configuration of a reader
/// that has given nothing yet: with `true`, text events come without XML white
/// space at their ends. The reader stands where it stood.
#[verifier::external_body]
fn trim_text<'a>(reader: &mut quick_xml::Reader<&'a [u8]>, trim: bool)
    requires
        reader_place(*old(reader)).given == 0,
    ensures
        reader_place(*final(reader)) == (ReaderPlace { trims: trim, ..reader_place(*old(reader)) }),
{
    reader.config_mut().trim_text(trim);
}

/// `quick_xml::Reader::read_event_into`: the next event of the document, made
/// independent of the read buffer, or the message of the reader's failure.
/// Which of them comes is a function of the bytes, of the trimming and of the
/// number of calls made before; the reader has then given one more.
#[verifier::external_body]
fn next_event<'a>(reader: &mut quick_xml::Reader<&'a [u8]>) -> (r: Result<
    quick_xml::events::Event<'static>,
    String,
>)
    ensures
        reader_place(*final(reader)) == (ReaderPlace {
            given: reader_place(*old(reader)).given + 1,
            ..reader_place(*old(reader))
        }),
        xml_outcome(
            reader_place(*old(reader)).source,
            reader_place(*old(reader)).trims,
            reader_place(*old(reader)).given,
        ) == match r {
            Ok(event) => Ok::<EventModel, Seq<char>>(event_content(event)),
            Err(message) => Err::<EventModel, Seq<char>>(message@),
        },
{
    let mut buf = Vec::new();
    match reader.read_event_into(&mut buf) {
        Ok(event) => Ok(event.into_owned()),
        Err(err) => Err(err.to_string()),
    }
}

/// What a reader that stands at `place` gives next.
pub open spec fn outcome_at(place: ReaderPlace) -> Result<EventModel, Seq<char>> {
    xml_outcome(place.source, place.trims, place.given)
}

/// Tells the variants of `quick_xml::events::Event` apart: the kind of what
/// the event holds.
#[verifier::external_body]
fn event_kind(event: &quick_xml::events::Event<'static>) -> (r: XmlKind)
    ensures
        r == kind_of(event_content(*event)),
{
    match event {
        quick_xml::events::Event::Start(_) => XmlKind::Start,
        quick_xml::events::Event::End(_) => XmlKind::End,
        quick_xml::events::Event::Text(_) => XmlKind::Text,
        quick_xml::events::Event::Eof => XmlKind::Eof,
        _ => XmlKind::Other,
    }
}

/// `BytesStart::local_name` and `BytesEnd::local_name`: the name of the tag
/// without its namespace prefix, as the event holds it; empty for events that
/// are no tags.
#[verifier::external_body]
fn local_name(event: &quick_xml::events::Event<'static>) -> (r: Vec<u8>)
    ensures
        r@ == name_of(event_content(*event)),
{
    match event {
        quick_xml::events::Event::Start(tag) => tag.local_name().as_ref().to_vec(),
        quick_xml::events::Event::End(tag) => tag.local_name().as_ref().to_vec(),
        _ => Vec::new(),
    }
}

/// `BytesStart::attributes`: the attributes of a start tag in the order of the
/// document, as the event holds them: each as its key and raw value, or as the
/// message of the error that the iterator gave in its place; none for other
/// events.
#[verifier::external_body]
fn raw_attributes(event: &quick_xml::events::Event<'static>) -> (r: Vec<
    Result<(Vec<u8>, Vec<u8>), String>,
>)
    ensures
        raw_models(r@) == attributes_of(event_content(*event)),
{
    match event {
        quick_xml::events::Event::Start(tag) => tag.attributes().map(
            |item| match item {
                Ok(a) => Ok((a.key.as_ref().to_vec(), a.value.to_vec())),
                Err(err) => Err(err.to_string()),
            },
        ).collect(),
        _ => Vec::new(),
    }
}

/// `Attribute::unescape_value`: the value of an attribute, decoded and with
/// its escape sequences replaced, or the message of the error; a function of
/// the key and the raw value.
#[verifier::external_body]
fn unescape_value(key: &Vec<u8>, value: &Vec<u8>) -> (r: Result<String, String>)
    ensures
        text_model(r) == xml_unescaped(key@, value@),
{
    let attribute = quick_xml::events::attributes::Attribute {
        key: quick_xml::name::QName(key.as_slice()),
        value: std::borrow::Cow::Borrowed(value.as_slice()),
    };
    match attribute.unescape_value() {
        Ok(text) => Ok(text.into_owned()),
        Err(err) => Err(err.to_string()),
    }
}

/// `BytesText::decode`: the content of a text event, or the message of the
/// decoding error, as the event holds it; the empty text for other events.
#[verifier::external_body]
fn decode_text(event: &quick_xml::events::Event<'static>) -> (r: Result<String, String>)
    ensures
        text_model(r) == text_of(event_content(*event)),
{
    match event {
        quick_xml::events::Event::Text(text) => match text.decode() {
            Ok(content) => Ok(content.into_owned()),
            Err(err) => Err(err.to_string()),
        },
        _ => Ok(String::new()),
    }
}

/// An attribute of a start tag.
pub enum XmlAttribute {
    /// The attribute could not be parsed; carries the parser's message.
    Malformed(String),
    /// A key with its value, or with the message of the failure to decode it.
    Pair { key: Vec<u8>, value: Result<Vec<char>, String> },
}

/// One event of an XML document, as plain values.
pub enum XmlStep {
    /// A start tag with its local name; the attributes are given for
    /// `positions` tags only.
    Open { name: Vec<u8>, attributes: Vec<XmlAttribute> },
    /// Character data.
    Text(Vec<char>),
    /// Character data that could not be decoded; carries the message.
    TextFailed(String),
    /// An end tag with its local name.
    Close { name: Vec<u8> },
    /// The end of the document.
    End,
    /// Any other event.
    Other,
    /// The document is malformed here; carries the parser's message.
    Failed(String),
}

impl XmlStep {
    /// Reading stops at this step.
    pub open spec fn is_last(self) -> bool {
        self is End || self is Failed
    }
}

/// The local name `positions`.
pub open spec fn positions_name() -> Seq<u8> {
    seq![0x70u8, 0x6f, 0x73, 0x69, 0x74, 0x69, 0x6f, 0x6e, 0x73]
}

/// The local name `startPosition`.
pub open spec fn start_position_name() -> Seq<u8> {
    seq![0x73u8, 0x74, 0x61, 0x72, 0x74, 0x50, 0x6f, 0x73, 0x69, 0x74, 0x69, 0x6f, 0x6e]
}

/// The local name `endPosition`.
pub open spec fn end_position_name() -> Seq<u8> {
    seq![0x65u8, 0x6e, 0x64, 0x50, 0x6f, 0x73, 0x69, 0x74, 0x69, 0x6f, 0x6e]
}

/// The local name `intensities`.
pub open spec fn intensities_name() -> Seq<u8> {
    seq![0x69u8, 0x6e, 0x74, 0x65, 0x6e, 0x73, 0x69, 0x74, 0x69, 0x65, 0x73]
}

/// The attribute key `axis`.
pub open spec fn axis_key() -> Seq<u8> {
    seq![0x61u8, 0x78, 0x69, 0x73]
}

/// The attribute value `2Theta`.
pub open spec fn two_theta() -> Seq<char> {
    seq!['2', 'T', 'h', 'e', 't', 'a']
}

/// The tags that the decoder follows.
#[derive(Debug, Clone, Copy, PartialEq, Eq, Structural)]
pub enum Tag {
    Positions,
    StartPosition,
    EndPosition,
    Intensities,
    Other,
}

/// The tag that a local name stands for.
pub open spec fn tag_of(name: Seq<u8>) -> Tag {
    if name == positions_name() {
        Tag::Positions
    } else if name == start_position_name() {
        Tag::StartPosition
    } else if name == end_position_name() {
        Tag::EndPosition
    } else if name == intensities_name() {
        Tag::Intensities
    } else {
        Tag::Other
    }
}

/// Tells which tag a local name stands for.
pub fn classify_tag(name: &Vec<u8>) -> (r: Tag)
    ensures
        r == tag_of(name@),
{
    let positions: Vec<u8> = vec![0x70u8, 0x6f, 0x73, 0x69, 0x74, 0x69, 0x6f, 0x6e, 0x73];
    let start: Vec<u8> = vec![
        0x73u8,
        0x74,
        0x61,
        0x72,
        0x74,
        0x50,
        0x6f,
        0x73,
        0x69,
        0x74,
        0x69,
        0x6f,
        0x6e,
    ];
    let end: Vec<u8> = vec![0x65u8, 0x6e, 0x64, 0x50, 0x6f, 0x73, 0x69, 0x74, 0x69, 0x6f, 0x6e];
    let intensities: Vec<u8> = vec![
        0x69u8,
        0x6e,
        0x74,
        0x65,
        0x6e,
        0x73,
        0x69,
        0x74,
        0x69,
        0x65,
        0x73,
    ];
    assert(positions@ =~= positions_name());
    assert(start@ =~= start_position_name());
    assert(end@ =~= end_position_name());
    assert(intensities@ =~= intensities_name());
    if same_bytes(name, &positions) {
        Tag::Positions
    } else if same_bytes(name, &start) {
        Tag::StartPosition
    } else if same_bytes(name, &end) {
        Tag::EndPosition
    } else if same_bytes(name, &intensities) {
        Tag::Intensities
    } else {
        Tag::Other
    }
}

/// An attribute is the plain form of what the parser gave for it: the message
/// of the failure to parse it, or its key with the unescaped value or the
/// message of the failure to unescape it.
pub open spec fn attribute_reads(
    attribute: XmlAttribute,
    raw: Result<(Seq<u8>, Seq<u8>), Seq<char>>,
) -> bool {
    match raw {
        Err(message) => attribute matches XmlAttribute::Malformed(text) && text@ == message,
        Ok(pair) => attribute matches XmlAttribute::Pair { key, value } && key@ == pair.0
            && xml_unescaped(pair.0, pair.1) == match value {
            Ok(text) => Ok::<Seq<char>, Seq<char>>(text@),
            Err(message) => Err::<Seq<char>, Seq<char>>(message@),
        },
    }
}

/// A list of attributes is the plain form of what the parser gave, one for
/// one and in the same order.
pub open spec fn attributes_read(
    attributes: Seq<XmlAttribute>,
    raw: Seq<Result<(Seq<u8>, Seq<u8>), Seq<char>>>,
) -> bool {
    &&& attributes.len() == raw.len()
    &&& forall|i: int| 0 <= i < raw.len() ==> attribute_reads(#[trigger] attributes[i], raw[i])
}

/// A step is the plain form of what the reader gave: a failure with its
/// message; a start tag with its name and, for a `positions` tag, its
/// attributes, for other tags none; an end tag with its name; character data
/// with its text or the message of the failure to decode it; the end; or
/// another event.
pub open spec fn step_reads(step: XmlStep, outcome: Result<EventModel, Seq<char>>) -> bool {
    match outcome {
        Err(message) => step matches XmlStep::Failed(text) && text@ == message,
        Ok(EventModel::Start { name, attributes }) => step matches XmlStep::Open {
            name: n,
            attributes: a,
        } && n@ == name && if tag_of(name) == Tag::Positions {
            attributes_read(a@, attributes)
        } else {
            a@.len() == 0
        },
        Ok(EventModel::End { name }) => step matches XmlStep::Close { name: n } && n@ == name,
        Ok(EventModel::Text(Ok(text))) => step matches XmlStep::Text(t) && t@ == text,
        Ok(EventModel::Text(Err(message))) => step matches XmlStep::TextFailed(t) && t@
            == message,
        Ok(EventModel::Eof) => step is End,
        Ok(EventModel::Other) => step is Other,
    }
}

/// The steps are what a reader over the document gives, in order, from its
/// first event on, with text trimmed.
pub open spec fn document_read(buf: Seq<u8>, steps: Seq<XmlStep>) -> bool {
    forall|i: int|
        0 <= i < steps.len() ==> step_reads(#[trigger] steps[i], xml_outcome(buf, true, i as nat))
}

/// The steps are what reading a document gives: the plain forms of what the
/// reader gives from its first event on, up to and including the first end or
/// failure, or the first `n + 1` of them for a document of `n` bytes.
pub open spec fn read_to_end(buf: Seq<u8>, steps: Seq<XmlStep>) -> bool {
    &&& 1 <= steps.len() <= buf.len() + 1
    &&& document_read(buf, steps)
    &&& forall|i: int| 0 <= i < steps.len() - 1 ==> !(#[trigger] steps[i]).is_last()
    &&& steps.last().is_last() || steps.len() == buf.len() + 1
}

/// Copies a byte string.
fn copy_bytes(bytes: &Vec<u8>) -> (r: Vec<u8>)
    ensures
        r@ == bytes@,
{
    let mut copy: Vec<u8> = Vec::new();
    let mut i: usize = 0;
    while i < bytes.len()
        invariant
            i <= bytes@.len(),
            copy@ == bytes@.take(i as int),
        decreases bytes@.len() - i,
    {
        copy.push(bytes[i]);
        assert(bytes@.take(i + 1) =~= bytes@.take(i as int).push(bytes@[i as int]));
        i = i + 1;
    }
    assert(bytes@.take(i as int) =~= bytes@);
    copy
}

/// Reads the attributes of a start tag as plain values.
fn read_attributes(event: &quick_xml::events::Event<'static>) -> (r: Vec<XmlAttribute>)
    ensures
        attributes_read(r@, attributes_of(event_content(*event))),
{
    let raw: Vec<Result<(Vec<u8>, Vec<u8>), String>> = raw_attributes(event);
    let ghost given = attributes_of(event_content(*event));
    let mut attributes: Vec<XmlAttribute> = Vec::new();
    let mut i: usize = 0;
    while i < raw.len()
        invariant
            i <= raw@.len(),
            raw_models(raw@) == given,
            attributes@.len() == i,
            forall|j: int| 0 <= j < i ==> attribute_reads(#[trigger] attributes@[j], given[j]),
        decreases raw@.len() - i,
    {
        assert(raw_models(raw@)[i as int] == given[i as int]);
        match &raw[i] {
            Err(message) => {
                attributes.push(XmlAttribute::Malformed(message.clone()));
            },
            Ok(pair) => {
                let value: Result<Vec<char>, String> = match unescape_value(&pair.0, &pair.1) {
                    Ok(text) => Ok(chars_of(text.as_str())),
                    Err(message) => Err(message),
                };
                attributes.push(XmlAttribute::Pair { key: copy_bytes(&pair.0), value });
            },
        }
        i = i + 1;
    }
    attributes
}

/// Reads the next event of a document as plain values.
fn read_step<'a>(reader: &mut quick_xml::Reader<&'a [u8]>) -> (r: XmlStep)
    ensures
        reader_place(*final(reader)) == (ReaderPlace {
            given: reader_place(*old(reader)).given + 1,
            ..reader_place(*old(reader))
        }),
        step_reads(r, outcome_at(reader_place(*old(reader)))),
{
    let event: quick_xml::events::Event<'static> = match next_event(reader) {
        Ok(event) => event,
        Err(message) => return XmlStep::Failed(message),
    };
    match event_kind(&event) {
        XmlKind::Start => {
            let name: Vec<u8> = local_name(&event);
            let attributes: Vec<XmlAttribute> = match classify_tag(&name) {
                Tag::Positions => read_attributes(&event),
                _ => Vec::new(),
            };
            XmlStep::Open { name, attributes }
        },
        XmlKind::End => XmlStep::Close { name: local_name(&event) },
        XmlKind::Text => match decode_text(&event) {
            Ok(text) => XmlStep::Text(chars_of(text.as_str())),
            Err(message) => XmlStep::TextFailed(message),
        },
        XmlKind::Eof => XmlStep::End,
        XmlKind::Other => XmlStep::Other,
    }
}

/// Reads the events of a document, with text trimmed, up to its end or to the
/// first place where it is malformed, and gives them as plain values. A
/// document of `n` bytes is read for at most `n + 1` events. What the events
/// are is decided by the XML parser.
pub fn read_document(buf: &[u8]) -> (r: Vec<XmlStep>)
    ensures
        read_to_end(buf@, r@),
{
    let mut reader = open_document(buf);
    trim_text(&mut reader, true);
    let mut steps: Vec<XmlStep> = Vec::new();
    let mut open: bool = true;
    while open && steps.len() <= buf.len()
        invariant
            steps@.len() <= buf@.len() + 1,
            reader_place(reader) == (ReaderPlace {
                source: buf@,
                trims: true,
                given: steps@.len() as nat,
            }),
            document_read(buf@, steps@),
            open ==> forall|i: int| 0 <= i < steps@.len() ==> !(#[trigger] steps@[i]).is_last(),
            !open ==> steps@.len() >= 1 && steps@.last().is_last() && forall|i: int|
                0 <= i < steps@.len() - 1 ==> !(#[trigger] steps@[i]).is_last(),
        decreases buf@.len() + 1 - steps@.len() + if open { 1int } else { 0int },
    {
        let step: XmlStep = read_step(&mut reader);
        let last: bool = match &step {
            XmlStep::End => true,
            XmlStep::Failed(_) => true,
            _ => false,
        };
        if last {
            open = false;
        }
        steps.push(step);
    }
    steps
}

/// What the decoder knows of its place in the document.
#[derive(Debug, Clone, Copy, PartialEq, Eq, Structural)]
pub struct XrdmlState {
    /// Inside a `positions` element whose `axis` attribute is `2Theta`.
    pub in_axis: bool,
    /// Inside the `startPosition` of such an element.
    pub capture_start: bool,
    /// Inside the `endPosition` of such an element.
    pub capture_end: bool,
    /// Inside an `intensities` element.
    pub in_intensities: bool,
}

/// A text of interest, or a mark, in the order of the document.
pub enum XrdmlItem {
    /// The text of the start position of a two-theta axis.
    Start(Vec<char>),
    /// The text of the end position of a two-theta axis.
    End(Vec<char>),
    /// The fields of a text inside an `intensities` element.
    Intensities(Vec<Vec<char>>),
    /// An `intensities` element ends here.
    Close,
    /// Decoding fails here; carries the description.
    Failure(String),
}

/// What an `XrdmlItem` holds, as a mathematical value.
pub enum ItemModel {
    Start(Seq<char>),
    End(Seq<char>),
    Intensities(Seq<Seq<char>>),
    Close,
    Failure(Seq<char>),
}

impl View for XrdmlItem {
    type V = ItemModel;

    open spec fn view(&self) -> ItemModel {
        match *self {
            XrdmlItem::Start(text) => ItemModel::Start(text@),
            XrdmlItem::End(text) => ItemModel::End(text@),
            XrdmlItem::Intensities(list) => ItemModel::Intensities(texts(list@)),
            XrdmlItem::Close => ItemModel::Close,
            XrdmlItem::Failure(text) => ItemModel::Failure(text@),
        }
    }
}

/// The views of a list of items.
pub open spec fn item_models(items: Seq<XrdmlItem>) -> Seq<ItemModel> {
    Seq::new(items.len(), |i: int| items[i]@)
}

/// How the search of the attributes of a `positions` tag ends.
pub enum AxisScan {
    /// No attribute failed; tells whether an `axis` attribute is `2Theta`.
    Flagged(bool),
    /// An attribute failed; carries the description.
    Failed(Seq<char>),
}

/// Searches the first `n` attributes, in order, for an `axis` attribute of
/// value `2Theta`. The search fails at the first attribute that is malformed,
/// and at the first `axis` attribute whose value cannot be decoded.
pub open spec fn scan_axis(attributes: Seq<XmlAttribute>, n: int) -> AxisScan
    decreases n,
{
    if n <= 0 {
        AxisScan::Flagged(false)
    } else {
        match scan_axis(attributes, n - 1) {
            AxisScan::Failed(text) => AxisScan::Failed(text),
            AxisScan::Flagged(flag) => match attributes[n - 1] {
                XmlAttribute::Malformed(message) => AxisScan::Failed(
                    "XRDML attribute error: "@ + message@,
                ),
                XmlAttribute::Pair { key, value } => if key@ == axis_key() {
                    match value {
                        Err(message) => AxisScan::Failed(
                            "XRDML attribute decode error: "@ + message@,
                        ),
                        Ok(text) => AxisScan::Flagged(flag || text@ == two_theta()),
                    }
                } else {
                    AxisScan::Flagged(flag)
                },
            },
        }
    }
}

/// The progress of the decoder through a document.
pub struct Progress {
    pub state: XrdmlState,
    pub items: Seq<ItemModel>,
    /// The end or a failure was reached: later events change nothing.
    pub done: bool,
}

/// The decoder before the first event.
pub open spec fn initial_state() -> XrdmlState {
    XrdmlState { in_axis: false, capture_start: false, capture_end: false, in_intensities: false }
}

/// The state after a start tag that did not fail.
pub open spec fn state_after_open(state: XrdmlState, tag: Tag, flagged: bool) -> XrdmlState {
    match tag {
        Tag::Positions => XrdmlState { in_axis: flagged, ..state },
        Tag::StartPosition => XrdmlState {
            capture_start: state.capture_start || state.in_axis,
            ..state
        },
        Tag::EndPosition => XrdmlState { capture_end: state.capture_end || state.in_axis, ..state },
        Tag::Intensities => XrdmlState { in_intensities: true, ..state },
        Tag::Other => state,
    }
}

/// The state after an end tag.
pub open spec fn state_after_close(state: XrdmlState, tag: Tag) -> XrdmlState {
    match tag {
        Tag::Positions => XrdmlState { in_axis: false, ..state },
        Tag::StartPosition => XrdmlState { capture_start: false, ..state },
        Tag::EndPosition => XrdmlState { capture_end: false, ..state },
        Tag::Intensities => XrdmlState { in_intensities: false, ..state },
        Tag::Other => state,
    }
}

/// The item that a text gives: none where it is blank; else the start
/// position, the end position or the intensities, in this order of
/// precedence, as the state says; none outside these elements.
pub open spec fn item_of_text(state: XrdmlState, text: Seq<char>) -> Option<ItemModel> {
    if trimmed(text).len() == 0 {
        None
    } else if state.capture_start {
        Some(ItemModel::Start(trimmed(text)))
    } else if state.capture_end {
        Some(ItemModel::End(trimmed(text)))
    } else if state.in_intensities {
        Some(ItemModel::Intensities(fields(trimmed(text), false)))
    } else {
        None
    }
}

/// The progress after one more event.
pub open spec fn progress_after(before: Progress, step: XmlStep) -> Progress {
    if before.done {
        before
    } else {
        match step {
            XmlStep::Open { name, attributes } => {
                let tag = tag_of(name@);
                match (if tag == Tag::Positions {
                    scan_axis(attributes@, attributes@.len() as int)
                } else {
                    AxisScan::Flagged(false)
                }) {
                    AxisScan::Failed(text) => Progress {
                        state: before.state,
                        items: before.items.push(ItemModel::Failure(text)),
                        done: true,
                    },
                    AxisScan::Flagged(flag) => Progress {
                        state: state_after_open(before.state, tag, flag),
                        ..before
                    },
                }
            },
            XmlStep::Text(text) => match item_of_text(before.state, text@) {
                Some(item) => Progress { items: before.items.push(item), ..before },
                None => before,
            },
            XmlStep::TextFailed(message) => Progress {
                state: before.state,
                items: before.items.push(
                    ItemModel::Failure("XRDML text decode error: "@ + message@),
                ),
                done: true,
            },
            XmlStep::Close { name } => {
                let tag = tag_of(name@);
                Progress {
                    state: state_after_close(before.state, tag),
                    items: if tag == Tag::Intensities {
                        before.items.push(ItemModel::Close)
                    } else {
                        before.items
                    },
                    done: false,
                }
            },
            XmlStep::End => Progress { done: true, ..before },
            XmlStep::Other => before,
            XmlStep::Failed(message) => Progress {
                state: before.state,
                items: before.items.push(ItemModel::Failure("XRDML parse error: "@ + message@)),
                done: true,
            },
        }
    }
}

/// The progress after the first `n` events.
pub open spec fn progress_over(steps: Seq<XmlStep>, n: int) -> Progress
    decreases n,
{
    if n <= 0 {
        Progress { state: initial_state(), items: Seq::empty(), done: false }
    } else {
        progress_after(progress_over(steps, n - 1), steps[n - 1])
    }
}

/// The items of a document: what the decoder keeps of its events.
pub open spec fn items_of(steps: Seq<XmlStep>) -> Seq<ItemModel> {
    progress_over(steps, steps.len() as int).items
}

/// A search that has failed stays failed, with the same description.
pub proof fn lemma_scan_axis_failed(attributes: Seq<XmlAttribute>, at: int, n: int)
    requires
        scan_axis(attributes, at) is Failed,
        at <= n,
    ensures
        scan_axis(attributes, n) == scan_axis(attributes, at),
    decreases n - at,
{
    if at < n {
        lemma_scan_axis_failed(attributes, at, n - 1);
    }
}

/// Searches the attributes of a `positions` tag for the two-theta axis.
pub fn find_axis(attributes: &Vec<XmlAttribute>) -> (r: Result<bool, String>)
    ensures
        match scan_axis(attributes@, attributes@.len() as int) {
            AxisScan::Flagged(flag) => r == Ok::<bool, String>(flag),
            AxisScan::Failed(text) => r matches Err(message) && message@ == text,
        },
{
    let axis: Vec<u8> = vec![0x61u8, 0x78, 0x69, 0x73];
    let theta: Vec<char> = vec!['2', 'T', 'h', 'e', 't', 'a'];
    assert(axis@ =~= axis_key());
    assert(theta@ =~= two_theta());
    let mut flag: bool = false;
    let mut i: usize = 0;
    while i < attributes.len()
        invariant
            i <= attributes@.len(),
            axis@ == axis_key(),
            theta@ == two_theta(),
            scan_axis(attributes@, i as int) == AxisScan::Flagged(flag),
        decreases attributes@.len() - i,
    {
        match &attributes[i] {
            XmlAttribute::Malformed(message) => {
                proof {
                    lemma_scan_axis_failed(attributes@, i + 1, attributes@.len() as int);
                }
                return Err("XRDML attribute error: ".to_owned().concat(message.as_str()));
            },
            XmlAttribute::Pair { key, value } => {
                if same_bytes(key, &axis) {
                    match value {
                        Err(message) => {
                            proof {
                                lemma_scan_axis_failed(
                                    attributes@,
                                    i + 1,
                                    attributes@.len() as int,
                                );
                            }
                            return Err(
                                "XRDML attribute decode error: ".to_owned().concat(
                                    message.as_str(),
                                ),
                            );
                        },
                        Ok(text) => {
                            if same_text(text, &theta) {
                                flag = true;
                            }
                        },
                    }
                }
            },
        }
        i = i + 1;
    }
    Ok(flag)
}

/// Follows one event: updates the state and keeps what is of interest.
/// Returns true when the end or a failure was reached.
pub fn follow_step(state: &mut XrdmlState, items: &mut Vec<XrdmlItem>, step: &XmlStep) -> (done:
    bool)
    ensures
        ({
            let before = Progress {
                state: *old(state),
                items: item_models(old(items)@),
                done: false,
            };
            progress_after(before, *step) == (Progress {
                state: *final(state),
                items: item_models(final(items)@),
                done,
            })
        }),
{
    let ghost kept = item_models(items@);
    match step {
        XmlStep::Open { name, attributes } => {
            let tag: Tag = classify_tag(name);
            match tag {
                Tag::Positions => match find_axis(attributes) {
                    Ok(flag) => {
                        state.in_axis = flag;
                        false
                    },
                    Err(message) => {
                        let item = XrdmlItem::Failure(message);
                        assert(item_models(items@.push(item)) =~= kept.push(item@));
                        items.push(item);
                        true
                    },
                },
                Tag::StartPosition => {
                    if state.in_axis {
                        state.capture_start = true;
                    }
                    false
                },
                Tag::EndPosition => {
                    if state.in_axis {
                        state.capture_end = true;
                    }
                    false
                },
                Tag::Intensities => {
                    state.in_intensities = true;
                    false
                },
                Tag::Other => false,
            }
        },
        XmlStep::Text(text) => {
            let content: Vec<char> = trim(text);
            if content.len() > 0 {
                if state.capture_start {
                    let item = XrdmlItem::Start(content);
                    assert(item_models(items@.push(item)) =~= kept.push(item@));
                    items.push(item);
                } else if state.capture_end {
                    let item = XrdmlItem::End(content);
                    assert(item_models(items@.push(item)) =~= kept.push(item@));
                    items.push(item);
                } else if state.in_intensities {
                    let item = XrdmlItem::Intensities(split_fields(&content, false));
                    assert(item_models(items@.push(item)) =~= kept.push(item@));
                    items.push(item);
                }
            }
            false
        },
        XmlStep::TextFailed(message) => {
            let item = XrdmlItem::Failure(
                "XRDML text decode error: ".to_owned().concat(message.as_str()),
            );
            assert(item_models(items@.push(item)) =~= kept.push(item@));
            items.push(item);
            true
        },
        XmlStep::Close { name } => {
            match classify_tag(name) {
                Tag::Positions => {
                    state.in_axis = false;
                },
                Tag::StartPosition => {
                    state.capture_start = false;
                },
                Tag::EndPosition => {
                    state.capture_end = false;
                },
                Tag::Intensities => {
                    state.in_intensities = false;
                    let item = XrdmlItem::Close;
                    assert(item_models(items@.push(item)) =~= kept.push(item@));
                    items.push(item);
                },
                Tag::Other => {},
            }
            false
        },
        XmlStep::End => true,
        XmlStep::Other => false,
        XmlStep::Failed(message) => {
            let item = XrdmlItem::Failure("XRDML parse error: ".to_owned().concat(message.as_str()));
            assert(item_models(items@.push(item)) =~= kept.push(item@));
            items.push(item);
            true
        },
    }
}

/// Follows the events of a document and keeps the texts of interest.
pub fn xrdml_items(steps: &Vec<XmlStep>) -> (r: Vec<XrdmlItem>)
    ensures
        item_models(r@) == items_of(steps@),
{
    let mut state = XrdmlState {
        in_axis: false,
        capture_start: false,
        capture_end: false,
        in_intensities: false,
    };
    let mut items: Vec<XrdmlItem> = Vec::new();
    let mut done: bool = false;
    let mut i: usize = 0;
    assert(item_models(items@) =~= Seq::empty());
    while i < steps.len()
        invariant
            i <= steps@.len(),
            progress_over(steps@, i as int) == (Progress {
                state,
                items: item_models(items@),
                done,
            }),
        decreases steps@.len() - i,
    {
        if !done {
            done = follow_step(&mut state, &mut items, &steps[i]);
        }
        i = i + 1;
    }
    items
}

/// An item with the numbers read from its texts.
pub enum XrdmlValue {
    /// The start position, or `None` where its text is no number.
    Start(Option<u64>),
    /// The end position, or `None` where its text is no number.
    End(Option<u64>),
    /// What was read from the fields of a text of intensities.
    Intensities(Vec<Option<u64>>),
    /// An `intensities` element ends here.
    Close,
    /// Decoding fails here; carries the description.
    Failure(String),
}

/// `value` holds answers of `number` to the texts of `item`.
pub open spec fn item_read_by<F: Fn(&Vec<char>) -> Option<u64>>(
    number: &F,
    item: XrdmlItem,
    value: XrdmlValue,
) -> bool {
    match item {
        XrdmlItem::Start(text) => value matches XrdmlValue::Start(v) && call_ensures(
            *number,
            (&text,),
            v,
        ),
        XrdmlItem::End(text) => value matches XrdmlValue::End(v) && call_ensures(
            *number,
            (&text,),
            v,
        ),
        XrdmlItem::Intensities(list) => value matches XrdmlValue::Intensities(v) && read_by(
            number,
            list@,
            v@,
        ),
        XrdmlItem::Close => value is Close,
        XrdmlItem::Failure(text) => value matches XrdmlValue::Failure(t) && t@ == text@,
    }
}

/// `values` hold answers of `number` to the texts of `items`, one for one.
pub open spec fn items_read_by<F: Fn(&Vec<char>) -> Option<u64>>(
    number: &F,
    items: Seq<XrdmlItem>,
    values: Seq<XrdmlValue>,
) -> bool {
    &&& values.len() == items.len()
    &&& forall|i: int|
        0 <= i < items.len() ==> item_read_by(number, #[trigger] items[i], values[i])
}

/// Asks `number` about the texts of every item.
pub fn read_items<F: Fn(&Vec<char>) -> Option<u64>>(items: &Vec<XrdmlItem>, number: &F) -> (r:
    Vec<XrdmlValue>)
    requires
        reads_any(number),
    ensures
        items_read_by(number, items@, r@),
{
    let mut values: Vec<XrdmlValue> = Vec::new();
    let mut i: usize = 0;
    while i < items.len()
        invariant
            reads_any(number),
            i <= items@.len(),
            values@.len() == i,
            forall|j: int| 0 <= j < i ==> item_read_by(number, #[trigger] items@[j], values@[j]),
        decreases items@.len() - i,
    {
        let value: XrdmlValue = match &items[i] {
            XrdmlItem::Start(text) => XrdmlValue::Start(number(text)),
            XrdmlItem::End(text) => XrdmlValue::End(number(text)),
            XrdmlItem::Intensities(list) => XrdmlValue::Intensities(read_numbers(list, number)),
            XrdmlItem::Close => XrdmlValue::Close,
            XrdmlItem::Failure(text) => XrdmlValue::Failure(text.clone()),
        };
        values.push(value);
        i = i + 1;
    }
    values
}

/// How far the reading of the values has come.
pub enum Outcome {
    /// Values are still taken.
    Open,
    /// A scan is complete: later values are ignored.
    Stopped,
    /// Decoding has failed; carries the description.
    Failed(Seq<char>),
}

/// What has been read of a scan.
pub struct Reading {
    pub start: Option<u64>,
    pub end: Option<u64>,
    pub intensities: Seq<u64>,
    pub outcome: Outcome,
}

/// A scan is complete: it has both ends of its axis and an intensity.
pub open spec fn scan_complete(reading: Reading) -> bool {
    reading.intensities.len() > 0 && reading.start is Some && reading.end is Some
}

/// The reading after one more value. A start or end position that is no
/// number fails the decoding; intensities that are no numbers are passed
/// over; at the end of an `intensities` element a complete scan stops the
/// reading.
pub open spec fn reading_after(before: Reading, value: XrdmlValue) -> Reading {
    if !(before.outcome is Open) {
        before
    } else {
        match value {
            XrdmlValue::Start(None) => Reading {
                outcome: Outcome::Failed("XRDML invalid 2Theta start position"@),
                ..before
            },
            XrdmlValue::Start(Some(bits)) => Reading { start: Some(bits), ..before },
            XrdmlValue::End(None) => Reading {
                outcome: Outcome::Failed("XRDML invalid 2Theta end position"@),
                ..before
            },
            XrdmlValue::End(Some(bits)) => Reading { end: Some(bits), ..before },
            XrdmlValue::Intensities(list) => Reading {
                intensities: before.intensities + numbers_of(list@),
                ..before
            },
            XrdmlValue::Close => if scan_complete(before) {
                Reading { outcome: Outcome::Stopped, ..before }
            } else {
                before
            },
            XrdmlValue::Failure(text) => Reading { outcome: Outcome::Failed(text@), ..before },
        }
    }
}

/// The reading after the first `n` values.
pub open spec fn reading_over(values: Seq<XrdmlValue>, n: int) -> Reading
    decreases n,
{
    if n <= 0 {
        Reading { start: None, end: None, intensities: Seq::empty(), outcome: Outcome::Open }
    } else {
        reading_after(reading_over(values, n - 1), values[n - 1])
    }
}

/// What the values of a document result in: the failure that stopped the
/// reading; else a failure that names the first of start position, end
/// position and intensities that is missing; else the pattern of the
/// intensities on the axis from the start to the end position.
pub open spec fn xrdml_assembled(
    values: Seq<XrdmlValue>,
    r: Result<ParsedPattern, GeddesError>,
) -> bool {
    let reading = reading_over(values, values.len() as int);
    if let Outcome::Failed(text) = reading.outcome {
        r matches Err(e) && e.is_parse(text)
    } else if reading.start is None {
        r matches Err(e) && e.is_parse("XRDML missing 2Theta start position"@)
    } else if reading.end is None {
        r matches Err(e) && e.is_parse("XRDML missing 2Theta end position"@)
    } else if reading.intensities.len() == 0 {
        r matches Err(e) && e.is_parse("XRDML intensities not found"@)
    } else {
        r matches Ok(pattern) && pattern@ == (PatternModel {
            x: AxisModel::Span { start: reading.start->0, end: reading.end->0 },
            y: reading.intensities,
            e: None,
        })
    }
}

/// Makes the pattern of a document from the values read for its items.
pub fn xrdml_pattern(values: &Vec<XrdmlValue>) -> (r: Result<ParsedPattern, GeddesError>)
    ensures
        xrdml_assembled(values@, r),
        r matches Ok(pattern) ==> pattern.well_formed(),
{
    let mut start: Option<u64> = None;
    let mut end: Option<u64> = None;
    let mut intensities: Vec<u64> = Vec::new();
    let mut failure: Option<String> = None;
    let mut stopped: bool = false;
    let mut i: usize = 0;
    while i < values.len()
        invariant
            i <= values@.len(),
            !(stopped && failure is Some),
            reading_over(values@, i as int) == (Reading {
                start,
                end,
                intensities: intensities@,
                outcome: match failure {
                    Some(text) => Outcome::Failed(text@),
                    None => if stopped {
                        Outcome::Stopped
                    } else {
                        Outcome::Open
                    },
                },
            }),
        decreases values@.len() - i,
    {
        if !stopped && failure.is_none() {
            match &values[i] {
                XrdmlValue::Start(None) => {
                    failure = Some("XRDML invalid 2Theta start position".to_owned());
                },
                XrdmlValue::Start(Some(bits)) => {
                    start = Some(*bits);
                },
                XrdmlValue::End(None) => {
                    failure = Some("XRDML invalid 2Theta end position".to_owned());
                },
                XrdmlValue::End(Some(bits)) => {
                    end = Some(*bits);
                },
                XrdmlValue::Intensities(list) => {
                    let mut kept: Vec<u64> = collect_numbers(list);
                    intensities.append(&mut kept);
                },
                XrdmlValue::Close => {
                    if intensities.len() > 0 && start.is_some() && end.is_some() {
                        stopped = true;
                    }
                },
                XrdmlValue::Failure(text) => {
                    failure = Some(text.clone());
                },
            }
        }
        i = i + 1;
    }
    if let Some(text) = failure {
        return Err(GeddesError::Parse(text));
    }
    let start: u64 = match start {
        Some(bits) => bits,
        None => return Err(parse_error("XRDML missing 2Theta start position")),
    };
    let end: u64 = match end {
        Some(bits) => bits,
        None => return Err(parse_error("XRDML missing 2Theta end position")),
    };
    if intensities.len() == 0 {
        return Err(parse_error("XRDML intensities not found"));
    }
    Ok(ParsedPattern { x: Axis::Span { start, end }, y: intensities, e: None })
}

/// What decoding a document with `number` as the reader of numbers results
/// in: the steps that reading the document gives have items that, with some
/// answers of `number` to their texts, result in `r`.
pub open spec fn xrdml_decoded<F: Fn(&Vec<char>) -> Option<u64>>(
    buf: Seq<u8>,
    number: &F,
    r: Result<ParsedPattern, GeddesError>,
) -> bool {
    exists|steps: Seq<XmlStep>, items: Seq<XrdmlItem>, values: Seq<XrdmlValue>|
        #![trigger items_of(steps), items_read_by(number, items, values)]
        {
            &&& read_to_end(buf, steps)
            &&& item_models(items) == items_of(steps)
            &&& items_read_by(number, items, values)
            &&& xrdml_assembled(values, r)
        }
}

/// Decodes an XRDML document.
pub fn parse_xrdml<F: Fn(&Vec<char>) -> Option<u64>>(buf: &[u8], number: &F) -> (r: Result<
    ParsedPattern,
    GeddesError,
>)
    requires
        reads_any(number),
    ensures
        xrdml_decoded(buf@, number, r),
        r matches Ok(pattern) ==> pattern.well_formed(),
{
    let steps: Vec<XmlStep> = read_document(buf);
    let items: Vec<XrdmlItem> = xrdml_items(&steps);
    let values: Vec<XrdmlValue> = read_items(&items, number);
    let r = xrdml_pattern(&values);
    assert(item_models(items@) == items_of(steps@) && items_read_by(number, items@, values@));
    r
}

} // verus!
