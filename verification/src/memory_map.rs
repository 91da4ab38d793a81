//! The memory map: the flash regions that a target describes in XML.

use crate::client::{continues, heard, round_trip, said, scripted_round_trip, GdbClient};
use crate::error::{ErrorKind, GdbError};
use crate::hex::{hex_number, parse_hex_u64};
use quick_xml::events::Event;
use crate::transport::{GdbTransport, Script};
use quick_xml::Reader;
use vstd::prelude::*;
use vstd::slice::{slice_subrange, slice_to_vec};
use vstd::string::StringSliceAdditionalSpecFns;
use vstd::utf8::{decode_utf8, valid_utf8};

verus! {

/// A contiguous range of flash on the target.
#[derive(Debug, Clone, Copy, PartialEq, Eq)]
pub struct FlashRegion {
    pub start: u64,
    pub length: u64,
    pub blocksize: Option<u64>,
}

/// One attribute of an element, as it stands in the document.
#[derive(Debug)]
pub struct XmlAttribute {
    pub key: Vec<u8>,
    pub value: Vec<u8>,
}

/// What the XML reader finds next in a document.
#[derive(Debug)]
pub enum XmlEvent {
    /// An opening tag, with its attributes in document order; `None` where
    /// the attributes cannot be told apart. A self-closing tag comes as an
    /// opening tag followed by its closing tag.
    Start { name: Vec<u8>, attributes: Option<Vec<XmlAttribute>> },
    /// A closing tag.
    End { name: Vec<u8> },
    /// Character data between tags, trimmed of white space and with its
    /// entities resolved; `None` where they cannot be resolved.
    Text { text: Option<String> },
    /// The end of the document.
    Eof,
    /// The document is not well-formed here.
    Malformed,
    /// Anything else: a comment, a declaration, a processing instruction.
    Other,
}

/// The mathematical value of an `XmlEvent`.
pub enum XmlToken {
    Start { name: Seq<u8>, attributes: Option<Seq<(Seq<u8>, Seq<u8>)>> },
    End { name: Seq<u8> },
    Text { text: Option<Seq<char>> },
    Eof,
    Malformed,
    Other,
}

impl View for XmlAttribute {
    type V = (Seq<u8>, Seq<u8>);

    open spec fn view(&self) -> (Seq<u8>, Seq<u8>) {
        (self.key@, self.value@)
    }
}

impl View for XmlEvent {
    type V = XmlToken;

    open spec fn view(&self) -> XmlToken {
        match self {
            XmlEvent::Start { name, attributes } => XmlToken::Start {
                name: name@,
                attributes: match attributes {
                    Some(list) => Some(list@.map_values(|a: XmlAttribute| a@)),
                    None => None,
                },
            },
            XmlEvent::End { name } => XmlToken::End { name: name@ },
            XmlEvent::Text { text } => XmlToken::Text {
                text: match text {
                    Some(t) => Some(t@),
                    None => None,
                },
            },
            XmlEvent::Eof => XmlToken::Eof,
            XmlEvent::Malformed => XmlToken::Malformed,
            XmlEvent::Other => XmlToken::Other,
        }
    }
}

impl XmlToken {
    /// Whether the reader stops at this event.
    pub open spec fn is_last(self) -> bool {
        self is Eof || self is Malformed
    }
}

/// A run of events as a reader yields it: `Eof` or `Malformed` comes once,
/// at the end.
pub open spec fn is_event_stream(events: Seq<XmlToken>) -> bool {
    &&& events.len() > 0
    &&& events.last().is_last()
    &&& forall|i: int| 0 <= i < events.len() - 1 ==> !(#[trigger] events[i]).is_last()
}

/// quick-xml's `Reader`, taken as it is: nothing inside it is looked at.
#[verifier::external_type_specification]
#[verifier::external_body]
#[verifier::reject_recursive_types(R)]
pub struct ExReader<R>(Reader<R>);

/// The events that quick-xml's `Reader`, set to trim text and to expand
/// empty elements, finds in the document `xml`, up to and including the
/// first `Eof` or error.
pub uninterp spec fn xml_events(xml: Seq<u8>) -> Seq<XmlToken>;

/// The events that `reader` has still to yield.
pub uninterp spec fn unread_events(reader: Reader<&[u8]>) -> Seq<XmlToken>;

/// `Reader::from_reader` on a byte slice, followed by `trim_text(true)` and
/// `expand_empty_elements(true)`. The new reader has the whole of the
/// document's events before it; they end with `Eof` or with an error, and
/// hold neither before that.
#[verifier::external_body]
fn open_reader<'a>(xml: &'a [u8]) -> (reader: Reader<&'a [u8]>)
    ensures
        unread_events(reader) == xml_events(xml@),
        is_event_stream(unread_events(reader)),
{
    let mut reader = Reader::from_reader(xml);
    reader.trim_text(true);
    reader.expand_empty_elements(true);
    reader
}

/// `Reader::read_event_into` with a buffer of its own, and the event it
/// yields as plain values: the name as `name()` gives it, the attributes as
/// `attributes()` yields them, or `None` where it yields an error, the text
/// as `unescape()` gives it, or `None` where that fails. An error of the
/// reader is `Malformed`. No event is `Empty`, since the reader expands
/// empty elements.
#[verifier::external_body]
fn next_event(reader: &mut Reader<&[u8]>) -> (event: XmlEvent)
    requires
        unread_events(*old(reader)).len() > 0,
    ensures
        event@ == unread_events(*old(reader))[0],
        unread_events(*final(reader)) == unread_events(*old(reader)).skip(1),
{
    match reader.read_event_into(&mut Vec::new()) {
        Ok(Event::Start(e)) => XmlEvent::Start {
            name: e.name().0.to_vec(),
            attributes: e.attributes().map(
                |a| a.ok().map(|a| XmlAttribute { key: a.key.0.to_vec(), value: a.value.to_vec() }),
            ).collect(),
        },
        Ok(Event::End(e)) => XmlEvent::End { name: e.name().0.to_vec() },
        Ok(Event::Text(e)) => XmlEvent::Text { text: e.unescape().ok().map(String::from) },
        Ok(Event::Eof) => XmlEvent::Eof,
        Ok(_) => XmlEvent::Other,
        Err(_) => XmlEvent::Malformed,
    }
}

/// `std::str::from_utf8`: the text that `bytes` encode, where they are
/// UTF-8.
#[verifier::external_body]
fn utf8_text(bytes: &[u8]) -> (text: Option<&str>)
    ensures
        text is Some <==> valid_utf8(bytes@),
        text is Some ==> text->0.spec_bytes() == bytes@,
{
    std::str::from_utf8(bytes).ok()
}

/// The name of the element that describes a region.
pub open spec fn memory_tag() -> Seq<u8> {
    "memory".spec_bytes()
}

/// What the attributes of a `memory` element say.
pub struct MemoryAttrs {
    pub flash: bool,
    pub start: u64,
    pub length: u64,
}

/// The number that an attribute value spells; `None` where the value is not
/// UTF-8 or not a hexadecimal number.
pub open spec fn attr_number(value: Seq<u8>) -> Option<u64> {
    if valid_utf8(value) {
        hex_number(decode_utf8(value))
    } else {
        None
    }
}

/// `seen` after one more attribute: `type` says whether the region is
/// flash, `start` and `length` give its numbers, any other attribute says
/// nothing. `None` where `start` or `length` spells no number.
pub open spec fn with_attr(seen: MemoryAttrs, attr: (Seq<u8>, Seq<u8>)) -> Option<MemoryAttrs> {
    if attr.0 == "type".spec_bytes() {
        Some(MemoryAttrs { flash: attr.1 == "flash".spec_bytes(), ..seen })
    } else if attr.0 == "start".spec_bytes() {
        match attr_number(attr.1) {
            Some(n) => Some(MemoryAttrs { start: n, ..seen }),
            None => None,
        }
    } else if attr.0 == "length".spec_bytes() {
        match attr_number(attr.1) {
            Some(n) => Some(MemoryAttrs { length: n, ..seen }),
            None => None,
        }
    } else {
        Some(seen)
    }
}

/// What a list of attributes says, read in order from nothing: a region
/// that is not flash, at 0, of length 0.
pub open spec fn read_attrs(attrs: Seq<(Seq<u8>, Seq<u8>)>) -> Option<MemoryAttrs>
    decreases attrs.len(),
{
    if attrs.len() == 0 {
        Some(MemoryAttrs { flash: false, start: 0, length: 0 })
    } else {
        match read_attrs(attrs.drop_last()) {
            Some(seen) => with_attr(seen, attrs.last()),
            None => None,
        }
    }
}

/// What the attributes of an element say; `None` also where they cannot be
/// told apart.
pub open spec fn element_attrs(attributes: Option<Seq<(Seq<u8>, Seq<u8>)>>) -> Option<
    MemoryAttrs,
> {
    match attributes {
        Some(attrs) => read_attrs(attrs),
        None => None,
    }
}

/// Where the walk through a document stands: the regions found so far, and
/// the flash region that is open, if one is.
pub struct MapScan {
    pub regions: Seq<FlashRegion>,
    pub current: Option<FlashRegion>,
}

/// The walk after one more event; `None` where the event shows the document
/// to be malformed.
///
/// A `memory` element of type flash opens a region, and one of another type
/// changes nothing; one whose attributes cannot be read shows the document
/// to be malformed. Text inside an open region sets its block size where it
/// spells a number. The end of a `memory` element closes the open region
/// and adds it to those found.
pub open spec fn scan_step(scan: MapScan, event: XmlToken) -> Option<MapScan> {
    match event {
        XmlToken::Start { name, attributes } => if name == memory_tag() {
            match element_attrs(attributes) {
                Some(m) => if m.flash {
                    Some(
                        MapScan {
                            current: Some(
                                FlashRegion { start: m.start, length: m.length, blocksize: None },
                            ),
                            ..scan
                        },
                    )
                } else {
                    Some(scan)
                },
                None => None,
            }
        } else {
            Some(scan)
        },
        XmlToken::Text { text } => match scan.current {
            Some(region) => match text {
                Some(t) => match hex_number(t) {
                    Some(size) => Some(
                        MapScan {
                            current: Some(FlashRegion { blocksize: Some(size), ..region }),
                            ..scan
                        },
                    ),
                    None => Some(scan),
                },
                None => None,
            },
            None => Some(scan),
        },
        XmlToken::End { name } => if name == memory_tag() {
            match scan.current {
                Some(region) => Some(MapScan { regions: scan.regions.push(region), current: None }),
                None => Some(scan),
            }
        } else {
            Some(scan)
        },
        XmlToken::Malformed => None,
        XmlToken::Eof => Some(scan),
        XmlToken::Other => Some(scan),
    }
}

/// A `memory` element of type flash, with or without a block size inside,
/// adds one region with its numbers to those found; a `memory` element of
/// another type adds none.
pub proof fn law_one_region_for_each_flash_element(
    scan: MapScan,
    attributes: Seq<(Seq<u8>, Seq<u8>)>,
    size: Option<Seq<char>>,
)
    requires
        scan.current is None,
        read_attrs(attributes) is Some,
        size matches Some(text) ==> hex_number(text) is Some,
    ensures
        ({
            let m = read_attrs(attributes)->0;
            let open = XmlToken::Start { name: memory_tag(), attributes: Some(attributes) };
            let close = XmlToken::End { name: memory_tag() };
            let opened = scan_step(scan, open)->0;
            let filled = match size {
                Some(text) => scan_step(opened, XmlToken::Text { text: Some(text) })->0,
                None => opened,
            };
            let region = FlashRegion {
                start: m.start,
                length: m.length,
                blocksize: match size {
                    Some(text) => hex_number(text),
                    None => None,
                },
            };
            scan_step(filled, close) == Some(
                if m.flash {
                    MapScan { regions: scan.regions.push(region), current: None }
                } else {
                    scan
                },
            )
        }),
{
}

/// The regions that the walk ends with when it goes on from `scan` through
/// `events`: it stops at `Eof` and at the end of `events`, and fails where
/// the document is malformed.
pub open spec fn scan_from(events: Seq<XmlToken>, scan: MapScan) -> Option<Seq<FlashRegion>>
    decreases events.len(),
{
    if events.len() == 0 || events[0] is Eof {
        Some(scan.regions)
    } else {
        match scan_step(scan, events[0]) {
            Some(next) => scan_from(events.skip(1), next),
            None => None,
        }
    }
}

/// The flash regions that a document with these events describes, in
/// document order; `None` where the document is malformed.
pub open spec fn flash_regions_of(events: Seq<XmlToken>) -> Option<Seq<FlashRegion>> {
    scan_from(events, MapScan { regions: Seq::empty(), current: None })
}

/// The mathematical value of what reading a memory map returns.
pub open spec fn regions_view(r: Result<Vec<FlashRegion>, GdbError>) -> Option<Seq<FlashRegion>> {
    match r {
        Ok(regions) => Some(regions@),
        Err(_) => None,
    }
}

/// Whether two byte strings are the same.
fn same_bytes(a: &[u8], b: &[u8]) -> (r: bool)
    ensures
        r == (a@ == b@),
{
    if a.len() != b.len() {
        return false;
    }
    let mut i: usize = 0;
    while i < a.len()
        invariant
            i <= a.len(),
            a@.len() == b@.len(),
            a@.take(i as int) == b@.take(i as int),
        decreases a.len() - i,
    {
        if a[i] != b[i] {
            return false;
        }
        proof {
            assert(a@.take(i + 1) == a@.take(i as int).push(a@[i as int]));
            assert(b@.take(i + 1) == b@.take(i as int).push(b@[i as int]));
        }
        i += 1;
    }
    proof {
        assert(a@.take(i as int) == a@);
        assert(b@.take(i as int) == b@);
    }
    true
}

/// Reads the number that an attribute value spells.
fn parse_attr(value: &[u8]) -> (r: Option<u64>)
    ensures
        r == attr_number(value@),
{
    match utf8_text(value) {
        Some(text) => {
            proof {
                vstd::utf8::encode_utf8_decode_utf8(text@);
            }
            parse_hex_u64(text)
        },
        None => None,
    }
}

/// Reads the attributes of a `memory` element.
#[verifier::rlimit(50)]
fn parse_attrs(attributes: &Vec<XmlAttribute>) -> (r: Option<(bool, u64, u64)>)
    ensures
        match r {
            Some(m) => read_attrs(attributes@.map_values(|a: XmlAttribute| a@)) == Some(
                MemoryAttrs { flash: m.0, start: m.1, length: m.2 },
            ),
            None => read_attrs(attributes@.map_values(|a: XmlAttribute| a@)) is None,
        },
{
    let ghost attrs = attributes@.map_values(|a: XmlAttribute| a@);
    let mut flash: bool = false;
    let mut start: u64 = 0;
    let mut length: u64 = 0;
    let mut i: usize = 0;
    proof {
        assert(attrs.take(0) == Seq::<(Seq<u8>, Seq<u8>)>::empty());
    }
    while i < attributes.len()
        invariant
            i <= attributes.len(),
            attrs == attributes@.map_values(|a: XmlAttribute| a@),
            read_attrs(attrs.take(i as int)) == Some(MemoryAttrs { flash, start, length }),
        decreases attributes.len() - i,
    {
        let attr = &attributes[i];
        let ghost next = attrs.take(i + 1);
        proof {
            assert(next.drop_last() == attrs.take(i as int));
            assert(next.last() == attr@);
            if read_attrs(next) is None {
                lemma_attrs_stay_bad(attrs, i + 1);
            }
        }
        if same_bytes(attr.key.as_slice(), "type".as_bytes()) {
            flash = same_bytes(attr.value.as_slice(), "flash".as_bytes());
        } else if same_bytes(attr.key.as_slice(), "start".as_bytes()) {
            match parse_attr(attr.value.as_slice()) {
                Some(n) => {
                    start = n;
                },
                None => {
                    return None;
                },
            }
        } else if same_bytes(attr.key.as_slice(), "length".as_bytes()) {
            match parse_attr(attr.value.as_slice()) {
                Some(n) => {
                    length = n;
                },
                None => {
                    return None;
                },
            }
        }
        i += 1;
    }
    proof {
        assert(attrs.take(i as int) == attrs);
    }
    Some((flash, start, length))
}

/// Attributes that fail up to some point fail as a whole.
proof fn lemma_attrs_stay_bad(attrs: Seq<(Seq<u8>, Seq<u8>)>, i: int)
    requires
        0 <= i <= attrs.len(),
        read_attrs(attrs.take(i)) is None,
    ensures
        read_attrs(attrs) is None,
    decreases attrs.len() - i,
{
    if i == attrs.len() {
        assert(attrs.take(i) == attrs);
    } else {
        assert(attrs.take(i + 1).drop_last() == attrs.take(i));
        lemma_attrs_stay_bad(attrs, i + 1);
    }
}

/// The walk through a document, as it runs.
struct Scanner {
    regions: Vec<FlashRegion>,
    current: Option<FlashRegion>,
}

impl View for Scanner {
    type V = MapScan;

    closed spec fn view(&self) -> MapScan {
        MapScan { regions: self.regions@, current: self.current }
    }
}

impl Scanner {
    /// Takes one event; `false` where it shows the document to be malformed.
    fn feed(&mut self, event: &XmlEvent) -> (ok: bool)
        ensures
            match scan_step(old(self)@, event@) {
                Some(next) => ok && final(self)@ == next,
                None => !ok,
            },
    {
        match event {
            XmlEvent::Start { name, attributes } => {
                if same_bytes(name.as_slice(), "memory".as_bytes()) {
                    let read = match attributes {
                        Some(list) => parse_attrs(list),
                        None => None,
                    };
                    match read {
                        Some((flash, start, length)) => {
                            if flash {
                                self.current = Some(FlashRegion { start, length, blocksize: None });
                            }
                            true
                        },
                        None => false,
                    }
                } else {
                    true
                }
            },
            XmlEvent::Text { text } => {
                match self.current {
                    Some(region) => match text {
                        Some(t) => {
                            match parse_hex_u64(t.as_str()) {
                                Some(size) => {
                                    self.current = Some(
                                        FlashRegion {
                                            start: region.start,
                                            length: region.length,
                                            blocksize: Some(size),
                                        },
                                    );
                                },
                                None => {},
                            }
                            true
                        },
                        None => false,
                    },
                    None => true,
                }
            },
            XmlEvent::End { name } => {
                if same_bytes(name.as_slice(), "memory".as_bytes()) {
                    match self.current {
                        Some(region) => {
                            self.regions.push(region);
                            self.current = None;
                        },
                        None => {},
                    }
                }
                true
            },
            XmlEvent::Malformed => false,
            XmlEvent::Eof => true,
            XmlEvent::Other => true,
        }
    }
}

/// Whether the walk stops at `event`.
fn ends_document(event: &XmlEvent) -> (r: bool)
    ensures
        r == (event@ is Eof),
{
    match event {
        XmlEvent::Eof => true,
        _ => false,
    }
}

/// The flash regions that a document with these events describes.
pub fn collect_flash_regions(events: &Vec<XmlEvent>) -> (r: Result<Vec<FlashRegion>, GdbError>)
    ensures
        regions_view(r) == flash_regions_of(events@.map_values(|e: XmlEvent| e@)),
        r is Err ==> r->Err_0@ is MalformedMemoryMap,
{
    let ghost tokens = events@.map_values(|e: XmlEvent| e@);
    let mut scanner = Scanner { regions: Vec::new(), current: None };
    let mut i: usize = 0;
    proof {
        assert(tokens.skip(0) == tokens);
    }
    while i < events.len()
        invariant
            i <= events.len(),
            tokens == events@.map_values(|e: XmlEvent| e@),
            flash_regions_of(tokens) == scan_from(tokens.skip(i as int), scanner@),
        decreases events.len() - i,
    {
        let event = &events[i];
        proof {
            assert(tokens.skip(i as int)[0] == event@);
            assert(tokens.skip(i as int).skip(1) == tokens.skip(i + 1));
        }
        if ends_document(event) {
            return Ok(scanner.regions);
        }
        if !scanner.feed(event) {
            return Err(GdbError::MalformedMemoryMap);
        }
        i += 1;
    }
    Ok(scanner.regions)
}

/// Reads the flash regions out of a memory map document.
#[verifier::rlimit(50)]
pub fn parse_flash_regions_from_xml(xml: &[u8]) -> (r: Result<Vec<FlashRegion>, GdbError>)
    ensures
        regions_view(r) == flash_regions_of(xml_events(xml@)),
        r is Err ==> r->Err_0@ is MalformedMemoryMap,
{
    let ghost tokens = xml_events(xml@);
    let mut reader = open_reader(xml);
    let mut scanner = Scanner { regions: Vec::new(), current: None };
    loop
        invariant
            tokens == xml_events(xml@),
            is_event_stream(unread_events(reader)),
            flash_regions_of(tokens) == scan_from(unread_events(reader), scanner@),
        decreases unread_events(reader).len(),
    {
        let ghost rest = unread_events(reader);
        let event = next_event(&mut reader);
        if ends_document(&event) {
            return Ok(scanner.regions);
        }
        if !scanner.feed(&event) {
            return Err(GdbError::MalformedMemoryMap);
        }
        proof {
            assert(!event@.is_last());
            assert(rest.len() > 1);
            let after = rest.skip(1);
            assert(after.last() == rest.last());
            assert forall|i: int| 0 <= i < after.len() - 1 implies !(#[trigger] after[i]).is_last() by {
                assert(after[i] == rest[i + 1]);
            }
        }
    }
}


/// The command that asks for the memory map.
pub open spec fn map_query() -> Seq<u8> {
    "qXfer:memory-map:read::0,fff".spec_bytes()
}

/// What the reply `payload` to the memory map query means. An empty
/// payload, and one that starts with `E`, is a rejection. Otherwise the
/// first byte marks the transfer and the rest is the document.
pub open spec fn map_reply(payload: Seq<u8>) -> Result<Seq<FlashRegion>, ErrorKind> {
    if payload.len() == 0 || payload[0] == 0x45 {
        Err(ErrorKind::RemoteRejected { command: map_query(), response: payload })
    } else {
        match flash_regions_of(xml_events(payload.skip(1))) {
            Some(regions) => Ok(regions),
            None => Err(ErrorKind::MalformedMemoryMap),
        }
    }
}

/// The mathematical value of what the memory map query returns.
pub open spec fn info_view(r: Result<Vec<FlashRegion>, GdbError>) -> Result<
    Seq<FlashRegion>,
    ErrorKind,
> {
    match r {
        Ok(regions) => Ok(regions@),
        Err(e) => Err(e@),
    }
}

/// What the memory map query does: `tx` is what the client sent, `rx` what
/// it received, `r` what it returns. Either the round trip fails and its
/// error is the result, or it brings a payload and the result is what the
/// payload means.
pub open spec fn map_round_trip(
    tx: Seq<Seq<u8>>,
    rx: Seq<u8>,
    r: Result<Seq<FlashRegion>, ErrorKind>,
) -> bool {
    ||| r is Err && round_trip(map_query(), tx, rx, Err(r->Err_0))
    ||| exists|payload: Seq<u8>| #[trigger]
        round_trip(map_query(), tx, rx, Ok(payload)) && r == map_reply(payload)
}

/// What the memory map query comes to on a scripted stream: what the client
/// returns, and the stream afterwards.
pub open spec fn scripted_query(m: Script) -> (Result<Seq<FlashRegion>, ErrorKind>, Script) {
    (
        match scripted_round_trip(map_query(), m).0 {
            Ok(payload) => map_reply(payload),
            Err(e) => Err(e),
        },
        scripted_round_trip(map_query(), m).1,
    )
}

/// A peer that answers the memory map query with `-` makes it fail with
/// `NegativeAck`, and nothing but the frame of the query is sent.
pub proof fn law_query_negative_ack(
    tx: Seq<Seq<u8>>,
    rx: Seq<u8>,
    r: Result<Seq<FlashRegion>, ErrorKind>,
)
    requires
        map_round_trip(tx, rx, r),
        rx.len() > 0,
        rx[0] == 0x2d,
    ensures
        r == Err::<Seq<FlashRegion>, ErrorKind>(ErrorKind::NegativeAck),
        tx == seq![crate::codec::frame(map_query())],
{
}

/// Reads the flash regions out of the reply to the memory map query.
pub fn flash_info_from_reply(payload: Vec<u8>) -> (r: Result<Vec<FlashRegion>, GdbError>)
    ensures
        info_view(r) == map_reply(payload@),
{
    if payload.len() == 0 || payload[0] == 0x45 {
        let command: Vec<u8> = slice_to_vec("qXfer:memory-map:read::0,fff".as_bytes());
        return Err(GdbError::RemoteRejected { command, response: payload });
    }
    let xml: &[u8] = slice_subrange(payload.as_slice(), 1, payload.len());
    proof {
        assert(xml@ == payload@.skip(1));
    }
    parse_flash_regions_from_xml(xml)
}

impl<T: GdbTransport> GdbClient<T> {
    /// Asks the peer for its memory map and returns the flash regions in it.
    pub fn get_flash_info(&mut self) -> (r: Result<Vec<FlashRegion>, GdbError>)
        ensures
            final(self).connected() == old(self).connected(),
            continues(old(self).traffic(), final(self).traffic()),
            map_round_trip(
                said(old(self).traffic(), final(self).traffic()),
                heard(old(self).traffic(), final(self).traffic()),
                info_view(r),
            ),
            old(self).link().script() matches Some(m) ==> m.fits() ==> {
                &&& info_view(r) == scripted_query(m).0
                &&& final(self).link().script() == Some(scripted_query(m).1)
            },
    {
        match self.exchange("qXfer:memory-map:read::0,fff".as_bytes()) {
            Ok(payload) => flash_info_from_reply(payload),
            Err(e) => Err(e),
        }
    }
}


} // verus!
