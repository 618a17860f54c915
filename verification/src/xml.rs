//! The one call into quick-xml that reading a WebDAV multistatus body
//! makes: pulling every event of a body from quick-xml's reader. Nothing
//! here decides anything about multistatus bodies; the events are handed
//! over as plain values.

use vstd::prelude::*;
use quick_xml::events::Event;
use quick_xml::reader::Reader;

verus! {

#[verifier::external_type_specification]
#[verifier::external_body]
pub struct ExXmlError(quick_xml::Error);

/// One event of quick-xml's pull parser as plain values. A start or end
/// tag carries its raw (undecoded, prefixed) name; a text event carries its
/// text with entity references resolved, or `None` where quick-xml could
/// not resolve them; every other kind of event (empty elements, comments,
/// CDATA, declarations, processing instructions, DOCTYPE) is `Other`.
#[derive(Debug)]
pub enum RawEvent {
    Start(Vec<u8>),
    End(Vec<u8>),
    Text(Option<String>),
    Other,
}

pub enum RawEventView {
    Start(Seq<u8>),
    End(Seq<u8>),
    Text(Option<Seq<char>>),
    Other,
}

impl View for RawEvent {
    type V = RawEventView;

    open spec fn view(&self) -> RawEventView {
        match self {
            RawEvent::Start(n) => RawEventView::Start(n@),
            RawEvent::End(n) => RawEventView::End(n@),
            RawEvent::Text(t) => RawEventView::Text(
                match t {
                    Some(s) => Some(s@),
                    None => None,
                },
            ),
            RawEvent::Other => RawEventView::Other,
        }
    }
}

pub open spec fn raw_views(evs: Seq<RawEvent>) -> Seq<RawEventView> {
    evs.map_values(|e: RawEvent| e@)
}

/// What quick-xml's reader reports for `body`, read with `trim_text(true)`
/// from the start up to the end of input: the events before the end, or
/// `None` where the reader reports an error first. The slice reader reads
/// nothing but `body`, so this depends on `body` alone.
pub uninterp spec fn quick_xml_read(body: Seq<char>) -> Option<Seq<RawEventView>>;

/// `Reader::from_str(body)` with `Config::trim_text(true)`, then
/// `Reader::read_event` until `Event::Eof`: every event before the end of
/// input (start and end tags by `BytesStart::name` / `BytesEnd::name`,
/// text by `BytesText::unescape`), or quick-xml's first error. The contract
/// claims only that the result is `quick_xml_read(body)`: the events that
/// name stands for are not spelled out here.
#[verifier::external_body]
pub(crate) fn read_all_events(body: &str) -> (r: Result<Vec<RawEvent>, quick_xml::Error>)
    ensures
        match r {
            Ok(events) => quick_xml_read(body@) == Some(raw_views(events@)),
            Err(_) => quick_xml_read(body@) is None,
        },
{
    let mut reader = Reader::from_str(body);
    reader.config_mut().trim_text(true);
    let mut events = Vec::new();
    loop {
        events.push(match reader.read_event()? {
            Event::Start(e) => RawEvent::Start(e.name().as_ref().to_vec()),
            Event::End(e) => RawEvent::End(e.name().as_ref().to_vec()),
            Event::Text(t) => RawEvent::Text(t.unescape().ok().map(std::borrow::Cow::into_owned)),
            Event::Eof => return Ok(events),
            _ => RawEvent::Other,
        });
    }
}

} // verus!
