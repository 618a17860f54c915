//! Reading a WebDAV multistatus (207) response body into per-<response>
//! entries: href, getetag, getcontenttype, address-data and whether the
//! status is 200.
//!
//! The XML is read by quick-xml; what this module decides from its events
//! is a fold over plain events, `entries_of`, proved for every sequence of
//! events.

use vstd::prelude::*;
use crate::text::{
    after_first, after_first_chars, chars_of, contains_chars, contains_seq, decode_lossy,
    lemma_strip_both_ends, lossy_utf8, lower_chars, lower_seq, opt_chars, str_eq, strip_both,
    strip_both_chars, string_of,
};
use crate::xml::{quick_xml_read, raw_views, read_all_events, RawEvent, RawEventView};

verus! {

/// An XML event as this module reads it: tag names are local names
/// (namespace prefix removed, ASCII lower-cased), text is unescaped.
pub enum XmlEvent {
    Start(String),
    End(String),
    Text(String),
    Other,
}

pub enum XmlEventView {
    Start(Seq<char>),
    End(Seq<char>),
    Text(Seq<char>),
    Other,
}

impl View for XmlEvent {
    type V = XmlEventView;

    open spec fn view(&self) -> XmlEventView {
        match self {
            XmlEvent::Start(n) => XmlEventView::Start(n@),
            XmlEvent::End(n) => XmlEventView::End(n@),
            XmlEvent::Text(t) => XmlEventView::Text(t@),
            XmlEvent::Other => XmlEventView::Other,
        }
    }
}

/// What one <response> element of a multistatus body says.
#[derive(Debug)]
pub struct MultistatusEntry {
    pub href: Option<String>,
    pub etag: Option<String>,
    pub content_type: Option<String>,
    pub address_data: Option<String>,
    pub status_ok: bool,
}

pub struct EntryView {
    pub href: Option<Seq<char>>,
    pub etag: Option<Seq<char>>,
    pub content_type: Option<Seq<char>>,
    pub address_data: Option<Seq<char>>,
    pub status_ok: bool,
}

impl View for MultistatusEntry {
    type V = EntryView;

    open spec fn view(&self) -> EntryView {
        EntryView {
            href: opt_chars(self.href),
            etag: opt_chars(self.etag),
            content_type: opt_chars(self.content_type),
            address_data: opt_chars(self.address_data),
            status_ok: self.status_ok,
        }
    }
}

pub open spec fn entry_views(es: Seq<MultistatusEntry>) -> Seq<EntryView> {
    es.map_values(|e: MultistatusEntry| e@)
}

pub open spec fn event_views(evs: Seq<XmlEvent>) -> Seq<XmlEventView> {
    evs.map_values(|e: XmlEvent| e@)
}

// ---------------------------------------------------------------------
// The fold over events
// ---------------------------------------------------------------------

/// Where the reading of a multistatus body stands.
pub struct FoldState {
    /// The <response> element being read, if any.
    pub current: Option<EntryView>,
    /// The field element (href, getetag, address-data, status) being read.
    pub field: Option<Seq<char>>,
    /// Whether a getcontenttype element is being read. It is kept apart
    /// from `field`: reading a content type leaves the field being read
    /// open.
    pub in_type: bool,
    /// The <response> elements read to their end.
    pub entries: Seq<EntryView>,
}

pub open spec fn empty_entry() -> EntryView {
    EntryView { href: None, etag: None, content_type: None, address_data: None, status_ok: false }
}

pub open spec fn is_field_name(n: Seq<char>) -> bool {
    n == "href"@ || n == "getetag"@ || n == "address-data"@ || n == "status"@
}

/// The entry after the text `t` of its field `f`.
pub open spec fn fill_field(e: EntryView, f: Seq<char>, t: Seq<char>) -> EntryView {
    if f == "href"@ {
        EntryView { href: Some(t), ..e }
    } else if f == "getetag"@ {
        EntryView { etag: Some(strip_both(t, '"')), ..e }
    } else if f == "address-data"@ {
        EntryView { address_data: Some(t), ..e }
    } else if f == "status"@ {
        EntryView { status_ok: contains_seq(t, "200"@), ..e }
    } else {
        e
    }
}

/// The entry after text `t` read inside it: the text fills the field being
/// read, if any, and is the content type while a getcontenttype element is
/// being read.
pub open spec fn read_text(e: EntryView, field: Option<Seq<char>>, in_type: bool, t: Seq<char>) -> EntryView {
    let filled = match field {
        Some(f) => fill_field(e, f, t),
        None => e,
    };
    if in_type {
        EntryView { content_type: Some(t), ..filled }
    } else {
        filled
    }
}

/// One event applied to the state of the reading.
pub open spec fn fold_step(st: FoldState, ev: XmlEventView) -> FoldState {
    match ev {
        XmlEventView::Start(n) => {
            if n == "response"@ {
                FoldState { current: Some(empty_entry()), ..st }
            } else if is_field_name(n) {
                FoldState { field: Some(n), ..st }
            } else if n == "getcontenttype"@ {
                FoldState { in_type: true, ..st }
            } else {
                st
            }
        },
        XmlEventView::Text(t) => {
            match st.current {
                Some(e) => FoldState { current: Some(read_text(e, st.field, st.in_type, t)), ..st },
                None => st,
            }
        },
        XmlEventView::End(n) => {
            let field = if st.field == Some(n) {
                None
            } else {
                st.field
            };
            let in_type = st.in_type && n != "getcontenttype"@;
            if n == "response"@ {
                match st.current {
                    Some(e) => FoldState {
                        current: None,
                        field: field,
                        in_type: in_type,
                        entries: st.entries.push(e),
                    },
                    None => FoldState { current: None, field: field, in_type: in_type, ..st },
                }
            } else {
                FoldState { field: field, in_type: in_type, ..st }
            }
        },
        XmlEventView::Other => st,
    }
}

pub open spec fn initial_state() -> FoldState {
    FoldState { current: None, field: None, in_type: false, entries: Seq::empty() }
}

/// The state after reading `evs` from the start.
pub open spec fn fold_events(evs: Seq<XmlEventView>) -> FoldState
    decreases evs.len(),
{
    if evs.len() == 0 {
        initial_state()
    } else {
        fold_step(fold_events(evs.drop_last()), evs.last())
    }
}

/// The entries that a sequence of events describes, in order: one for
/// each <response> element that was closed.
pub open spec fn entries_of(evs: Seq<XmlEventView>) -> Seq<EntryView> {
    fold_events(evs).entries
}

struct Reading {
    current: Option<MultistatusEntry>,
    field: Option<String>,
    in_type: bool,
    entries: Vec<MultistatusEntry>,
}

impl View for Reading {
    type V = FoldState;

    closed spec fn view(&self) -> FoldState {
        FoldState {
            current: match self.current {
                Some(e) => Some(e@),
                None => None,
            },
            field: opt_chars(self.field),
            in_type: self.in_type,
            entries: entry_views(self.entries@),
        }
    }
}

fn new_entry() -> (e: MultistatusEntry)
    ensures
        e@ == empty_entry(),
{
    MultistatusEntry {
        href: None,
        etag: None,
        content_type: None,
        address_data: None,
        status_ok: false,
    }
}

fn fill_field_exec(e: MultistatusEntry, f: &String, t: &String) -> (r: MultistatusEntry)
    ensures
        r@ == fill_field(e@, f@, t@),
{
    if str_eq(f.as_str(), "href") {
        MultistatusEntry { href: Some(t.clone()), ..e }
    } else if str_eq(f.as_str(), "getetag") {
        let trimmed = string_of(&strip_both_chars(&chars_of(t.as_str()), '"'));
        MultistatusEntry { etag: Some(trimmed), ..e }
    } else if str_eq(f.as_str(), "address-data") {
        MultistatusEntry { address_data: Some(t.clone()), ..e }
    } else if str_eq(f.as_str(), "status") {
        let ok = contains_chars(&chars_of(t.as_str()), &chars_of("200"));
        MultistatusEntry { status_ok: ok, ..e }
    } else {
        e
    }
}

fn read_text_exec(e: MultistatusEntry, field: &Option<String>, in_type: bool, t: &String) -> (r:
    MultistatusEntry)
    ensures
        r@ == read_text(e@, opt_chars(*field), in_type, t@),
{
    let filled = match field {
        Some(f) => fill_field_exec(e, f, t),
        None => e,
    };
    if in_type {
        MultistatusEntry { content_type: Some(t.clone()), ..filled }
    } else {
        filled
    }
}

fn step(st: Reading, ev: &XmlEvent) -> (r: Reading)
    ensures
        r@ == fold_step(st@, ev@),
{
    let Reading { current, field, in_type, mut entries } = st;
    match ev {
        XmlEvent::Start(n) => {
            if str_eq(n.as_str(), "response") {
                Reading { current: Some(new_entry()), field, in_type, entries }
            } else if str_eq(n.as_str(), "href") || str_eq(n.as_str(), "getetag") || str_eq(
                n.as_str(),
                "address-data",
            ) || str_eq(n.as_str(), "status") {
                Reading { current, field: Some(n.clone()), in_type, entries }
            } else if str_eq(n.as_str(), "getcontenttype") {
                Reading { current, field, in_type: true, entries }
            } else {
                Reading { current, field, in_type, entries }
            }
        },
        XmlEvent::Text(t) => {
            match current {
                Some(e) => {
                    let e2 = read_text_exec(e, &field, in_type, t);
                    Reading { current: Some(e2), field, in_type, entries }
                },
                None => Reading { current: None, field, in_type, entries },
            }
        },
        XmlEvent::End(n) => {
            let field = match field {
                Some(f) => {
                    if str_eq(f.as_str(), n.as_str()) {
                        None
                    } else {
                        Some(f)
                    }
                },
                None => None,
            };
            let in_type = in_type && !str_eq(n.as_str(), "getcontenttype");
            if str_eq(n.as_str(), "response") {
                match current {
                    Some(e) => {
                        let ghost before = entries@;
                        entries.push(e);
                        assert(entry_views(entries@) =~= entry_views(before).push(e@));
                        Reading { current: None, field, in_type, entries }
                    },
                    None => Reading { current: None, field, in_type, entries },
                }
            } else {
                Reading { current, field, in_type, entries }
            }
        },
        XmlEvent::Other => Reading { current, field, in_type, entries },
    }
}

/// The entries that `events` describe.
pub fn entries_from_events(events: &Vec<XmlEvent>) -> (entries: Vec<MultistatusEntry>)
    ensures
        entry_views(entries@) == entries_of(event_views(events@)),
{
    let ghost evs = event_views(events@);
    let mut st = Reading { current: None, field: None, in_type: false, entries: Vec::new() };
    assert(entry_views(st.entries@) =~= Seq::<EntryView>::empty());
    assert(evs.take(0) =~= Seq::<XmlEventView>::empty());
    let mut i: usize = 0;
    while i < events.len()
        invariant
            i <= events@.len(),
            evs == event_views(events@),
            st@ == fold_events(evs.take(i as int)),
        decreases events@.len() - i,
    {
        assert(evs.take(i + 1).drop_last() =~= evs.take(i as int));
        st = step(st, &events[i]);
        i += 1;
    }
    assert(evs.take(events@.len() as int) =~= evs);
    st.entries
}

// ---------------------------------------------------------------------
// Reading the body with quick-xml
// ---------------------------------------------------------------------

/// The local name of a raw tag name: the part after the first ':' (the
/// whole name when there is none), ASCII lower-cased.
pub open spec fn local_name_spec(qname: Seq<u8>) -> Seq<char> {
    lower_seq(after_first(lossy_utf8(qname), ':'))
}

/// The local name of a raw tag name.
pub fn local_name(qname: &[u8]) -> (name: String)
    ensures
        name@ == local_name_spec(qname@),
{
    let s = decode_lossy(qname);
    string_of(&lower_chars(&after_first_chars(&chars_of(s.as_str()), ':')))
}

/// A reader event as this module reads it: tag names by their local
/// names, text whose entity references could not be resolved as empty.
pub open spec fn local_event(ev: RawEventView) -> XmlEventView {
    match ev {
        RawEventView::Start(q) => XmlEventView::Start(local_name_spec(q)),
        RawEventView::End(q) => XmlEventView::End(local_name_spec(q)),
        RawEventView::Text(Some(t)) => XmlEventView::Text(t),
        RawEventView::Text(None) => XmlEventView::Text(Seq::empty()),
        RawEventView::Other => XmlEventView::Other,
    }
}

pub open spec fn local_events(evs: Seq<RawEventView>) -> Seq<XmlEventView> {
    evs.map_values(|ev: RawEventView| local_event(ev))
}

/// The entries of a multistatus body: those that the events quick-xml
/// reports for it describe, or `None` where quick-xml reports an error.
pub open spec fn read_entries(body: Seq<char>) -> Option<Seq<EntryView>> {
    match quick_xml_read(body) {
        Some(evs) => Some(entries_of(local_events(evs))),
        None => None,
    }
}

fn to_event(raw: &RawEvent) -> (ev: XmlEvent)
    ensures
        ev@ == local_event(raw@),
{
    match raw {
        RawEvent::Start(q) => XmlEvent::Start(local_name(q.as_slice())),
        RawEvent::End(q) => XmlEvent::End(local_name(q.as_slice())),
        RawEvent::Text(Some(t)) => XmlEvent::Text(t.clone()),
        RawEvent::Text(None) => XmlEvent::Text(String::new()),
        RawEvent::Other => XmlEvent::Other,
    }
}

/// The entries that the reader events `events` describe.
pub fn entries_from_raw_events(events: &Vec<RawEvent>) -> (entries: Vec<MultistatusEntry>)
    ensures
        entry_views(entries@) == entries_of(local_events(raw_views(events@))),
{
    let ghost target = local_events(raw_views(events@));
    let mut local: Vec<XmlEvent> = Vec::new();
    let mut i: usize = 0;
    while i < events.len()
        invariant
            i <= events@.len(),
            target == local_events(raw_views(events@)),
            event_views(local@) == target.take(i as int),
        decreases events@.len() - i,
    {
        let ev = to_event(&events[i]);
        let ghost before = local@;
        local.push(ev);
        assert(event_views(local@) =~= event_views(before).push(ev@));
        assert(target.take(i + 1) =~= target.take(i as int).push(target[i as int]));
        i += 1;
    }
    assert(target.take(events@.len() as int) =~= target);
    entries_from_events(&local)
}

/// Why a multistatus body could not be read.
#[derive(Debug)]
pub enum MultistatusError {
    /// quick-xml reported an error.
    Xml(quick_xml::Error),
}

/// Parses a WebDAV multistatus (207) response body into per-<response>
/// entries, extracting href / getetag / getcontenttype / address-data /
/// status text.
pub fn parse_multistatus(body: &str) -> (r: Result<Vec<MultistatusEntry>, MultistatusError>)
    ensures
        match read_entries(body@) {
            Some(es) => r matches Ok(entries) && entry_views(entries@) == es,
            None => r is Err,
        },
{
    match read_all_events(body) {
        Ok(events) => Ok(entries_from_raw_events(&events)),
        Err(e) => Err(MultistatusError::Xml(e)),
    }
}

// ---------------------------------------------------------------------
// Laws
// ---------------------------------------------------------------------

/// Whether a <response> element is open after `evs`: the last response tag
/// among them is a start tag.
pub open spec fn response_open(evs: Seq<XmlEventView>) -> bool
    decreases evs.len(),
{
    if evs.len() == 0 {
        false
    } else if evs.last() == XmlEventView::Start("response"@) {
        true
    } else if evs.last() == XmlEventView::End("response"@) {
        false
    } else {
        response_open(evs.drop_last())
    }
}

/// How many <response> elements `evs` close: the response end tags that
/// come while a response is open.
pub open spec fn closed_responses(evs: Seq<XmlEventView>) -> nat
    decreases evs.len(),
{
    if evs.len() == 0 {
        0
    } else if evs.last() == XmlEventView::End("response"@) && response_open(evs.drop_last()) {
        closed_responses(evs.drop_last()) + 1
    } else {
        closed_responses(evs.drop_last())
    }
}

/// A sequence of events describes one entry per <response> element it
/// closes; a <response> element is being read exactly while one is open.
pub proof fn law_one_entry_per_closed_response(evs: Seq<XmlEventView>)
    ensures
        entries_of(evs).len() == closed_responses(evs),
        fold_events(evs).current is Some <==> response_open(evs),
    decreases evs.len(),
{
    if evs.len() > 0 {
        law_one_entry_per_closed_response(evs.drop_last());
    }
}

proof fn lemma_step_extends(st: FoldState, ev: XmlEventView)
    ensures
        fold_step(st, ev).entries == st.entries || fold_step(st, ev).entries == st.entries.push(
            fold_step(st, ev).entries.last(),
        ),
{
}

/// Entries come in document order: reading more of a body never changes
/// the entries already read, it only adds entries after them.
pub proof fn law_entries_in_document_order(evs: Seq<XmlEventView>, more: Seq<XmlEventView>)
    ensures
        entries_of(evs).len() <= entries_of(evs + more).len(),
        entries_of(evs + more).take(entries_of(evs).len() as int) == entries_of(evs),
    decreases more.len(),
{
    if more.len() == 0 {
        assert(evs + more =~= evs);
        assert(entries_of(evs).take(entries_of(evs).len() as int) =~= entries_of(evs));
    } else {
        let shorter = evs + more.drop_last();
        law_entries_in_document_order(evs, more.drop_last());
        assert((evs + more).drop_last() =~= shorter);
        lemma_step_extends(fold_events(shorter), (evs + more).last());
        let k = entries_of(evs).len() as int;
        assert(entries_of(evs + more).take(k) =~= entries_of(shorter).take(k));
    }
}

/// A multistatus body that quick-xml reads is read into one entry per
/// <response> element that its events close, and one that quick-xml
/// cannot read is not read at all.
pub proof fn law_multistatus_structure(body: Seq<char>)
    ensures
        match quick_xml_read(body) {
            Some(evs) => read_entries(body) matches Some(es) && es.len() == closed_responses(
                local_events(evs),
            ),
            None => read_entries(body) is None,
        },
{
    if let Some(evs) = quick_xml_read(body) {
        law_one_entry_per_closed_response(local_events(evs));
    }
}

/// An entry whose etag, if any, neither starts nor ends with '"'.
pub open spec fn etag_unquoted(e: EntryView) -> bool {
    e.etag matches Some(t) ==> (t.len() == 0 || (t[0] != '"' && t.last() != '"'))
}

proof fn lemma_fold_etags_unquoted(evs: Seq<XmlEventView>)
    ensures
        fold_events(evs).current matches Some(e) ==> etag_unquoted(e),
        forall|i: int|
            0 <= i < fold_events(evs).entries.len() ==> etag_unquoted(
                #[trigger] fold_events(evs).entries[i],
            ),
    decreases evs.len(),
{
    if evs.len() > 0 {
        lemma_fold_etags_unquoted(evs.drop_last());
        let st = fold_events(evs.drop_last());
        if let XmlEventView::Text(t) = evs.last() {
            lemma_strip_both_ends(t, '"');
        }
        let st2 = fold_events(evs);
        assert forall|i: int| 0 <= i < st2.entries.len() implies etag_unquoted(
            #[trigger] st2.entries[i],
        ) by {
            if i < st.entries.len() {
                assert(st2.entries[i] == st.entries[i]);
            }
        }
    }
}

/// The etag of an entry is the getetag text with its surrounding double
/// quotes removed: no etag read from a multistatus body starts or ends
/// with '"'.
pub proof fn law_etags_unquoted(evs: Seq<XmlEventView>)
    ensures
        forall|i: int|
            0 <= i < entries_of(evs).len() ==> etag_unquoted(#[trigger] entries_of(evs)[i]),
{
    lemma_fold_etags_unquoted(evs);
}

/// The state after reading `evs` from the state `st`.
pub open spec fn fold_from(st: FoldState, evs: Seq<XmlEventView>) -> FoldState
    decreases evs.len(),
{
    if evs.len() == 0 {
        st
    } else {
        fold_step(fold_from(st, evs.drop_last()), evs.last())
    }
}

proof fn lemma_fold_append(evs: Seq<XmlEventView>, more: Seq<XmlEventView>)
    ensures
        fold_events(evs + more) == fold_from(fold_events(evs), more),
    decreases more.len(),
{
    if more.len() == 0 {
        assert(evs + more =~= evs);
    } else {
        lemma_fold_append(evs, more.drop_last());
        assert((evs + more).drop_last() =~= evs + more.drop_last());
    }
}

/// An event that leaves the reading where it was, in the state `st`: an
/// event that is no tag or text, text outside a <response> element or
/// outside its fields and content type, the start of an element that is
/// neither a <response>, one of its fields nor a getcontenttype, and the
/// end of any element but a <response>, the field being read or the
/// getcontenttype being read.
pub open spec fn ignored_in(st: FoldState, ev: XmlEventView) -> bool {
    match ev {
        XmlEventView::Other => true,
        XmlEventView::Text(_) => st.current is None || (st.field is None && !st.in_type),
        XmlEventView::Start(n) => n != "response"@ && !is_field_name(n) && n != "getcontenttype"@,
        XmlEventView::End(n) => n != "response"@ && st.field != Some(n) && (n != "getcontenttype"@
            || !st.in_type),
    }
}

/// What the reading ignores changes no entry: the entries of a body with
/// such an event are those of the body without it, whatever follows.
pub proof fn law_ignored_events(evs: Seq<XmlEventView>, ev: XmlEventView, more: Seq<XmlEventView>)
    requires
        ignored_in(fold_events(evs), ev),
    ensures
        entries_of(evs.push(ev) + more) == entries_of(evs + more),
{
    assert(evs.push(ev).drop_last() =~= evs);
    assert(fold_events(evs.push(ev)) == fold_events(evs));
    lemma_fold_append(evs.push(ev), more);
    lemma_fold_append(evs, more);
}

} // verus!
