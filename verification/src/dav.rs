//! The CardDAV side: the URLs, request bodies and response handling of a
//! small client sufficient to talk to Baikal (list resources in an
//! addressbook collection, fetch/create/update/delete individual vCard
//! resources). The HTTP exchanges themselves are made by the caller.

use vstd::prelude::*;
use crate::multistatus::{
    entry_views, parse_multistatus, read_entries, EntryView, MultistatusEntry, MultistatusError,
};
use crate::text::{
    after_last, after_last_chars, chars_of, ends_with, ends_with_chars, lower_chars, lower_seq,
    opt_chars, push_char, push_chars, slice_chars, starts_with, starts_with_chars, string_of,
    string_views, strip_both, strip_both_chars, strip_end, strip_end_chars, strip_start,
    strip_start_chars,
};

verus! {

// ---------------------------------------------------------------------
// Cards
// ---------------------------------------------------------------------

#[derive(Debug, Clone)]
pub struct DavCard {
    pub uid: String,
    pub etag: Option<String>,
    pub vcard_text: String,
}

pub struct DavCardView {
    pub uid: Seq<char>,
    pub etag: Option<Seq<char>>,
    pub vcard_text: Seq<char>,
}

impl View for DavCard {
    type V = DavCardView;

    open spec fn view(&self) -> DavCardView {
        DavCardView { uid: self.uid@, etag: opt_chars(self.etag), vcard_text: self.vcard_text@ }
    }
}

// ---------------------------------------------------------------------
// URLs
// ---------------------------------------------------------------------

/// `base` and `path` joined by exactly one '/'.
pub open spec fn join_url_spec(base: Seq<char>, path: Seq<char>) -> Seq<char> {
    strip_end(base, '/') + seq!['/'] + strip_start(path, '/')
}

/// The addressbook collection's URL, always ending in '/'.
pub open spec fn addressbook_url_spec(base: Seq<char>, path: Seq<char>) -> Seq<char> {
    let joined = join_url_spec(base, path);
    if joined.last() == '/' {
        joined
    } else {
        joined.push('/')
    }
}

/// The URL of the vCard resource stored under `uid`.
pub open spec fn contact_url_spec(base: Seq<char>, path: Seq<char>, uid: Seq<char>) -> Seq<char> {
    addressbook_url_spec(base, path) + uid + ".vcf"@
}

fn join_url(base: &str, path: &str) -> (url: String)
    ensures
        url@ == join_url_spec(base@, path@),
{
    let b = strip_end_chars(&chars_of(base), '/');
    let p = strip_start_chars(&chars_of(path), '/');
    let mut url = string_of(&b);
    push_char(&mut url, '/');
    push_chars(&mut url, &p);
    url
}

/// The URL of the addressbook collection at `addressbook_path` on the
/// server at `base_url`.
pub fn addressbook_url(base_url: &str, addressbook_path: &str) -> (url: String)
    ensures
        url@ == addressbook_url_spec(base_url@, addressbook_path@),
{
    let mut joined = join_url(base_url, addressbook_path);
    let cs = chars_of(joined.as_str());
    if cs[cs.len() - 1] == '/' {
        joined
    } else {
        push_char(&mut joined, '/');
        joined
    }
}

/// The URL of the vCard resource stored under `uid`. It always names a
/// ".vcf" resource: a vCard resource that the listing found under another
/// name (and whose uid is its whole last segment) is not at this URL, so
/// it cannot be fetched, updated or deleted by its uid.
pub fn contact_url(base_url: &str, addressbook_path: &str, uid: &str) -> (url: String)
    ensures
        url@ == contact_url_spec(base_url@, addressbook_path@, uid@),
{
    let mut url = addressbook_url(base_url, addressbook_path);
    url.append(uid);
    url.append(".vcf");
    url
}

/// The uid of the vCard resource at `href`: its last path segment, without
/// a ".vcf" extension (matched in any case) where it has one. An href that
/// ends in '/' names no vCard resource and has none.
pub open spec fn uid_from_href_spec(href: Seq<char>) -> Option<Seq<char>> {
    let file = after_last(href, '/');
    if ends_with(lower_seq(file), ".vcf"@) {
        Some(file.take(file.len() - 4))
    } else if file.len() > 0 {
        Some(file)
    } else {
        None
    }
}

/// The uid of the vCard resource at `href`, if it names one.
pub fn uid_from_href(href: &str) -> (uid: Option<String>)
    ensures
        opt_chars(uid) == uid_from_href_spec(href@),
{
    let file = after_last_chars(&chars_of(href), '/');
    let lower = lower_chars(&file);
    let ext = chars_of(".vcf");
    proof {
        reveal_strlit(".vcf");
    }
    if ends_with_chars(&lower, &ext) {
        let n = file.len();
        let stem = slice_chars(&file, 0, n - 4);
        assert(stem@ =~= file@.take(file@.len() - 4));
        Some(string_of(&stem))
    } else if file.len() > 0 {
        Some(string_of(&file))
    } else {
        None
    }
}

// ---------------------------------------------------------------------
// Request bodies and headers
// ---------------------------------------------------------------------

/// How one character is written inside XML character data.
pub open spec fn xml_escape_char(c: char) -> Seq<char> {
    if c == '&' {
        "&amp;"@
    } else if c == '<' {
        "&lt;"@
    } else if c == '>' {
        "&gt;"@
    } else {
        seq![c]
    }
}

/// `s` with '&', '<' and '>' written as entity references.
pub open spec fn xml_escape_spec(s: Seq<char>) -> Seq<char>
    decreases s.len(),
{
    if s.len() == 0 {
        Seq::empty()
    } else {
        xml_escape_char(s[0]) + xml_escape_spec(s.drop_first())
    }
}

fn xml_escape(s: &str) -> (out: String)
    ensures
        out@ == xml_escape_spec(s@),
{
    let cs = chars_of(s);
    let mut out = String::new();
    let mut i: usize = 0;
    assert(cs@.skip(0) =~= cs@);
    while i < cs.len()
        invariant
            i <= cs@.len(),
            xml_escape_spec(cs@) == out@ + xml_escape_spec(cs@.skip(i as int)),
        decreases cs@.len() - i,
    {
        let c = cs[i];
        let ghost prev = out@;
        assert(cs@.skip(i as int).drop_first() =~= cs@.skip(i + 1));
        if c == '&' {
            out.append("&amp;");
        } else if c == '<' {
            out.append("&lt;");
        } else if c == '>' {
            out.append("&gt;");
        } else {
            push_char(&mut out, c);
        }
        assert(out@ =~= prev + xml_escape_char(c));
        assert(prev + (xml_escape_char(c) + xml_escape_spec(cs@.skip(i + 1))) =~= out@
            + xml_escape_spec(cs@.skip(i + 1)));
        i += 1;
    }
    assert(cs@.skip(i as int) =~= Seq::<char>::empty());
    assert(out@ + Seq::<char>::empty() =~= out@);
    out
}

/// The start of an addressbook-multiget REPORT body, up to the hrefs.
pub open spec fn multiget_head() -> Seq<char> {
    "<?xml version=\"1.0\" encoding=\"utf-8\" ?>\n<C:addressbook-multiget xmlns:D=\"DAV:\" xmlns:C=\"urn:ietf:params:xml:ns:carddav\">\n  <D:prop>\n    <D:getetag/>\n    <C:address-data/>\n  </D:prop>\n"@
}

/// One `<D:href>` line per href, with the href escaped.
pub open spec fn href_lines(hrefs: Seq<Seq<char>>) -> Seq<char>
    decreases hrefs.len(),
{
    if hrefs.len() == 0 {
        Seq::empty()
    } else {
        href_lines(hrefs.drop_last()) + "  <D:href>"@ + xml_escape_spec(hrefs.last())
            + "</D:href>\n"@
    }
}

/// The addressbook-multiget REPORT body that asks for the etag and vCard
/// data of each href.
pub open spec fn multiget_body_spec(hrefs: Seq<Seq<char>>) -> Seq<char> {
    multiget_head() + href_lines(hrefs) + "</C:addressbook-multiget>"@
}

/// The addressbook-multiget REPORT body for `hrefs`.
pub fn multiget_body(hrefs: &Vec<String>) -> (body: String)
    ensures
        body@ == multiget_body_spec(string_views(hrefs@)),
{
    let ghost hs = string_views(hrefs@);
    let mut href_xml = String::new();
    let mut i: usize = 0;
    assert(hs.take(0) =~= Seq::<Seq<char>>::empty());
    while i < hrefs.len()
        invariant
            i <= hrefs@.len(),
            hs == string_views(hrefs@),
            href_xml@ == href_lines(hs.take(i as int)),
        decreases hrefs@.len() - i,
    {
        href_xml.append("  <D:href>");
        href_xml.append(xml_escape(hrefs[i].as_str()).as_str());
        href_xml.append("</D:href>\n");
        assert(hs.take(i + 1).drop_last() =~= hs.take(i as int));
        i += 1;
    }
    assert(hs.take(hrefs@.len() as int) =~= hs);
    let mut body = String::from_str(
        "<?xml version=\"1.0\" encoding=\"utf-8\" ?>\n<C:addressbook-multiget xmlns:D=\"DAV:\" xmlns:C=\"urn:ietf:params:xml:ns:carddav\">\n  <D:prop>\n    <D:getetag/>\n    <C:address-data/>\n  </D:prop>\n",
    );
    body.append(href_xml.as_str());
    body.append("</C:addressbook-multiget>");
    body
}

/// The value of an If-Match header for `etag`: the etag in double quotes.
pub fn if_match_value(etag: &str) -> (v: String)
    ensures
        v@ == seq!['"'] + etag@ + seq!['"'],
{
    let mut v = String::new();
    push_char(&mut v, '"');
    v.append(etag);
    push_char(&mut v, '"');
    v
}

// ---------------------------------------------------------------------
// Responses
// ---------------------------------------------------------------------

/// A 2xx status.
pub open spec fn is_success(status: u16) -> bool {
    200 <= status <= 299
}

/// An etag header value without its surrounding double quotes.
pub open spec fn etag_spec(header: Option<Seq<char>>) -> Option<Seq<char>> {
    match header {
        Some(h) => Some(strip_both(h, '"')),
        None => None,
    }
}

fn etag_from_header(header: Option<&str>) -> (etag: Option<String>)
    ensures
        opt_chars(etag) == etag_spec(match header {
            Some(h) => Some(h@),
            None => None,
        }),
{
    match header {
        Some(h) => Some(string_of(&strip_both_chars(&chars_of(h), '"'))),
        None => None,
    }
}

/// The outcome of fetching the vCard stored under `uid`: none on 404, the
/// card on any 2xx status, and the status as the failure otherwise.
pub fn get_outcome(uid: &str, status: u16, etag_header: Option<&str>, body: String) -> (r: Result<
    Option<DavCard>,
    u16,
>)
    ensures
        status == 404 ==> r == Ok::<Option<DavCard>, u16>(None),
        status != 404 && !is_success(status) ==> r == Err::<Option<DavCard>, u16>(status),
        status != 404 && is_success(status) ==> (r matches Ok(Some(card)) && card@ == DavCardView {
            uid: uid@,
            etag: etag_spec(
                match etag_header {
                    Some(h) => Some(h@),
                    None => None,
                },
            ),
            vcard_text: body@,
        }),
{
    if status == 404 {
        return Ok(None);
    }
    let etag = etag_from_header(etag_header);
    if !(200 <= status && status <= 299) {
        return Err(status);
    }
    Ok(Some(DavCard { uid: String::from_str(uid), etag, vcard_text: body }))
}

/// The outcome of storing a vCard (create or update): the new etag, if the
/// server sent one, on any 2xx status, and the status as the failure
/// otherwise.
pub fn put_outcome(status: u16, etag_header: Option<&str>) -> (r: Result<Option<String>, u16>)
    ensures
        !is_success(status) ==> r == Err::<Option<String>, u16>(status),
        is_success(status) ==> (r matches Ok(etag) && opt_chars(etag) == etag_spec(
            match etag_header {
                Some(h) => Some(h@),
                None => None,
            },
        )),
{
    let etag = etag_from_header(etag_header);
    if !(200 <= status && status <= 299) {
        return Err(status);
    }
    Ok(etag)
}

/// The outcome of deleting a vCard: `false` on 404 (it did not exist),
/// `true` on any 2xx status, and the status as the failure otherwise.
pub fn delete_outcome(status: u16) -> (r: Result<bool, u16>)
    ensures
        r == (if status == 404 {
            Ok(false)
        } else if is_success(status) {
            Ok(true)
        } else {
            Err::<bool, u16>(status)
        }),
{
    if status == 404 {
        return Ok(false);
    }
    if !(200 <= status && status <= 299) {
        return Err(status);
    }
    Ok(true)
}

// ---------------------------------------------------------------------
// Multistatus responses
// ---------------------------------------------------------------------

/// A content type that names vCard data: "text/vcard" or the older
/// "text/x-vcard", in any case, with or without parameters.
pub open spec fn is_vcard_type(t: Seq<char>) -> bool {
    starts_with(lower_seq(t), "text/vcard"@) || starts_with(lower_seq(t), "text/x-vcard"@)
}

/// An entry for a vCard resource: it has an href, and either the href ends
/// in ".vcf" (in any case) or the reported content type is vCard data.
pub open spec fn is_vcard_entry(e: EntryView) -> bool {
    &&& e.href is Some
    &&& ends_with(lower_seq(e.href->0), ".vcf"@) || match e.content_type {
        Some(t) => is_vcard_type(t),
        None => false,
    }
}

/// The hrefs of the vCard resources among some entries, in order.
pub open spec fn vcard_hrefs_spec(es: Seq<EntryView>) -> Seq<Seq<char>>
    decreases es.len(),
{
    if es.len() == 0 {
        Seq::empty()
    } else {
        let p = vcard_hrefs_spec(es.drop_last());
        if is_vcard_entry(es.last()) {
            p.push(es.last().href->0)
        } else {
            p
        }
    }
}

/// The card an entry describes: one with an href naming a vCard resource
/// and address data.
pub open spec fn card_of(e: EntryView) -> Option<DavCardView> {
    match (e.href, e.address_data) {
        (Some(h), Some(d)) => match uid_from_href_spec(h) {
            Some(u) => Some(DavCardView { uid: u, etag: e.etag, vcard_text: d }),
            None => None,
        },
        _ => None,
    }
}

/// The cards that some entries describe, in order.
pub open spec fn cards_spec(es: Seq<EntryView>) -> Seq<DavCardView>
    decreases es.len(),
{
    if es.len() == 0 {
        Seq::empty()
    } else {
        match card_of(es.last()) {
            Some(c) => cards_spec(es.drop_last()).push(c),
            None => cards_spec(es.drop_last()),
        }
    }
}

pub open spec fn card_views(cs: Seq<DavCard>) -> Seq<DavCardView> {
    cs.map_values(|c: DavCard| c@)
}

fn is_vcard_content_type(t: &str) -> (r: bool)
    ensures
        r == is_vcard_type(t@),
{
    let lower = lower_chars(&chars_of(t));
    starts_with_chars(&lower, &chars_of("text/vcard")) || starts_with_chars(
        &lower,
        &chars_of("text/x-vcard"),
    )
}

fn is_vcard(e: &MultistatusEntry) -> (r: bool)
    ensures
        r == is_vcard_entry(e@),
{
    match &e.href {
        Some(h) => {
            let lower = lower_chars(&chars_of(h.as_str()));
            if ends_with_chars(&lower, &chars_of(".vcf")) {
                true
            } else {
                match &e.content_type {
                    Some(t) => is_vcard_content_type(t.as_str()),
                    None => false,
                }
            }
        },
        None => false,
    }
}

/// The hrefs of the vCard resources among `entries`, in order.
pub fn vcard_hrefs(entries: &Vec<MultistatusEntry>) -> (hrefs: Vec<String>)
    ensures
        string_views(hrefs@) == vcard_hrefs_spec(entry_views(entries@)),
{
    let ghost es = entry_views(entries@);
    let mut hrefs: Vec<String> = Vec::new();
    let mut i: usize = 0;
    assert(es.take(0) =~= Seq::<EntryView>::empty());
    while i < entries.len()
        invariant
            i <= entries@.len(),
            es == entry_views(entries@),
            string_views(hrefs@) == vcard_hrefs_spec(es.take(i as int)),
        decreases entries@.len() - i,
    {
        assert(es.take(i + 1).drop_last() =~= es.take(i as int));
        assert(es.take(i + 1).last() == entries@[i as int]@);
        if is_vcard(&entries[i]) {
            match &entries[i].href {
                Some(h) => {
                    let ghost before = hrefs@;
                    hrefs.push(h.clone());
                    assert(string_views(hrefs@) =~= string_views(before).push(h@));
                },
                None => {},
            }
        }
        i += 1;
    }
    assert(es.take(entries@.len() as int) =~= es);
    hrefs
}

fn card_from_entry(e: &MultistatusEntry) -> (c: Option<DavCard>)
    ensures
        match c {
            Some(card) => card_of(e@) == Some(card@),
            None => card_of(e@) is None,
        },
{
    match (&e.href, &e.address_data) {
        (Some(h), Some(d)) => match uid_from_href(h.as_str()) {
            Some(uid) => Some(
                DavCard {
                    uid,
                    etag: match &e.etag {
                        Some(t) => Some(t.clone()),
                        None => None,
                    },
                    vcard_text: d.clone(),
                },
            ),
            None => None,
        },
        _ => None,
    }
}

/// The cards that `entries` describe, in order.
pub fn cards_from_entries(entries: &Vec<MultistatusEntry>) -> (cards: Vec<DavCard>)
    ensures
        card_views(cards@) == cards_spec(entry_views(entries@)),
{
    let ghost es = entry_views(entries@);
    let mut cards: Vec<DavCard> = Vec::new();
    let mut i: usize = 0;
    assert(es.take(0) =~= Seq::<EntryView>::empty());
    while i < entries.len()
        invariant
            i <= entries@.len(),
            es == entry_views(entries@),
            card_views(cards@) == cards_spec(es.take(i as int)),
        decreases entries@.len() - i,
    {
        assert(es.take(i + 1).drop_last() =~= es.take(i as int));
        assert(es.take(i + 1).last() == entries@[i as int]@);
        match card_from_entry(&entries[i]) {
            Some(c) => {
                let ghost before = cards@;
                cards.push(c);
                assert(card_views(cards@) =~= card_views(before).push(c@));
            },
            None => {},
        }
        i += 1;
    }
    assert(es.take(entries@.len() as int) =~= es);
    cards
}

/// The hrefs of the vCard resources that a multistatus body lists, in
/// order, or `None` where the body cannot be read.
pub open spec fn listed_hrefs(body: Seq<char>) -> Option<Seq<Seq<char>>> {
    match read_entries(body) {
        Some(es) => Some(vcard_hrefs_spec(es)),
        None => None,
    }
}

/// The cards that a multistatus body holds, in order, or `None` where the
/// body cannot be read.
pub open spec fn listed_cards(body: Seq<char>) -> Option<Seq<DavCardView>> {
    match read_entries(body) {
        Some(es) => Some(cards_spec(es)),
        None => None,
    }
}

/// The hrefs of the vCard resources that a PROPFIND multistatus body
/// lists, in order.
pub fn multistatus_hrefs(body: &str) -> (r: Result<Vec<String>, MultistatusError>)
    ensures
        match listed_hrefs(body@) {
            Some(hs) => r matches Ok(hrefs) && string_views(hrefs@) == hs,
            None => r is Err,
        },
{
    let entries = parse_multistatus(body)?;
    Ok(vcard_hrefs(&entries))
}

/// The cards that an addressbook-multiget multistatus body holds, in
/// order.
pub fn multistatus_cards(body: &str) -> (r: Result<Vec<DavCard>, MultistatusError>)
    ensures
        match listed_cards(body@) {
            Some(cs) => r matches Ok(cards) && card_views(cards@) == cs,
            None => r is Err,
        },
{
    let entries = parse_multistatus(body)?;
    Ok(cards_from_entries(&entries))
}

/// Why a PROPFIND or REPORT exchange gave no result.
#[derive(Debug)]
pub enum ReportError {
    /// The server answered with this non-2xx status.
    Status(u16),
    /// The multistatus body could not be read.
    Xml(MultistatusError),
}

/// The outcome of the PROPFIND that lists the addressbook: on a 2xx status
/// the hrefs of the vCard resources in the body, otherwise the status as
/// the failure.
pub fn propfind_outcome(status: u16, body: &str) -> (r: Result<Vec<String>, ReportError>)
    ensures
        !is_success(status) ==> (r matches Err(ReportError::Status(s)) && s == status),
        is_success(status) ==> match listed_hrefs(body@) {
            Some(hs) => r matches Ok(hrefs) && string_views(hrefs@) == hs,
            None => r matches Err(e) && e is Xml,
        },
{
    if !(200 <= status && status <= 299) {
        return Err(ReportError::Status(status));
    }
    match multistatus_hrefs(body) {
        Ok(hrefs) => Ok(hrefs),
        Err(e) => Err(ReportError::Xml(e)),
    }
}

/// The outcome of the addressbook-multiget REPORT: on a 2xx status the
/// cards in the body, otherwise the status as the failure.
pub fn multiget_outcome(status: u16, body: &str) -> (r: Result<Vec<DavCard>, ReportError>)
    ensures
        !is_success(status) ==> (r matches Err(ReportError::Status(s)) && s == status),
        is_success(status) ==> match listed_cards(body@) {
            Some(cs) => r matches Ok(cards) && card_views(cards@) == cs,
            None => r matches Err(e) && e is Xml,
        },
{
    if !(200 <= status && status <= 299) {
        return Err(ReportError::Status(status));
    }
    match multistatus_cards(body) {
        Ok(cards) => Ok(cards),
        Err(e) => Err(ReportError::Xml(e)),
    }
}

/// What a listing does once the PROPFIND has named the vCard resources:
/// nothing is left to ask when there are none, otherwise one
/// addressbook-multiget REPORT with this body fetches them all.
pub enum ListStep {
    Done(Vec<DavCard>),
    Report(String),
}

/// The step of a listing after the PROPFIND found `hrefs`.
pub fn list_step(hrefs: &Vec<String>) -> (step: ListStep)
    ensures
        hrefs@.len() == 0 ==> (step matches ListStep::Done(cards) && cards@.len() == 0),
        hrefs@.len() > 0 ==> (step matches ListStep::Report(body) && body@ == multiget_body_spec(
            string_views(hrefs@),
        )),
{
    if hrefs.len() == 0 {
        ListStep::Done(Vec::new())
    } else {
        ListStep::Report(multiget_body(hrefs))
    }
}

// ---------------------------------------------------------------------
// Laws
// ---------------------------------------------------------------------

proof fn lemma_after_last_tail(a: Seq<char>, b: Seq<char>, c: char)
    requires
        a.len() > 0,
        a.last() == c,
        forall|i: int| 0 <= i < b.len() ==> b[i] != c,
    ensures
        after_last(a + b, c) == b,
    decreases b.len(),
{
    if b.len() == 0 {
        assert(a + b =~= a);
    } else {
        lemma_after_last_tail(a, b.drop_last(), c);
        assert((a + b).drop_last() =~= a + b.drop_last());
        assert(b.drop_last().push(b.last()) =~= b);
    }
}

/// The uid read back from the URL of a contact's vCard resource is the
/// contact's uid, for every uid without a '/'.
pub proof fn law_uid_from_contact_url(base: Seq<char>, path: Seq<char>, uid: Seq<char>)
    requires
        forall|i: int| 0 <= i < uid.len() ==> uid[i] != '/',
    ensures
        uid_from_href_spec(contact_url_spec(base, path, uid)) == Some(uid),
{
    reveal_strlit(".vcf");
    let book = addressbook_url_spec(base, path);
    let file = uid + ".vcf"@;
    assert(contact_url_spec(base, path, uid) =~= book + file);
    assert(book.last() == '/');
    lemma_after_last_tail(book, file, '/');
    let lower = lower_seq(file);
    assert(lower.skip(lower.len() - 4) =~= ".vcf"@);
    assert(file.take(file.len() - 4) =~= uid);
}

/// The last path segment of a contact's URL is its uid followed by
/// ".vcf", for every uid without a '/': a resource whose last segment has
/// no ".vcf" extension is never the resource at a contact's URL.
pub proof fn law_contact_url_names_vcf(base: Seq<char>, path: Seq<char>, uid: Seq<char>)
    requires
        forall|i: int| 0 <= i < uid.len() ==> uid[i] != '/',
    ensures
        after_last(contact_url_spec(base, path, uid), '/') == uid + ".vcf"@,
{
    reveal_strlit(".vcf");
    let book = addressbook_url_spec(base, path);
    let file = uid + ".vcf"@;
    assert(contact_url_spec(base, path, uid) =~= book + file);
    assert(book.last() == '/');
    lemma_after_last_tail(book, file, '/');
}

/// The addressbook URL is the base URL without its trailing '/'s, one '/',
/// and the addressbook path without its leading '/'s, followed by one '/'
/// more only where that does not already end in '/': nothing of either is
/// dropped, and the URL always ends in '/'.
pub proof fn law_addressbook_url_joins(base: Seq<char>, path: Seq<char>)
    ensures
        ({
            let joined = strip_end(base, '/') + seq!['/'] + strip_start(path, '/');
            let url = addressbook_url_spec(base, path);
            &&& starts_with(url, joined)
            &&& url.last() == '/'
            &&& url.len() == joined.len() || (url.len() == joined.len() + 1 && joined.last() != '/')
        }),
{
    let joined = strip_end(base, '/') + seq!['/'] + strip_start(path, '/');
    let url = addressbook_url_spec(base, path);
    if joined.last() == '/' {
        assert(url.take(joined.len() as int) =~= joined);
    } else {
        assert(url.take(joined.len() as int) =~= joined);
    }
}

/// A contact's URL is the addressbook URL followed by the uid and ".vcf":
/// no '/' or other character comes between them.
pub proof fn law_contact_url_extends_addressbook(base: Seq<char>, path: Seq<char>, uid: Seq<char>)
    ensures
        ({
            let book = addressbook_url_spec(base, path);
            let url = contact_url_spec(base, path, uid);
            &&& url.len() == book.len() + uid.len() + 4
            &&& starts_with(url, book)
            &&& url.subrange(book.len() as int, (book.len() + uid.len()) as int) == uid
            &&& ends_with(url, ".vcf"@)
        }),
{
    reveal_strlit(".vcf");
    let book = addressbook_url_spec(base, path);
    let url = contact_url_spec(base, path, uid);
    assert(url.take(book.len() as int) =~= book);
    assert(url.subrange(book.len() as int, (book.len() + uid.len()) as int) =~= uid);
    assert(url.skip(url.len() - 4) =~= ".vcf"@);
}

/// The card read from an entry carries the entry's data and etag, and its
/// uid is the last path segment of the entry's href exactly as the server
/// wrote it (case kept), less a ".vcf" extension (in any case) where there
/// is one.
pub proof fn law_card_from_entry(e: EntryView)
    ensures
        card_of(e) matches Some(c) ==> ({
            let file = after_last(e.href->0, '/');
            &&& e.href is Some
            &&& e.address_data == Some(c.vcard_text)
            &&& c.etag == e.etag
            &&& c.uid.len() <= file.len()
            &&& file.take(c.uid.len() as int) == c.uid
            &&& (file.len() == c.uid.len() || (file.len() == c.uid.len() + 4 && lower_seq(
                file.skip(c.uid.len() as int),
            ) == ".vcf"@))
            &&& file.len() > 0
        }),
        (e.href is Some && e.address_data is Some && after_last(e.href->0, '/').len() > 0)
            ==> card_of(e) is Some,
{
    reveal_strlit(".vcf");
    if let (Some(h), Some(d)) = (e.href, e.address_data) {
        let file = after_last(h, '/');
        if ends_with(lower_seq(file), ".vcf"@) {
            let u = file.take(file.len() - 4);
            assert(file.take(u.len() as int) =~= u);
            assert(lower_seq(file.skip(u.len() as int)) =~= lower_seq(file).skip(file.len() - 4));
        } else if file.len() > 0 {
            assert(file.take(file.len() as int) =~= file);
        }
    }
}

proof fn lemma_strip_start_prefix(e: Seq<char>, c: char)
    requires
        e.len() == 0 || e[0] != c,
    ensures
        strip_start(seq![c] + e, c) == e,
{
    assert((seq![c] + e).drop_first() =~= e);
    assert(strip_start(e, c) == e);
}

proof fn lemma_strip_end_suffix(e: Seq<char>, c: char)
    requires
        e.len() == 0 || e.last() != c,
    ensures
        strip_end(e + seq![c], c) == e,
{
    assert((e + seq![c]).drop_last() =~= e);
    assert(strip_end(e, c) == e);
}

/// The etag read back from a response is the etag that `if_match_value`
/// quoted, for every etag that does not itself start or end with a
/// double quote: what `get_outcome` reports is what an update sends back.
pub proof fn law_if_match_round_trip(etag: Seq<char>)
    requires
        etag.len() == 0 || (etag[0] != '"' && etag.last() != '"'),
    ensures
        etag_spec(Some(seq!['"'] + etag + seq!['"'])) == Some(etag),
{
    let q = seq!['"'] + etag + seq!['"'];
    assert(q =~= seq!['"'] + (etag + seq!['"']));
    if etag.len() == 0 {
        assert(etag + seq!['"'] =~= seq!['"']);
        assert(q.drop_first() =~= seq!['"']);
        assert(seq!['"'].drop_first() =~= Seq::<char>::empty());
        assert(strip_start(Seq::<char>::empty(), '"') =~= Seq::<char>::empty());
        assert(strip_start(seq!['"'], '"') =~= Seq::<char>::empty());
        assert(strip_start(q, '"') =~= Seq::<char>::empty());
    } else {
        assert((etag + seq!['"'])[0] == etag[0]);
        lemma_strip_start_prefix(etag + seq!['"'], '"');
        lemma_strip_end_suffix(etag, '"');
    }
}

/// An href names a resource with a uid exactly when its last path segment
/// is not empty: every vCard resource the listing keeps under such an href
/// becomes a card once its data is fetched.
pub proof fn law_uid_from_href_defined(href: Seq<char>)
    ensures
        uid_from_href_spec(href) is Some <==> after_last(href, '/').len() > 0,
{
    reveal_strlit(".vcf");
    let file = after_last(href, '/');
    if file.len() == 0 {
        assert(!ends_with(lower_seq(file), ".vcf"@));
    }
}

} // verus!
