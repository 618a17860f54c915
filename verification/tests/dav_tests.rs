use davserv::dav::{
    addressbook_url, cards_from_entries, contact_url, delete_outcome, get_outcome, if_match_value,
    list_step, multiget_body, multiget_outcome, multistatus_cards, multistatus_hrefs,
    propfind_outcome, put_outcome, uid_from_href, vcard_hrefs, ListStep, ReportError,
};
use davserv::multistatus::{
    entries_from_events, entries_from_raw_events, local_name, parse_multistatus, MultistatusEntry,
    MultistatusError, XmlEvent,
};
use davserv::xml::RawEvent;

#[test]
fn addressbook_url_joins_with_one_slash_and_ends_in_slash() {
    assert_eq!(
        addressbook_url("http://localhost//", "//dav.php/addressbooks/alan/default"),
        "http://localhost/dav.php/addressbooks/alan/default/"
    );
    assert_eq!(addressbook_url("http://h", "/ab/"), "http://h/ab/");
    assert_eq!(addressbook_url("http://h", ""), "http://h/");
}

#[test]
fn contact_url_appends_uid_and_extension() {
    assert_eq!(contact_url("http://h/", "ab", "123-abc"), "http://h/ab/123-abc.vcf");
}

#[test]
fn uid_from_href_takes_last_segment() {
    assert_eq!(uid_from_href("/dav.php/addressbooks/a/default/abc.vcf"), Some("abc".to_string()));
    assert_eq!(uid_from_href("x/Y.VCF"), Some("Y".to_string()));
    assert_eq!(uid_from_href(".vcf"), Some("".to_string()));
    assert_eq!(uid_from_href("/dav.php/addressbooks/a/default/"), None);
    assert_eq!(uid_from_href("a.vcf/b.txt"), Some("b.txt".to_string()));
    assert_eq!(uid_from_href("c1"), Some("c1".to_string()));
    assert_eq!(uid_from_href(""), None);
}

#[test]
fn uid_from_contact_url_is_the_uid() {
    let url = contact_url("http://h", "/book", "id-42");
    assert_eq!(uid_from_href(&url), Some("id-42".to_string()));
}

#[test]
fn multiget_body_lists_escaped_hrefs() {
    let body = multiget_body(&vec!["/a/1.vcf".to_string(), "/a/<&>.vcf".to_string()]);
    let expected = "<?xml version=\"1.0\" encoding=\"utf-8\" ?>\n<C:addressbook-multiget xmlns:D=\"DAV:\" xmlns:C=\"urn:ietf:params:xml:ns:carddav\">\n  <D:prop>\n    <D:getetag/>\n    <C:address-data/>\n  </D:prop>\n  <D:href>/a/1.vcf</D:href>\n  <D:href>/a/&lt;&amp;&gt;.vcf</D:href>\n</C:addressbook-multiget>";
    assert_eq!(body, expected);
}

#[test]
fn if_match_value_quotes_the_etag() {
    assert_eq!(if_match_value("abc"), "\"abc\"");
}

#[test]
fn get_outcome_cases() {
    assert!(matches!(get_outcome("u", 404, None, String::new()), Ok(None)));
    assert!(matches!(get_outcome("u", 500, Some("\"e\""), "err".to_string()), Err(500)));
    match get_outcome("u", 200, Some("\"etag-1\""), "BEGIN:VCARD".to_string()) {
        Ok(Some(card)) => {
            assert_eq!(card.uid, "u");
            assert_eq!(card.etag, Some("etag-1".to_string()));
            assert_eq!(card.vcard_text, "BEGIN:VCARD");
        }
        _ => panic!("expected a card"),
    }
    match get_outcome("u", 204, None, String::new()) {
        Ok(Some(card)) => assert_eq!(card.etag, None),
        _ => panic!("expected a card"),
    }
}

#[test]
fn put_outcome_cases() {
    assert_eq!(put_outcome(201, Some("\"\"x\"\"")), Ok(Some("x".to_string())));
    assert_eq!(put_outcome(204, None), Ok(None));
    assert_eq!(put_outcome(412, Some("\"x\"")), Err(412));
    assert_eq!(put_outcome(300, None), Err(300));
}

#[test]
fn delete_outcome_cases() {
    assert_eq!(delete_outcome(404), Ok(false));
    assert_eq!(delete_outcome(204), Ok(true));
    assert_eq!(delete_outcome(200), Ok(true));
    assert_eq!(delete_outcome(412), Err(412));
    assert_eq!(delete_outcome(199), Err(199));
}

#[test]
fn local_name_strips_prefix_and_lowercases() {
    assert_eq!(local_name(b"D:href"), "href");
    assert_eq!(local_name(b"Address-Data"), "address-data");
    assert_eq!(local_name(b"a:b:c"), "b:c");
    assert_eq!(local_name(b"x:\xff"), "\u{fffd}");
}

const PROPFIND: &str = r#"<?xml version="1.0" encoding="utf-8"?>
<d:multistatus xmlns:d="DAV:" xmlns:card="urn:ietf:params:xml:ns:carddav">
  <d:response>
    <d:href>/dav.php/addressbooks/alan/default/</d:href>
    <d:propstat><d:prop><d:resourcetype><d:collection/></d:resourcetype></d:prop>
      <d:status>HTTP/1.1 200 OK</d:status></d:propstat>
  </d:response>
  <d:response>
    <d:href>/dav.php/addressbooks/alan/default/one.vcf</d:href>
    <d:propstat><d:prop><d:getetag>"e1"</d:getetag></d:prop>
      <d:status>HTTP/1.1 200 OK</d:status></d:propstat>
  </d:response>
  <d:response>
    <d:href>/dav.php/addressbooks/alan/default/TWO.VCF</d:href>
    <d:propstat><d:status>HTTP/1.1 404 Not Found</d:status></d:propstat>
  </d:response>
  <d:response>
    <d:href>/dav.php/addressbooks/alan/default/c1</d:href>
    <d:propstat><d:prop><d:getcontenttype>Text/VCard; charset=utf-8</d:getcontenttype></d:prop>
      <d:status>HTTP/1.1 200 OK</d:status></d:propstat>
  </d:response>
  <d:response>
    <d:href>/dav.php/addressbooks/alan/default/readme.txt</d:href>
    <d:propstat><d:prop><d:getcontenttype>text/plain</d:getcontenttype></d:prop>
      <d:status>HTTP/1.1 200 OK</d:status></d:propstat>
  </d:response>
</d:multistatus>"#;

#[test]
fn parse_multistatus_reads_entries() {
    let entries = parse_multistatus(PROPFIND).unwrap();
    assert_eq!(entries.len(), 5);
    assert_eq!(entries[0].content_type, None);
    assert_eq!(entries[3].content_type.as_deref(), Some("Text/VCard; charset=utf-8"));
    assert_eq!(entries[1].href.as_deref(), Some("/dav.php/addressbooks/alan/default/one.vcf"));
    assert_eq!(entries[1].etag.as_deref(), Some("e1"));
    assert!(entries[1].status_ok);
    assert!(!entries[2].status_ok);
    assert_eq!(entries[2].address_data, None);
}

#[test]
fn multistatus_hrefs_keeps_vcard_resources() {
    let hrefs = multistatus_hrefs(PROPFIND).unwrap();
    assert_eq!(
        hrefs,
        vec![
            "/dav.php/addressbooks/alan/default/one.vcf".to_string(),
            "/dav.php/addressbooks/alan/default/TWO.VCF".to_string(),
            "/dav.php/addressbooks/alan/default/c1".to_string(),
        ]
    );
}

#[test]
fn multistatus_cards_reads_address_data() {
    let body = r#"<D:multistatus xmlns:D="DAV:" xmlns:C="urn:ietf:params:xml:ns:carddav">
<D:response><D:href>/b/x1.vcf</D:href><D:propstat><D:prop><D:getetag>"t1"</D:getetag>
<C:address-data>BEGIN:VCARD&#13;
FN:A &amp; B&#13;
END:VCARD</C:address-data></D:prop><D:status>HTTP/1.1 200 OK</D:status></D:propstat></D:response>
<D:response><D:href>/b/no-data.vcf</D:href></D:response>
<D:response><D:href>/b/notes.txt</D:href><D:propstat><D:prop><C:address-data>x</C:address-data></D:prop></D:propstat></D:response>
</D:multistatus>"#;
    let cards = multistatus_cards(body).unwrap();
    assert_eq!(cards.len(), 2);
    assert_eq!(cards[0].uid, "x1");
    assert_eq!(cards[0].etag.as_deref(), Some("t1"));
    assert_eq!(cards[0].vcard_text, "BEGIN:VCARD\r\nFN:A & B\r\nEND:VCARD");
    assert_eq!(cards[1].uid, "notes.txt");
    assert_eq!(cards[1].etag, None);
    assert_eq!(cards[1].vcard_text, "x");
}

#[test]
fn parse_multistatus_reports_xml_errors() {
    match parse_multistatus("<a><b></a>") {
        Err(MultistatusError::Xml(_)) => {}
        other => panic!("expected an XML error, got {:?}", other),
    }
}

#[test]
fn entries_from_events_follows_the_elements() {
    let s = |x: &str| x.to_string();
    let events = vec![
        XmlEvent::Start(s("multistatus")),
        XmlEvent::Text(s("ignored")),
        XmlEvent::Start(s("response")),
        XmlEvent::Start(s("href")),
        XmlEvent::Text(s("/a.vcf")),
        XmlEvent::End(s("href")),
        XmlEvent::Text(s("outside any field")),
        XmlEvent::Start(s("getetag")),
        XmlEvent::Text(s("\"\"tag\"")),
        XmlEvent::End(s("getetag")),
        XmlEvent::Start(s("status")),
        XmlEvent::Text(s("HTTP/1.1 200 OK")),
        XmlEvent::End(s("status")),
        XmlEvent::Other,
        XmlEvent::End(s("response")),
        XmlEvent::End(s("response")),
        XmlEvent::Start(s("response")),
        XmlEvent::Start(s("address-data")),
        XmlEvent::Text(s("data")),
        XmlEvent::End(s("response")),
    ];
    let entries = entries_from_events(&events);
    assert_eq!(entries.len(), 2);
    assert_eq!(entries[0].href.as_deref(), Some("/a.vcf"));
    assert_eq!(entries[0].etag.as_deref(), Some("tag"));
    assert!(entries[0].status_ok);
    assert_eq!(entries[0].address_data, None);
    assert_eq!(entries[1].href, None);
    assert_eq!(entries[1].address_data.as_deref(), Some("data"));
    assert!(!entries[1].status_ok);
}

#[test]
fn vcard_hrefs_and_cards_from_entries() {
    let e = |h: Option<&str>, d: Option<&str>| MultistatusEntry {
        href: h.map(|x| x.to_string()),
        etag: Some("t".to_string()),
        content_type: None,
        address_data: d.map(|x| x.to_string()),
        status_ok: true,
    };
    let mut typed = e(Some("/a/c3"), None);
    typed.content_type = Some("text/x-vcard".to_string());
    let mut other = e(Some("/a/c4"), None);
    other.content_type = Some("text/plain".to_string());
    let mut untyped_dir = e(None, None);
    untyped_dir.content_type = Some("text/vcard".to_string());
    let entries = vec![
        e(Some("/a/1.vcf"), Some("D1")),
        e(Some("/a/"), Some("D2")),
        e(None, Some("D3")),
        e(Some("/a/2.Vcf"), None),
        typed,
        other,
        untyped_dir,
    ];
    assert_eq!(
        vcard_hrefs(&entries),
        vec!["/a/1.vcf".to_string(), "/a/2.Vcf".to_string(), "/a/c3".to_string()]
    );
    let cards = cards_from_entries(&entries);
    assert_eq!(cards.len(), 1);
    assert_eq!(cards[0].uid, "1");
    assert_eq!(cards[0].vcard_text, "D1");
    assert_eq!(cards[0].etag.as_deref(), Some("t"));
}

#[test]
fn propfind_outcome_cases() {
    match propfind_outcome(207, PROPFIND) {
        Ok(hrefs) => assert_eq!(hrefs.len(), 3),
        Err(e) => panic!("unexpected {:?}", e),
    }
    assert!(matches!(propfind_outcome(401, PROPFIND), Err(ReportError::Status(401))));
    assert!(matches!(
        propfind_outcome(207, "<d:multistatus></d:response>"),
        Err(ReportError::Xml(MultistatusError::Xml(_)))
    ));
}

#[test]
fn multiget_outcome_cases() {
    let body = "<multistatus><response><href>/x/a.vcf</href><address-data>FN:A</address-data></response></multistatus>";
    match multiget_outcome(207, body) {
        Ok(cards) => {
            assert_eq!(cards.len(), 1);
            assert_eq!(cards[0].uid, "a");
            assert_eq!(cards[0].etag, None);
            assert_eq!(cards[0].vcard_text, "FN:A");
        }
        Err(e) => panic!("unexpected {:?}", e),
    }
    assert!(matches!(multiget_outcome(500, body), Err(ReportError::Status(500))));
}

#[test]
fn quoted_etag_reads_back_as_sent() {
    assert_eq!(put_outcome(200, Some(&if_match_value("abc-1"))), Ok(Some("abc-1".to_string())));
    assert_eq!(put_outcome(200, Some(&if_match_value(""))), Ok(Some(String::new())));
}

#[test]
fn listed_hrefs_all_have_uids() {
    for href in multistatus_hrefs(PROPFIND).unwrap() {
        assert!(uid_from_href(&href).is_some(), "{href}");
    }
}

#[test]
fn entries_from_raw_events_uses_local_names() {
    let b = |x: &str| x.as_bytes().to_vec();
    let events = vec![
        RawEvent::Start(b("D:multistatus")),
        RawEvent::Start(b("D:Response")),
        RawEvent::Start(b("D:HREF")),
        RawEvent::Text(Some("/a/x.vcf".to_string())),
        RawEvent::End(b("D:HREF")),
        RawEvent::Start(b("D:getcontenttype")),
        RawEvent::Text(None),
        RawEvent::End(b("D:getcontenttype")),
        RawEvent::Other,
        RawEvent::End(b("D:Response")),
        RawEvent::End(b("D:multistatus")),
    ];
    let entries = entries_from_raw_events(&events);
    assert_eq!(entries.len(), 1);
    assert_eq!(entries[0].href.as_deref(), Some("/a/x.vcf"));
    assert_eq!(entries[0].content_type.as_deref(), Some(""));
}

#[test]
fn one_entry_per_closed_response() {
    let body = "<m><response><href>/1</href></response><response><href>/2</href></response>\
                <response><href>/3</href></m>";
    let entries = parse_multistatus(body);
    // quick-xml checks that end tags match, so an unclosed response is an error
    assert!(entries.is_err());
    let body = "<m><response><href>/1</href></response><!-- c --><response/></m>";
    assert_eq!(parse_multistatus(body).unwrap().len(), 1);
    let s = |x: &str| x.to_string();
    let events = vec![
        XmlEvent::Start(s("response")),
        XmlEvent::End(s("response")),
        XmlEvent::End(s("response")),
        XmlEvent::Start(s("response")),
        XmlEvent::Start(s("response")),
        XmlEvent::End(s("response")),
        XmlEvent::Start(s("response")),
    ];
    assert_eq!(entries_from_events(&events).len(), 2);
}

#[test]
fn entries_keep_document_order_as_more_is_read() {
    let s = |x: &str| x.to_string();
    let mut events = vec![
        XmlEvent::Start(s("response")),
        XmlEvent::Start(s("href")),
        XmlEvent::Text(s("/first")),
        XmlEvent::End(s("href")),
        XmlEvent::End(s("response")),
    ];
    let before = entries_from_events(&events);
    events.push(XmlEvent::Start(s("response")));
    events.push(XmlEvent::Start(s("href")));
    events.push(XmlEvent::Text(s("/second")));
    events.push(XmlEvent::End(s("href")));
    events.push(XmlEvent::End(s("response")));
    let after = entries_from_events(&events);
    assert_eq!(before.len(), 1);
    assert_eq!(after.len(), 2);
    assert_eq!(after[0].href, before[0].href);
    assert_eq!(after[1].href.as_deref(), Some("/second"));
}

#[test]
fn etags_lose_all_surrounding_quotes() {
    let body = "<m><response><getetag>\"\"\"w\"x\"\"</getetag></response>\
                <response><getetag>\"\"</getetag></response></m>";
    let entries = parse_multistatus(body).unwrap();
    assert_eq!(entries[0].etag.as_deref(), Some("w\"x"));
    assert_eq!(entries[1].etag.as_deref(), Some(""));
}

#[test]
fn list_step_skips_the_report_without_hrefs() {
    match list_step(&Vec::new()) {
        ListStep::Done(cards) => assert!(cards.is_empty()),
        ListStep::Report(_) => panic!("no REPORT is needed"),
    }
    let hrefs = vec!["/a/1.vcf".to_string()];
    match list_step(&hrefs) {
        ListStep::Report(body) => assert_eq!(body, multiget_body(&hrefs)),
        ListStep::Done(_) => panic!("a REPORT is needed"),
    }
}

#[test]
fn uid_is_defined_exactly_for_a_non_empty_last_segment() {
    assert!(uid_from_href("/a/b").is_some());
    assert!(uid_from_href("/a/b/").is_none());
    assert!(uid_from_href("/").is_none());
}

#[test]
fn ignored_events_change_no_entry() {
    let s = |x: &str| x.to_string();
    let plain = vec![
        XmlEvent::Start(s("response")),
        XmlEvent::Start(s("href")),
        XmlEvent::Text(s("/a.vcf")),
        XmlEvent::End(s("href")),
        XmlEvent::End(s("response")),
    ];
    let noisy = vec![
        XmlEvent::Text(s("before any response")),
        XmlEvent::Start(s("response")),
        XmlEvent::Other,
        XmlEvent::Start(s("propstat")),
        XmlEvent::Text(s("not in a field")),
        XmlEvent::Start(s("href")),
        XmlEvent::Text(s("/a.vcf")),
        XmlEvent::End(s("prop")),
        XmlEvent::End(s("href")),
        XmlEvent::End(s("propstat")),
        XmlEvent::End(s("response")),
    ];
    let a = entries_from_events(&plain);
    let b = entries_from_events(&noisy);
    assert_eq!(a.len(), b.len());
    assert_eq!(a[0].href, b[0].href);
    assert_eq!(b[0].href.as_deref(), Some("/a.vcf"));
}

#[test]
fn content_type_leaves_the_open_field_open() {
    let body = "<m><response><href>a<getcontenttype>b</getcontenttype>c</href></response></m>";
    let entries = parse_multistatus(body).unwrap();
    assert_eq!(entries.len(), 1);
    assert_eq!(entries[0].href.as_deref(), Some("c"));
    assert_eq!(entries[0].content_type.as_deref(), Some("b"));
}
