use davserv::api::{
    contact_from_card, contact_from_text, contacts_from_cards, delete_answer, update_request,
    AppError,
};
use davserv::vcard::{vcard_from_input, ContactInput};
use davserv::config::default_bind_addr;
use davserv::dav::DavCard;

fn card(uid: &str, text: &str) -> DavCard {
    DavCard { uid: uid.to_string(), etag: None, vcard_text: text.to_string() }
}

#[test]
fn contacts_are_sorted_by_lowercased_full_name_stably() {
    let cards = vec![
        card("1", "FN:bob\r\n"),
        card("2", "FN:Alice\r\n"),
        card("3", "FN:ÉMILE\r\n"),
        card("4", "FN:alice\r\n"),
        card("5", "N:Nameless\r\n"),
        card("6", "FN:ALICE\r\n"),
    ];
    let contacts = contacts_from_cards(&cards);
    let order: Vec<(String, String)> =
        contacts.iter().map(|c| (c.uid.clone(), c.full_name.clone())).collect();
    assert_eq!(
        order,
        vec![
            ("5".to_string(), "5".to_string()),
            ("2".to_string(), "Alice".to_string()),
            ("4".to_string(), "alice".to_string()),
            ("6".to_string(), "ALICE".to_string()),
            ("1".to_string(), "bob".to_string()),
            ("3".to_string(), "ÉMILE".to_string()),
        ]
    );
}

#[test]
fn contacts_from_no_cards() {
    assert!(contacts_from_cards(&vec![]).is_empty());
}

#[test]
fn contact_from_card_uses_the_card_uid() {
    let c = contact_from_card(&card("abc", "BEGIN:VCARD\r\nUID:other\r\nFN:X\r\nEND:VCARD\r\n"));
    assert_eq!(c.uid, "abc");
    assert_eq!(c.full_name, "X");
}

#[test]
fn app_error_answers() {
    assert_eq!(AppError::NotFound.status_code(), 404);
    assert_eq!(AppError::NotFound.error_message(), "not found");
    let e = AppError::Internal("PROPFIND failed".to_string());
    assert_eq!(e.status_code(), 502);
    assert_eq!(e.error_message(), "PROPFIND failed");
}

#[test]
fn default_bind_address() {
    assert_eq!(default_bind_addr(), "127.0.0.1:8080");
}

#[test]
fn delete_answer_is_no_content_or_not_found() {
    assert!(matches!(delete_answer(true), Ok(204)));
    assert!(matches!(delete_answer(false), Err(AppError::NotFound)));
}

#[test]
fn update_request_needs_an_existing_card() {
    let input = ContactInput {
        full_name: "A".to_string(),
        first_name: None,
        last_name: None,
        emails: vec![],
        phones: vec![],
        org: None,
        note: None,
    };
    assert!(matches!(update_request("u", &input, None), Err(AppError::NotFound)));
    let existing = DavCard { uid: "u".to_string(), etag: Some("e7".to_string()), vcard_text: String::new() };
    match update_request("u", &input, Some(existing)) {
        Ok((text, etag)) => {
            assert_eq!(text, vcard_from_input("u", &input));
            assert_eq!(etag.as_deref(), Some("e7"));
        }
        Err(_) => panic!("expected a request"),
    }
}

#[test]
fn contact_from_text_reads_back_what_was_written() {
    let c = contact_from_text("u1", "BEGIN:VCARD\r\nFN:Ada\r\nEMAIL:a@x\r\nEND:VCARD\r\n");
    assert_eq!(c.uid, "u1");
    assert_eq!(c.full_name, "Ada");
    assert_eq!(c.emails, vec!["a@x".to_string()]);
}
