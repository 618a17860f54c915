use davserv::vcard::{
    contact_from_vcard, escape_value, parse, unescape_value, vcard_from_input, Contact,
    ContactInput, Property, Vcard,
};

fn props(v: &Vcard) -> Vec<(String, String)> {
    v.properties.iter().map(|p| (p.name.clone(), p.value.clone())).collect()
}

fn pair(n: &str, v: &str) -> (String, String) {
    (n.to_string(), v.to_string())
}

fn card(list: &[(&str, &str)]) -> Vcard {
    Vcard {
        properties: list
            .iter()
            .map(|(n, v)| Property { name: n.to_string(), value: v.to_string() })
            .collect(),
    }
}

#[test]
fn parse_skips_markers_and_reads_properties() {
    let v = parse("BEGIN:VCARD\r\nVERSION:3.0\r\nFN:John Doe\r\nEND:VCARD\r\n");
    assert_eq!(props(&v), vec![pair("VERSION", "3.0"), pair("FN", "John Doe")]);
}

#[test]
fn parse_markers_in_any_case_and_with_spaces() {
    let v = parse(" begin:vcard \nfn:Ann\nEnd:VCard\t\n");
    assert_eq!(props(&v), vec![pair("FN", "Ann")]);
    // A line starting with a tab continues the previous one.
    let v = parse("fn:Ann\n\tEnd:VCard\n");
    assert_eq!(props(&v), vec![pair("FN", "AnnEnd:VCard")]);
}

#[test]
fn parse_unfolds_continuation_lines() {
    let v = parse("NOTE:hello\r\n world\r\n\tand more\r\nTEL:1\r\n");
    assert_eq!(props(&v), vec![pair("NOTE", "helloworldand more"), pair("TEL", "1")]);
}

#[test]
fn parse_continuation_without_previous_line_is_a_line() {
    let v = parse(" X:1\r\n");
    assert_eq!(props(&v), vec![pair(" X", "1")]);
}

#[test]
fn parse_strips_group_and_params_and_uppercases() {
    let v = parse("item1.email;type=INTERNET:a@b.c\r\n");
    assert_eq!(props(&v), vec![pair("EMAIL", "a@b.c")]);
}

#[test]
fn parse_colon_inside_quoted_parameter() {
    let v = parse("X-FOO;LABEL=\"a:b\":value:with:colons\r\n");
    assert_eq!(props(&v), vec![pair("X-FOO", "value:with:colons")]);
}

#[test]
fn parse_skips_lines_without_separator() {
    let v = parse("garbage line\r\n\r\nORG:Acme\r\n");
    assert_eq!(props(&v), vec![pair("ORG", "Acme")]);
}

#[test]
fn parse_unescapes_values() {
    let v = parse("NOTE:a\\nb\\Nc\\,d\\;e\\\\f\\xg\\\r\n");
    assert_eq!(props(&v), vec![pair("NOTE", "a\nb\nc,d;e\\fxg")]);
}

#[test]
fn parse_empty_text() {
    let v = parse("");
    assert!(v.properties.is_empty());
}

#[test]
fn get_returns_first_and_get_all_returns_all() {
    let v = card(&[("EMAIL", "a"), ("TEL", "1"), ("EMAIL", "b")]);
    assert_eq!(v.get("EMAIL").map(|p| p.value.clone()), Some("a".to_string()));
    assert!(v.get("ORG").is_none());
    let all: Vec<String> = v.get_all("EMAIL").iter().map(|p| p.value.clone()).collect();
    assert_eq!(all, vec!["a".to_string(), "b".to_string()]);
    assert!(v.get_all("NOTE").is_empty());
    // get is the first of get_all
    assert_eq!(v.get("EMAIL").map(|p| p.value.clone()), v.get_all("EMAIL").first().map(|p| p.value.clone()));
}

fn contact_fields(c: &Contact) -> (String, String, Option<String>, Option<String>, Vec<String>, Vec<String>, Option<String>, Option<String>) {
    (
        c.uid.clone(),
        c.full_name.clone(),
        c.first_name.clone(),
        c.last_name.clone(),
        c.emails.clone(),
        c.phones.clone(),
        c.org.clone(),
        c.note.clone(),
    )
}

#[test]
fn contact_from_vcard_reads_fields() {
    let v = card(&[
        ("FN", "Jane Q. Public"),
        ("N", "Public;Jane;Q.;Dr.;"),
        ("EMAIL", "jane@example.com"),
        ("EMAIL", "jq@example.org"),
        ("TEL", "+1 555"),
        ("ORG", "Acme"),
        ("NOTE", "hi"),
        ("NOTE", "second"),
    ]);
    let c = contact_from_vcard("u1", &v);
    assert_eq!(
        contact_fields(&c),
        (
            "u1".to_string(),
            "Jane Q. Public".to_string(),
            Some("Jane".to_string()),
            Some("Public".to_string()),
            vec!["jane@example.com".to_string(), "jq@example.org".to_string()],
            vec!["+1 555".to_string()],
            Some("Acme".to_string()),
            Some("hi".to_string()),
        )
    );
}

#[test]
fn contact_from_vcard_defaults_full_name_to_uid() {
    let c = contact_from_vcard("abc", &card(&[("N", "Doe")]));
    assert_eq!(c.full_name, "abc");
    assert_eq!(c.last_name, Some("Doe".to_string()));
    assert_eq!(c.first_name, None);
    assert!(c.emails.is_empty());
    assert_eq!(c.org, None);
}

#[test]
fn contact_from_vcard_empty_name_parts_are_absent() {
    let c = contact_from_vcard("x", &card(&[("N", ";;;;")]));
    assert_eq!(c.first_name, None);
    assert_eq!(c.last_name, None);
    let c = contact_from_vcard("x", &card(&[("N", ";Given")]));
    assert_eq!(c.first_name, Some("Given".to_string()));
    assert_eq!(c.last_name, None);
}

fn input(full: &str, first: Option<&str>, last: Option<&str>, emails: &[&str], phones: &[&str], org: Option<&str>, note: Option<&str>) -> ContactInput {
    ContactInput {
        full_name: full.to_string(),
        first_name: first.map(|s| s.to_string()),
        last_name: last.map(|s| s.to_string()),
        emails: emails.iter().map(|s| s.to_string()).collect(),
        phones: phones.iter().map(|s| s.to_string()).collect(),
        org: org.map(|s| s.to_string()),
        note: note.map(|s| s.to_string()),
    }
}

#[test]
fn vcard_from_input_exact_text() {
    let i = input("John Doe", Some("John"), Some("Doe"), &["j@d.com"], &["123"], Some("Acme"), Some("a,b;c\nd\\e"));
    let text = vcard_from_input("uid-1", &i);
    assert_eq!(
        text,
        "BEGIN:VCARD\r\nVERSION:3.0\r\nUID:uid-1\r\nFN:John Doe\r\nN:Doe;John;;;\r\nEMAIL;TYPE=INTERNET:j@d.com\r\nTEL;TYPE=CELL:123\r\nORG:Acme\r\nNOTE:a\\,b\\;c\\nd\\\\e\r\nEND:VCARD\r\n"
    );
}

#[test]
fn vcard_from_input_omits_empty_fields() {
    let i = input("Solo", Some(""), None, &[], &[], Some(""), None);
    let text = vcard_from_input("u", &i);
    assert_eq!(text, "BEGIN:VCARD\r\nVERSION:3.0\r\nUID:u\r\nFN:Solo\r\nEND:VCARD\r\n");
}

#[test]
fn written_contact_reads_back() {
    let i = input(
        "Zoë, the; \"best\"\\",
        Some("Zoë"),
        Some("Lastname"),
        &["a@b.c", "", "x\ny"],
        &["+49 1", "2"],
        Some("Org, Inc."),
        Some("line1\nline2; with \\ backslash"),
    );
    let text = vcard_from_input("id-7", &i);
    let c = contact_from_vcard("id-7", &parse(&text));
    assert_eq!(
        contact_fields(&c),
        (
            "id-7".to_string(),
            i.full_name.clone(),
            i.first_name.clone(),
            i.last_name.clone(),
            i.emails.clone(),
            i.phones.clone(),
            i.org.clone(),
            i.note.clone(),
        )
    );
}

#[test]
fn written_contact_reads_back_with_empty_optionals() {
    let i = input("Only Given", Some("Given"), Some(""), &[], &[], Some(""), Some(""));
    let c = contact_from_vcard("u", &parse(&vcard_from_input("u", &i)));
    assert_eq!(c.first_name, Some("Given".to_string()));
    assert_eq!(c.last_name, None);
    assert_eq!(c.org, None);
    assert_eq!(c.note, None);
}

#[test]
fn semicolon_in_last_name_does_not_read_back() {
    // N separates its parts with ';', so such a name is split on reading.
    let i = input("X", Some("First"), Some("Van;Der"), &[], &[], None, None);
    let c = contact_from_vcard("u", &parse(&vcard_from_input("u", &i)));
    assert_eq!(c.last_name, Some("Van".to_string()));
    assert_eq!(c.first_name, Some("Der".to_string()));
}

#[test]
fn escape_value_escapes_the_four_special_characters() {
    assert_eq!(escape_value("a\\b\nc,d;e"), "a\\\\b\\nc\\,d\\;e");
    assert_eq!(escape_value("plain"), "plain");
    assert_eq!(escape_value(""), "");
}

#[test]
fn escaped_value_length_and_no_newline() {
    let v = "x,y;z\n\\";
    let e = escape_value(v);
    assert_eq!(e.chars().count(), v.chars().count() + 4);
    assert!(!e.contains('\n'));
}

#[test]
fn unescape_value_resolves_escapes() {
    assert_eq!(unescape_value("a\\nb\\Nc"), "a\nb\nc");
    assert_eq!(unescape_value("\\,\\;\\\\\\x"), ",;\\x");
    assert_eq!(unescape_value("tail\\"), "tail");
}

#[test]
fn unescape_undoes_escape() {
    for v in ["", "a,b;c", "line1\nline2", "back\\slash", "\\n", ";;,,"] {
        assert_eq!(unescape_value(&escape_value(v)), v);
    }
}

fn lf_after_cr(text: &str) -> bool {
    let cs: Vec<char> = text.chars().collect();
    (0..cs.len()).all(|i| cs[i] != '\n' || (i > 0 && cs[i - 1] == '\r'))
}

#[test]
fn written_vcard_text_shape() {
    let cases = vec![
        (input("Ada, L.", None, None, &[], &[], None, None), 5),
        (input("Ada, L.", Some("Ada"), Some(""), &["a@x", "b@y"], &["1"], Some("Org"), Some("n1\nn2")), 11),
        (input("Ada, L.", Some(""), None, &[], &["1", "2"], Some(""), Some("")), 7),
    ];
    for (inp, lines) in cases {
        let text = vcard_from_input("id;1", &inp);
        assert!(text.starts_with("BEGIN:VCARD\r\nVERSION:3.0\r\nUID:id\\;1\r\nFN:Ada\\, L.\r\n"));
        assert!(text.ends_with("END:VCARD\r\n"));
        assert!(lf_after_cr(&text));
        assert_eq!(text.matches("\r\n").count(), lines);
    }
}

#[test]
fn written_vcard_lines_in_order() {
    let inp = input("Ada, L.", None, Some("Lovelace"), &["a@x"], &["+1", "+2"], None, Some("hi"));
    let text = vcard_from_input("u", &inp);
    let lines: Vec<&str> = text.split("\r\n").collect();
    assert_eq!(
        lines,
        vec![
            "BEGIN:VCARD",
            "VERSION:3.0",
            "UID:u",
            "FN:Ada\\, L.",
            "N:Lovelace;;;;",
            "EMAIL;TYPE=INTERNET:a@x",
            "TEL;TYPE=CELL:+1",
            "TEL;TYPE=CELL:+2",
            "NOTE:hi",
            "END:VCARD",
            "",
        ]
    );
}

#[test]
fn continuation_joins_the_last_non_empty_line() {
    let v = parse(" lead\r\nA:1\r\n\r\n b\n\tc\r\nB:2");
    assert_eq!(props(&v), vec![pair("A", "1bc"), pair("B", "2")]);
}

#[test]
fn split_is_at_first_colon_outside_quotes() {
    let v = parse("X;P=\"a:b\":v:w\r\nY;Q=\"open:no-value\r\nZ;R=\"x\"\"y:z\":val");
    assert_eq!(props(&v), vec![pair("X", "v:w"), pair("Z", "val")]);
}

#[test]
fn escaped_separators_follow_odd_backslash_runs() {
    for v in [",", ";", "\\,", "\\\\;", "a\\\n,b;", ",,;;\\"] {
        let e: Vec<char> = escape_value(v).chars().collect();
        for i in 0..e.len() {
            if e[i] == ',' || e[i] == ';' {
                let run = e[..i].iter().rev().take_while(|c| **c == '\\').count();
                assert_eq!(run % 2, 1, "{v:?}");
            }
        }
    }
}
