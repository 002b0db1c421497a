use tactful::contact::{Address, Contact, Country, Name};
use tactful::date::{PartialDate, VcardDateError};
use tactful::phone::{PhoneNumber, PhoneNumberType};
use tactful::vcard::{contact_to_contentlines, contacts_to_vcard, ContentLine, VcardErrorKind};

fn contact(first: &str, last: &str) -> Contact {
    Contact {
        name: Name { first: first.to_string(), last: last.to_string() },
        birthday: None,
        phone_numbers: vec![],
        email_addresses: vec![],
        address: None,
    }
}

fn render(line: &ContentLine) -> String {
    let mut s = line.name.clone();
    for p in &line.params {
        s.push_str(&format!(";{}={}", p.name, p.value));
    }
    s.push(':');
    s.push_str(&line.value);
    s
}

fn rendered(c: &Contact) -> Vec<String> {
    contact_to_contentlines(c).expect("writable").iter().map(render).collect()
}

#[test]
fn minimal_contact() {
    assert_eq!(
        rendered(&contact("Ada", "Lovelace")),
        vec!["BEGIN:VCARD", "VERSION:4.0", "N:Lovelace;Ada;;;", "END:VCARD"]
    );
}

#[test]
fn full_contact_in_fixed_order() {
    let mut c = contact("Ada", "Lovelace");
    c.birthday = Some(PartialDate::new(Some(1815), Some(12), Some(10)).unwrap());
    c.phone_numbers = vec![
        PhoneNumber::new(" +44 20\t7946 ".to_string(), PhoneNumberType::Mobile).unwrap(),
        PhoneNumber::new("0123".to_string(), PhoneNumberType::Home).unwrap(),
        PhoneNumber::new("9".to_string(), PhoneNumberType::Work).unwrap(),
    ];
    c.email_addresses = vec!["ada@example.org".to_string()];
    c.address = Some(Address {
        street: "Main Street".to_string(),
        number: "12a".to_string(),
        locality: "Zurich".to_string(),
        postal_code: "8000".to_string(),
        country: Country::from_alpha2("CH").unwrap(),
    });
    assert_eq!(
        rendered(&c),
        vec![
            "BEGIN:VCARD",
            "VERSION:4.0",
            "N:Lovelace;Ada;;;",
            "TEL;VALUE=uri;TYPE=cell:tel:+44207946",
            "TEL;VALUE=uri;TYPE=home:tel:0123",
            "TEL;VALUE=uri;TYPE=work:tel:9",
            "EMAIL:ada@example.org",
            "ADR:;;Main Street 12a;Zurich;;8000;Switzerland",
            "BDAY:18151210",
            "END:VCARD",
        ]
    );
}

#[test]
fn optional_lines_only_with_data() {
    let mut c = contact("A", "B");
    c.email_addresses = vec!["x@y".to_string()];
    let lines = rendered(&c);
    assert_eq!(lines.first().unwrap(), "BEGIN:VCARD");
    assert_eq!(lines.last().unwrap(), "END:VCARD");
    assert!(lines.iter().any(|l| l.starts_with("EMAIL")));
    assert!(!lines.iter().any(|l| l.starts_with("TEL")));
    assert!(!lines.iter().any(|l| l.starts_with("ADR")));
    assert!(!lines.iter().any(|l| l.starts_with("BDAY")));
}

#[test]
fn control_character_in_name_fails() {
    let e = contact_to_contentlines(&contact("Ada\n", "Lovelace")).unwrap_err();
    assert_eq!(e.kind, VcardErrorKind::NameEncoding);
    assert_eq!(e.first, "Ada\n");
    let e = contact_to_contentlines(&contact("Ada", "Love\u{7f}lace")).unwrap_err();
    assert_eq!(e.kind, VcardErrorKind::NameEncoding);
}

#[test]
fn tab_is_allowed_in_values() {
    let lines = rendered(&contact("Ada\t", "Lovelace"));
    assert_eq!(lines[2], "N:Lovelace;Ada\t;;;");
}

#[test]
fn control_character_in_email_fails() {
    let mut c = contact("A", "B");
    c.email_addresses = vec!["ok@x".to_string(), "bad\r@x".to_string()];
    assert_eq!(contact_to_contentlines(&c).unwrap_err().kind, VcardErrorKind::EmailEncoding);
}

#[test]
fn control_character_in_address_fails() {
    let mut c = contact("A", "B");
    c.address = Some(Address {
        street: "Main\u{0}".to_string(),
        number: "1".to_string(),
        locality: "X".to_string(),
        postal_code: "1".to_string(),
        country: Country::from_alpha2("DE").unwrap(),
    });
    assert_eq!(contact_to_contentlines(&c).unwrap_err().kind, VcardErrorKind::AddressEncoding);
}

#[test]
fn unrepresentable_birthday_fails() {
    let mut c = contact("A", "B");
    c.birthday = Some(PartialDate::new(Some(1990), None, Some(3)).unwrap());
    assert_eq!(
        contact_to_contentlines(&c).unwrap_err().kind,
        VcardErrorKind::UnrepresentableDate(VcardDateError::Unrepresentable)
    );
    c.birthday = Some(PartialDate::new(Some(12000), None, None).unwrap());
    assert_eq!(
        contact_to_contentlines(&c).unwrap_err().kind,
        VcardErrorKind::UnrepresentableDate(VcardDateError::YearOutOfRange)
    );
}

#[test]
fn contacts_are_written_one_after_the_other() {
    let lines = contacts_to_vcard(&vec![contact("A", "B"), contact("C", "D")]).unwrap();
    let text: Vec<String> = lines.iter().map(render).collect();
    assert_eq!(
        text,
        vec![
            "BEGIN:VCARD", "VERSION:4.0", "N:B;A;;;", "END:VCARD",
            "BEGIN:VCARD", "VERSION:4.0", "N:D;C;;;", "END:VCARD",
        ]
    );
}

#[test]
fn one_bad_contact_fails_the_output() {
    let e = contacts_to_vcard(&vec![contact("A", "B"), contact("C\u{1b}", "D"), contact("E\n", "F")])
        .unwrap_err();
    assert_eq!(e.first, "C\u{1b}");
    assert_eq!(e.kind, VcardErrorKind::NameEncoding);
}
