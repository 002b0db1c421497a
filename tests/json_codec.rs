use tactful::contact::{Address, Contact, Country, Name};
use tactful::date::{DateError, PartialDate};
use tactful::json::{
    contacts_from_json, contacts_to_json, ContactErrorKind, JsonAddress, JsonContact, JsonName,
    JsonPhoneNumber, JsonPhoneNumberType,
};
use tactful::phone::{PhoneNumber, PhoneNumberError, PhoneNumberType};

fn name(first: &str, last: &str) -> Name {
    Name { first: first.to_string(), last: last.to_string() }
}

fn full_contact() -> Contact {
    Contact {
        name: name("Ada", "Lovelace"),
        birthday: Some(PartialDate::new(None, Some(12), Some(10)).unwrap()),
        phone_numbers: vec![
            PhoneNumber::new("+44 20 7946".to_string(), PhoneNumberType::Mobile).unwrap(),
            PhoneNumber::new("0123".to_string(), PhoneNumberType::Home).unwrap(),
            PhoneNumber::new("9".to_string(), PhoneNumberType::Work).unwrap(),
        ],
        email_addresses: vec!["ada@example.org".to_string(), "a@b.c".to_string()],
        address: Some(Address {
            street: "Main Street".to_string(),
            number: "12a".to_string(),
            locality: "Zurich".to_string(),
            postal_code: "8000".to_string(),
            country: Country::from_alpha2("CH").unwrap(),
        }),
    }
}

fn bare_contact() -> Contact {
    Contact {
        name: name("Bob", ""),
        birthday: None,
        phone_numbers: vec![],
        email_addresses: vec![],
        address: None,
    }
}

fn json_contact(first: &str, last: &str) -> JsonContact {
    JsonContact {
        name: JsonName { first: first.to_string(), last: last.to_string() },
        bday: None,
        phone: vec![],
        email: vec![],
        address: None,
    }
}

fn assert_same(a: &Contact, b: &Contact) {
    assert_eq!(a.name.first, b.name.first);
    assert_eq!(a.name.last, b.name.last);
    let day = |c: &Contact| c.birthday.map(|d| (d.year(), d.month(), d.day()));
    assert_eq!(day(a), day(b));
    assert_eq!(a.phone_numbers.len(), b.phone_numbers.len());
    for (p, q) in a.phone_numbers.iter().zip(&b.phone_numbers) {
        assert_eq!(p.number(), q.number());
        assert_eq!(p.ty(), q.ty());
    }
    assert_eq!(a.email_addresses, b.email_addresses);
    match (&a.address, &b.address) {
        (None, None) => {}
        (Some(x), Some(y)) => {
            assert_eq!(x.street, y.street);
            assert_eq!(x.number, y.number);
            assert_eq!(x.locality, y.locality);
            assert_eq!(x.postal_code, y.postal_code);
            assert_eq!(x.country.alpha2(), y.country.alpha2());
            assert_eq!(x.country.name(), y.country.name());
        }
        _ => panic!("address differs"),
    }
}

#[test]
fn encoding_writes_every_field() {
    let json = contacts_to_json(&vec![full_contact()]);
    assert_eq!(json.len(), 1);
    let j = &json[0];
    assert_eq!(j.name.first, "Ada");
    assert_eq!(j.name.last, "Lovelace");
    assert_eq!(j.bday.as_deref(), Some("-12-10"));
    assert_eq!(j.phone.len(), 3);
    assert_eq!(j.phone[0].number, "+44 20 7946");
    assert_eq!(j.phone[0].ty, JsonPhoneNumberType::Mobile);
    assert_eq!(j.phone[1].ty, JsonPhoneNumberType::Home);
    assert_eq!(j.phone[2].ty, JsonPhoneNumberType::Work);
    assert_eq!(j.email, vec!["ada@example.org", "a@b.c"]);
    let a = j.address.as_ref().unwrap();
    assert_eq!(a.country, "CH");
    assert_eq!(a.street, "Main Street");
    assert_eq!(a.postal_code, "8000");
}

#[test]
fn encoding_leaves_absent_fields_empty() {
    let json = contacts_to_json(&vec![bare_contact()]);
    assert!(json[0].bday.is_none());
    assert!(json[0].phone.is_empty());
    assert!(json[0].email.is_empty());
    assert!(json[0].address.is_none());
}

#[test]
fn json_round_trip_keeps_contacts_and_order() {
    let contacts = vec![full_contact(), bare_contact(), full_contact()];
    let json = contacts_to_json(&contacts);
    let back = contacts_from_json(&json).expect("decodes");
    assert_eq!(back.len(), contacts.len());
    for (a, b) in contacts.iter().zip(&back) {
        assert_same(a, b);
    }
    assert_eq!(back[1].name.first, "Bob");
}

#[test]
fn decoding_empty_document() {
    assert!(contacts_from_json(&vec![]).unwrap().is_empty());
}

#[test]
fn decoding_looks_up_the_country_name() {
    let mut j = json_contact("Ann", "Smith");
    j.address = Some(JsonAddress {
        street: "Elm".to_string(),
        number: "1".to_string(),
        locality: "Springfield".to_string(),
        postal_code: "1234".to_string(),
        country: "US".to_string(),
    });
    let c = Contact::from_json_contact(&j).expect("known country");
    let a = c.address.unwrap();
    assert_eq!(a.country.name(), "United States of America");
    assert_eq!(a.country.alpha2(), "US");
}

#[test]
fn decoding_rejects_unknown_country() {
    let mut j = json_contact("Ann", "Smith");
    j.address = Some(JsonAddress {
        street: String::new(),
        number: String::new(),
        locality: String::new(),
        postal_code: String::new(),
        country: "XX".to_string(),
    });
    let e = contacts_from_json(&vec![json_contact("Ok", "One"), j]).unwrap_err();
    assert_eq!(e.kind, ContactErrorKind::UnknownCountryCode);
    assert_eq!(e.first, "Ann");
    assert_eq!(e.last, "Smith");
}

#[test]
fn decoding_rejects_bad_birthday() {
    let mut j = json_contact("Carl", "Gauss");
    j.bday = Some("1777-04".to_string());
    let e = contacts_from_json(&vec![j]).unwrap_err();
    assert_eq!(e.kind, ContactErrorKind::InvalidBirthday(DateError::WrongComponentCount));
    assert_eq!(e.first, "Carl");
    let mut j = json_contact("Carl", "Gauss");
    j.bday = Some("1777-04-31".to_string());
    let e = Contact::from_json_contact(&j).unwrap_err();
    assert_eq!(e.kind, ContactErrorKind::InvalidBirthday(DateError::InvalidDay(31)));
}

#[test]
fn decoding_rejects_bad_phone_number() {
    let mut j = json_contact("Dora", "Explorer");
    j.phone = vec![
        JsonPhoneNumber { number: "123".to_string(), ty: JsonPhoneNumberType::Home },
        JsonPhoneNumber { number: "555-123".to_string(), ty: JsonPhoneNumberType::Work },
        JsonPhoneNumber { number: "".to_string(), ty: JsonPhoneNumberType::Work },
    ];
    let e = contacts_from_json(&vec![j]).unwrap_err();
    assert_eq!(e.kind, ContactErrorKind::InvalidPhoneNumber(PhoneNumberError::NonDigit));
    assert_eq!(e.last, "Explorer");
}

#[test]
fn first_bad_contact_is_reported() {
    let mut a = json_contact("First", "Bad");
    a.bday = Some("x--".to_string());
    let mut b = json_contact("Second", "Bad");
    b.bday = Some("-13-".to_string());
    let e = contacts_from_json(&vec![json_contact("Good", "One"), a, b]).unwrap_err();
    assert_eq!(e.first, "First");
    assert_eq!(e.kind, ContactErrorKind::InvalidBirthday(DateError::InvalidComponent));
}

#[test]
fn phone_types_map_both_ways() {
    for (t, j) in [
        (PhoneNumberType::Mobile, JsonPhoneNumberType::Mobile),
        (PhoneNumberType::Home, JsonPhoneNumberType::Home),
        (PhoneNumberType::Work, JsonPhoneNumberType::Work),
    ] {
        assert_eq!(JsonPhoneNumberType::from_type(t), j);
        assert_eq!(j.to_type(), t);
    }
}
