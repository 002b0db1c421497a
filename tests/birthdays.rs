use tactful::birthday::{birthday_events, birthday_line, contact_events_of, next_birthdays, BirthdayItem};
use tactful::contact::{Contact, Name};
use tactful::date::{Date, PartialDate};

fn contact(first: &str, year: Option<u16>, month: Option<u16>, day: Option<u16>) -> Contact {
    Contact {
        name: Name { first: first.to_string(), last: "Doe".to_string() },
        birthday: Some(PartialDate::new(year, month, day).unwrap()),
        phone_numbers: vec![],
        email_addresses: vec![],
        address: None,
    }
}

fn today() -> Date {
    Date { year: 2024, month: 6, day: 1 }
}

#[test]
fn listing_orders_by_next_occurrence() {
    let contacts = vec![contact("Jan", None, Some(1), Some(15)), contact("June", None, Some(6), Some(1))];
    let items = next_birthdays(&contacts, today());
    assert_eq!(
        items,
        vec![
            BirthdayItem { next_birthday: Date { year: 2024, month: 6, day: 1 }, contact: 1 },
            BirthdayItem { next_birthday: Date { year: 2025, month: 1, day: 15 }, contact: 0 },
        ]
    );
    let lines: Vec<String> =
        items.iter().map(|i| birthday_line(i.next_birthday, &contacts[i.contact].name)).collect();
    assert_eq!(lines, vec!["2024-06-01 June Doe", "2025-01-15 Jan Doe"]);
}

#[test]
fn listing_excludes_birthdays_without_month_and_day() {
    let mut no_birthday = contact("None", None, None, None);
    no_birthday.birthday = None;
    let contacts = vec![
        contact("Year", Some(1980), None, None),
        contact("Month", None, Some(3), None),
        contact("Day", None, None, Some(3)),
        no_birthday,
        contact("Full", Some(1980), Some(7), Some(4)),
    ];
    let items = next_birthdays(&contacts, today());
    assert_eq!(items.len(), 1);
    assert_eq!(items[0].contact, 4);
    assert_eq!(items[0].next_birthday, Date { year: 2024, month: 7, day: 4 });
}

#[test]
fn listing_keeps_order_of_equal_dates() {
    let contacts = vec![
        contact("C", None, Some(5), Some(31)),
        contact("A", None, Some(8), Some(2)),
        contact("B", Some(1970), Some(8), Some(2)),
        contact("D", None, Some(6), Some(2)),
    ];
    let order: Vec<usize> = next_birthdays(&contacts, today()).iter().map(|i| i.contact).collect();
    assert_eq!(order, vec![3, 1, 2, 0]);
}

#[test]
fn february_29_is_projected_verbatim() {
    let contacts = vec![contact("Leap", None, Some(2), Some(29))];
    let items = next_birthdays(&contacts, Date { year: 2024, month: 3, day: 1 });
    assert_eq!(items[0].next_birthday, Date { year: 2025, month: 2, day: 29 });
    assert_eq!(birthday_line(items[0].next_birthday, &contacts[0].name), "2025-02-29 Leap Doe");
}

#[test]
fn birthday_today_is_this_year() {
    let contacts = vec![contact("Today", None, Some(6), Some(1)), contact("Yesterday", None, Some(5), Some(31))];
    let items = next_birthdays(&contacts, today());
    assert_eq!(items[0].next_birthday, Date { year: 2024, month: 6, day: 1 });
    assert_eq!(items[1].next_birthday, Date { year: 2025, month: 5, day: 31 });
}

#[test]
fn birthday_line_pads_the_date() {
    let name = Name { first: "A".to_string(), last: "B".to_string() };
    assert_eq!(birthday_line(Date { year: 987, month: 1, day: 2 }, &name), "0987-01-02 A B");
}

#[test]
fn calendar_with_known_birth_year() {
    let c = contact("Max", Some(1990), Some(4), Some(20));
    let events = contact_events_of(&c, 2024);
    assert_eq!(events.len(), 45);
    assert_eq!(events[0].year, 1990);
    assert_eq!(events[0].summary, "Max Doe (0)");
    let e = &events[34];
    assert_eq!((e.year, e.month, e.day), (2024, 4, 20));
    assert_eq!(e.summary, "Max Doe (34)");
    assert!(!e.yearly);
    let last = events.last().unwrap();
    assert_eq!(last.year, 2034);
    assert_eq!(last.summary, "Max Doe (44)");
}

#[test]
fn calendar_with_unknown_birth_year() {
    let c = contact("Eve", None, Some(12), Some(24));
    let events = contact_events_of(&c, 2024);
    assert_eq!(events.len(), 1);
    assert_eq!((events[0].year, events[0].month, events[0].day), (2023, 12, 24));
    assert_eq!(events[0].summary, "Eve Doe");
    assert!(events[0].yearly);
}

#[test]
fn calendar_caps_and_floors() {
    let old = contact("Old", Some(1800), Some(1), Some(1));
    let events = contact_events_of(&old, 2024);
    assert_eq!(events.len(), 150);
    assert_eq!(events[149].year, 1949);
    let future = contact("Future", Some(2100), Some(1), Some(1));
    let events = contact_events_of(&future, 2024);
    assert_eq!(events.len(), 1);
    assert_eq!(events[0].summary, "Future Doe (0)");
    let edge = contact("Edge", Some(2034), Some(1), Some(1));
    assert_eq!(contact_events_of(&edge, 2024).len(), 1);
}

#[test]
fn calendar_skips_incomplete_birthdays() {
    let contacts = vec![
        contact("Year", Some(1980), None, None),
        contact("Eve", None, Some(12), Some(24)),
        contact("Day", Some(1980), Some(2), None),
    ];
    let events = birthday_events(&contacts, 2024);
    assert_eq!(events.len(), 1);
    assert_eq!(events[0].summary, "Eve Doe");
}
