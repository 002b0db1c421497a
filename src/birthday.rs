//! Birthday projections: the next occurrence of every known birthday, and calendar events.

use vstd::prelude::*;
use crate::contact::{full_name, Contact, Name};
use crate::date::Date;
use crate::text::{decimal, padded, push_char, push_decimal, push_padded, push_str};

verus! {

/// The next birthday of the contact at index `contact` of a list.
#[derive(Clone, Copy, Debug, PartialEq, Eq, Structural)]
pub struct BirthdayItem {
    pub next_birthday: Date,
    pub contact: usize,
}

/// `a` comes no later than `b`, comparing year, then month, then day.
pub open spec fn date_le(a: Date, b: Date) -> bool {
    a.year < b.year || (a.year == b.year && (a.month < b.month || (a.month == b.month && a.day
        <= b.day)))
}

/// A contact whose birthday has both month and day.
pub open spec fn has_birthday(c: Contact) -> bool {
    c.birthday is Some && c.birthday->0@.month is Some && c.birthday->0@.day is Some
}

/// This year's occurrence of `month`/`day` if it is today or later, else next year's.
/// February 29 is kept as it is in every year.
pub open spec fn next_occurrence(today: Date, month: u16, day: u16) -> Date {
    let this_year = Date { year: today.year, month, day };
    if date_le(today, this_year) {
        this_year
    } else {
        Date { year: (today.year + 1) as u16, month, day }
    }
}

/// The next birthday of every contact that has one, in the order of the contacts.
pub open spec fn birthday_items(cs: Seq<Contact>, today: Date) -> Seq<BirthdayItem>
    decreases cs.len(),
{
    if cs.len() == 0 {
        Seq::empty()
    } else {
        let before = birthday_items(cs.drop_last(), today);
        let c = cs.last();
        if has_birthday(c) {
            before.push(
                BirthdayItem {
                    next_birthday: next_occurrence(
                        today,
                        c.birthday->0@.month->0,
                        c.birthday->0@.day->0,
                    ),
                    contact: (cs.len() - 1) as usize,
                },
            )
        } else {
            before
        }
    }
}

/// `e` placed after every item of the sorted `s` whose date is not later than its own.
pub open spec fn insert_sorted(s: Seq<BirthdayItem>, e: BirthdayItem) -> Seq<BirthdayItem>
    decreases s.len(),
{
    if s.len() == 0 || date_le(s.last().next_birthday, e.next_birthday) {
        s.push(e)
    } else {
        insert_sorted(s.drop_last(), e).push(s.last())
    }
}

/// Stable sort by date: items of equal date keep their order.
pub open spec fn sort_items(s: Seq<BirthdayItem>) -> Seq<BirthdayItem>
    decreases s.len(),
{
    if s.len() == 0 {
        s
    } else {
        insert_sorted(sort_items(s.drop_last()), s.last())
    }
}

proof fn lemma_insert_members(s: Seq<BirthdayItem>, e: BirthdayItem)
    ensures
        forall|x: BirthdayItem| #[trigger] insert_sorted(s, e).contains(x) ==> s.contains(x) || x == e,
    decreases s.len(),
{
    if s.len() == 0 || date_le(s.last().next_birthday, e.next_birthday) {
        assert forall|x: BirthdayItem| #[trigger] insert_sorted(s, e).contains(x) implies s.contains(x) || x == e by {
            let i = choose|i: int| 0 <= i < s.push(e).len() && s.push(e)[i] == x;
            if i < s.len() {
                assert(s[i] == x);
            }
        }
    } else {
        lemma_insert_members(s.drop_last(), e);
        assert forall|x: BirthdayItem| #[trigger] insert_sorted(s, e).contains(x) implies s.contains(x) || x == e by {
            let t = insert_sorted(s.drop_last(), e);
            let i = choose|i: int| 0 <= i < t.push(s.last()).len() && t.push(s.last())[i] == x;
            if i < t.len() {
                assert(t.contains(x));
                if s.drop_last().contains(x) {
                    let j = choose|j: int| 0 <= j < s.drop_last().len() && s.drop_last()[j] == x;
                    assert(s[j] == x);
                }
            } else {
                assert(s[s.len() - 1] == x);
            }
        }
    }
}

proof fn lemma_sort_members(s: Seq<BirthdayItem>)
    ensures
        forall|x: BirthdayItem| #[trigger] sort_items(s).contains(x) ==> s.contains(x),
    decreases s.len(),
{
    if s.len() > 0 {
        lemma_sort_members(s.drop_last());
        lemma_insert_members(sort_items(s.drop_last()), s.last());
        assert forall|x: BirthdayItem| #[trigger] sort_items(s).contains(x) implies s.contains(x) by {
            if s.drop_last().contains(x) {
                let j = choose|j: int| 0 <= j < s.drop_last().len() && s.drop_last()[j] == x;
                assert(s[j] == x);
            } else {
                assert(s[s.len() - 1] == x);
            }
        }
    }
}

proof fn lemma_items_have_birthdays(cs: Seq<Contact>, today: Date)
    requires
        cs.len() <= usize::MAX,
    ensures
        forall|x: BirthdayItem| #[trigger] birthday_items(cs, today).contains(x) ==> x.contact < cs.len()
            && has_birthday(cs[x.contact as int]),
    decreases cs.len(),
{
    if cs.len() > 0 {
        lemma_items_have_birthdays(cs.drop_last(), today);
        let before = birthday_items(cs.drop_last(), today);
        assert forall|x: BirthdayItem| #[trigger] birthday_items(cs, today).contains(x) implies x.contact
            < cs.len() && has_birthday(cs[x.contact as int]) by {
            let t = birthday_items(cs, today);
            let i = choose|i: int| 0 <= i < t.len() && t[i] == x;
            if i < before.len() {
                assert(before[i] == x);
                assert(before.contains(x));
                assert(cs.drop_last()[x.contact as int] == cs[x.contact as int]);
            } else {
                assert(has_birthday(cs.last()));
                assert(t == before.push(t[i]));
                assert(x.contact == cs.len() - 1);
            }
        }
    }
}

/// The listing holds only contacts whose birthday has both month and day; a contact whose
/// birthday lacks either is left out.
pub proof fn lemma_listing_has_month_and_day(cs: Seq<Contact>, today: Date)
    requires
        cs.len() <= usize::MAX,
    ensures
        forall|i: int|
            0 <= i < sort_items(birthday_items(cs, today)).len() ==> {
                let k = (#[trigger] sort_items(birthday_items(cs, today))[i]).contact;
                &&& k < cs.len()
                &&& has_birthday(cs[k as int])
            },
{
    let items = birthday_items(cs, today);
    lemma_items_have_birthdays(cs, today);
    lemma_sort_members(items);
    assert forall|i: int| 0 <= i < sort_items(items).len() implies {
        let k = (#[trigger] sort_items(items)[i]).contact;
        &&& k < cs.len()
        &&& has_birthday(cs[k as int])
    } by {
        assert(sort_items(items).contains(sort_items(items)[i]));
    }
}

/// Items in ascending order of their dates.
pub open spec fn sorted_by_date(s: Seq<BirthdayItem>) -> bool {
    forall|i: int, j: int|
        0 <= i < j < s.len() ==> date_le(#[trigger] s[i].next_birthday, #[trigger] s[j].next_birthday)
}

proof fn lemma_insert_sorted_sorted(s: Seq<BirthdayItem>, e: BirthdayItem)
    requires
        sorted_by_date(s),
    ensures
        sorted_by_date(insert_sorted(s, e)),
    decreases s.len(),
{
    if s.len() == 0 || date_le(s.last().next_birthday, e.next_birthday) {
        let t = s.push(e);
        assert forall|i: int, j: int| 0 <= i < j < t.len() implies date_le(
            #[trigger] t[i].next_birthday,
            #[trigger] t[j].next_birthday,
        ) by {
            if j == s.len() {
                assert(date_le(s[i].next_birthday, s[s.len() - 1].next_birthday) || i == s.len() - 1);
            }
        }
    } else {
        let d = s.drop_last();
        let l = s.last();
        lemma_insert_sorted_sorted(d, e);
        lemma_insert_members(d, e);
        let u = insert_sorted(d, e);
        let t = u.push(l);
        assert forall|i: int, j: int| 0 <= i < j < t.len() implies date_le(
            #[trigger] t[i].next_birthday,
            #[trigger] t[j].next_birthday,
        ) by {
            if j == u.len() {
                assert(u.contains(u[i]));
                if d.contains(u[i]) {
                    let k = choose|k: int| 0 <= k < d.len() && d[k] == u[i];
                    assert(s[k] == u[i]);
                    assert(date_le(s[k].next_birthday, s[s.len() - 1].next_birthday));
                }
            }
        }
    }
}

/// The listing is in ascending order of the projected dates.
pub proof fn lemma_sorted_items(s: Seq<BirthdayItem>)
    ensures
        sorted_by_date(sort_items(s)),
    decreases s.len(),
{
    if s.len() > 0 {
        lemma_sorted_items(s.drop_last());
        lemma_insert_sorted_sorted(sort_items(s.drop_last()), s.last());
    }
}

fn date_before_or_on(a: Date, b: Date) -> (r: bool)
    ensures
        r == date_le(a, b),
{
    a.year < b.year || (a.year == b.year && (a.month < b.month || (a.month == b.month && a.day
        <= b.day)))
}

proof fn lemma_insert_at(s: Seq<BirthdayItem>, e: BirthdayItem, j: int)
    requires
        0 <= j <= s.len(),
        forall|k: int| j <= k < s.len() ==> !date_le((#[trigger] s[k]).next_birthday, e.next_birthday),
        j == 0 || date_le(s[j - 1].next_birthday, e.next_birthday),
    ensures
        insert_sorted(s, e) == s.insert(j, e),
    decreases s.len(),
{
    if s.len() == 0 {
        assert(s.insert(j, e) =~= seq![e]);
    } else if date_le(s.last().next_birthday, e.next_birthday) {
        assert(j == s.len());
        assert(s.insert(j, e) =~= s.push(e));
    } else {
        lemma_insert_at(s.drop_last(), e, j);
        assert(s.drop_last().insert(j, e).push(s.last()) =~= s.insert(j, e));
    }
}

/// The next birthday of every contact whose birthday has month and day, sorted by date; items
/// of equal date keep the order of the contacts.
pub fn next_birthdays(contacts: &Vec<Contact>, today: Date) -> (r: Vec<BirthdayItem>)
    requires
        today.year < 65535,
    ensures
        r@ == sort_items(birthday_items(contacts@, today)),
        sorted_by_date(r@),
{
    let mut items: Vec<BirthdayItem> = Vec::new();
    let mut i: usize = 0;
    while i < contacts.len()
        invariant
            today.year < 65535,
            i <= contacts@.len(),
            items@ == birthday_items(contacts@.take(i as int), today),
        decreases contacts@.len() - i,
    {
        proof {
            assert(contacts@.take(i as int + 1).drop_last() =~= contacts@.take(i as int));
            assert(contacts@.take(i as int + 1).last() == contacts@[i as int]);
        }
        if let Some(bday) = &contacts[i].birthday {
            if let (Some(month), Some(day)) = (bday.month(), bday.day()) {
                let this_year = Date { year: today.year, month, day };
                let next = if date_before_or_on(today, this_year) {
                    this_year
                } else {
                    Date { year: today.year + 1, month, day }
                };
                items.push(BirthdayItem { next_birthday: next, contact: i });
            }
        }
        i = i + 1;
    }
    assert(contacts@.take(i as int) =~= contacts@);

    let mut sorted: Vec<BirthdayItem> = Vec::new();
    let mut k: usize = 0;
    while k < items.len()
        invariant
            k <= items@.len(),
            sorted@ == sort_items(items@.take(k as int)),
        decreases items@.len() - k,
    {
        let e = items[k];
        let mut j: usize = sorted.len();
        while j > 0 && !date_before_or_on(sorted[j - 1].next_birthday, e.next_birthday)
            invariant
                j <= sorted@.len(),
                forall|m: int|
                    j <= m < sorted@.len() ==> !date_le(
                        (#[trigger] sorted@[m]).next_birthday,
                        e.next_birthday,
                    ),
            decreases j,
        {
            j = j - 1;
        }
        proof {
            lemma_insert_at(sorted@, e, j as int);
            assert(items@.take(k as int + 1).drop_last() =~= items@.take(k as int));
            assert(items@.take(k as int + 1).last() == e);
        }
        sorted.insert(j, e);
        k = k + 1;
    }
    assert(items@.take(k as int) =~= items@);
    proof {
        lemma_sorted_items(items@);
    }
    sorted
}

/// A listing line: the date as `YYYY-MM-DD`, then first and last name.
pub open spec fn birthday_line_text(d: Date, n: Name) -> Seq<char> {
    padded(d.year as nat, 4) + seq!['-'] + padded(d.month as nat, 2) + seq!['-'] + padded(
        d.day as nat,
        2,
    ) + seq![' '] + n.first@ + seq![' '] + n.last@
}

/// The line of the birthday listing for a date and a name.
pub fn birthday_line(date: Date, name: &Name) -> (r: String)
    ensures
        r@ == birthday_line_text(date, *name),
{
    let mut s = String::new();
    push_padded(&mut s, date.year as u32, 4);
    push_char(&mut s, '-');
    push_padded(&mut s, date.month as u32, 2);
    push_char(&mut s, '-');
    push_padded(&mut s, date.day as u32, 2);
    push_char(&mut s, ' ');
    push_str(&mut s, name.first.as_str());
    push_char(&mut s, ' ');
    push_str(&mut s, name.last.as_str());
    assert(s@ =~= birthday_line_text(date, *name));
    s
}

/// A whole-day calendar event for a birthday.
#[derive(Debug)]
pub struct BirthdayEvent {
    pub year: u32,
    pub month: u16,
    pub day: u16,
    pub summary: String,
    /// The event repeats every year from its date on.
    pub yearly: bool,
}

/// A calendar event as plain values.
pub struct EventSpec {
    pub year: int,
    pub month: u16,
    pub day: u16,
    pub summary: Seq<char>,
    pub yearly: bool,
}

impl View for BirthdayEvent {
    type V = EventSpec;

    open spec fn view(&self) -> EventSpec {
        EventSpec {
            year: self.year as int,
            month: self.month,
            day: self.day,
            summary: self.summary@,
            yearly: self.yearly,
        }
    }
}

/// How many events a known birth year gets: one per age from 0 on, ending with the age whose
/// next year lies past `now_year + 10`; at least one and at most 150.
pub open spec fn event_count(birth_year: u16, now_year: u16) -> nat {
    let last_age: int = if now_year + 10 > birth_year {
        now_year + 10 - birth_year
    } else {
        0
    };
    if last_age + 1 > 150 {
        150
    } else {
        (last_age + 1) as nat
    }
}

/// Summary of the event at `age`: the name, then the age in parentheses.
pub open spec fn age_summary(n: Name, age: nat) -> Seq<char> {
    full_name(n) + seq![' ', '('] + decimal(age) + seq![')']
}

/// The events of one contact: with a known birth year one event per age, else one event that
/// repeats yearly from last year's occurrence on. Contacts without month or day have none.
pub open spec fn contact_events(c: Contact, now_year: u16) -> Seq<EventSpec> {
    if !has_birthday(c) {
        Seq::empty()
    } else {
        let f = c.birthday->0@;
        let month = f.month->0;
        let day = f.day->0;
        match f.year {
            Some(y) => Seq::new(
                event_count(y, now_year),
                |k: int|
                    EventSpec {
                        year: y + k,
                        month,
                        day,
                        summary: age_summary(c.name, k as nat),
                        yearly: false,
                    },
            ),
            None => seq![
                EventSpec {
                    year: now_year - 1,
                    month,
                    day,
                    summary: full_name(c.name),
                    yearly: true,
                },
            ],
        }
    }
}

/// The events of all contacts, one contact after the other.
pub open spec fn calendar_events(cs: Seq<Contact>, now_year: u16) -> Seq<EventSpec>
    decreases cs.len(),
{
    if cs.len() == 0 {
        Seq::empty()
    } else {
        calendar_events(cs.drop_last(), now_year) + contact_events(cs.last(), now_year)
    }
}

pub open spec fn events_view(v: Seq<BirthdayEvent>) -> Seq<EventSpec> {
    v.map_values(|e: BirthdayEvent| e@)
}

/// The birthday events of one contact.
pub fn contact_events_of(contact: &Contact, now_year: u16) -> (r: Vec<BirthdayEvent>)
    requires
        now_year >= 1,
    ensures
        events_view(r@) == contact_events(*contact, now_year),
{
    let mut events: Vec<BirthdayEvent> = Vec::new();
    let bday = match &contact.birthday {
        Some(b) => b,
        None => {
            assert(events_view(events@) =~= contact_events(*contact, now_year));
            return events;
        },
    };
    let (month, day) = match (bday.month(), bday.day()) {
        (Some(m), Some(d)) => (m, d),
        _ => {
            assert(events_view(events@) =~= contact_events(*contact, now_year));
            return events;
        },
    };
    match bday.year() {
        Some(y) => {
            let ghost count = event_count(y, now_year);
            let limit: u32 = now_year as u32 + 10;
            let mut age: u32 = 0;
            loop
                invariant
                    age < 150,
                    (age as nat) < count,
                    count == event_count(y, now_year),
                    age > 0 ==> (y as u32 + age <= limit),
                    limit == now_year + 10,
                    has_birthday(*contact),
                    contact.birthday->0@.year == Some(y),
                    contact.birthday->0@.month == Some(month),
                    contact.birthday->0@.day == Some(day),
                    events_view(events@) =~= contact_events(*contact, now_year).take(age as int),
                decreases 150 - age,
            {
                let mut summary = contact.name.display_name();
                push_char(&mut summary, ' ');
                push_char(&mut summary, '(');
                push_decimal(&mut summary, age);
                push_char(&mut summary, ')');
                assert(summary@ =~= age_summary(contact.name, age as nat));
                let event = BirthdayEvent {
                    year: y as u32 + age,
                    month,
                    day,
                    summary,
                    yearly: false,
                };
                let ghost before = events@;
                let ghost ev = event@;
                events.push(event);
                assert(events_view(events@) =~= events_view(before).push(ev));
                assert(contact_events(*contact, now_year)[age as int] == ev);
                assert(contact_events(*contact, now_year).take(age as int + 1) =~= contact_events(
                    *contact,
                    now_year,
                ).take(age as int).push(ev));
                if y as u32 + age + 1 > limit || age + 1 >= 150 {
                    assert(age + 1 == count);
                    assert(contact_events(*contact, now_year).take(age as int + 1) =~= contact_events(*contact, now_year));
                    return events;
                }
                age = age + 1;
            }
        },
        None => {
            let event = BirthdayEvent {
                year: now_year as u32 - 1,
                month,
                day,
                summary: contact.name.display_name(),
                yearly: true,
            };
            events.push(event);
            assert(events_view(events@) =~= contact_events(*contact, now_year));
            events
        },
    }
}

/// The birthday events of all contacts, one contact after the other.
pub fn birthday_events(contacts: &Vec<Contact>, now_year: u16) -> (r: Vec<BirthdayEvent>)
    requires
        now_year >= 1,
    ensures
        events_view(r@) == calendar_events(contacts@, now_year),
{
    let mut events: Vec<BirthdayEvent> = Vec::new();
    let mut i: usize = 0;
    while i < contacts.len()
        invariant
            now_year >= 1,
            i <= contacts@.len(),
            events_view(events@) == calendar_events(contacts@.take(i as int), now_year),
        decreases contacts@.len() - i,
    {
        let mut more = contact_events_of(&contacts[i], now_year);
        let ghost before = events@;
        let ghost added = more@;
        events.append(&mut more);
        assert(events_view(events@) =~= events_view(before) + events_view(added));
        assert(contacts@.take(i as int + 1).drop_last() =~= contacts@.take(i as int));
        i = i + 1;
    }
    assert(contacts@.take(i as int) =~= contacts@);
    events
}

} // verus!
