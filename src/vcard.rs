//! vCard 4.0 content lines for contacts.

use vstd::prelude::*;
use crate::contact::{contact_valid, Address, Contact, Name};
use crate::date::{vcard_repr, DateFields, VcardDateError};
use crate::phone::{phone_error, strip_white_space, strip_whitespace, PhoneNumberType};
use crate::text::{is_control, is_digit, lemma_padded, no_control, padded, push_char, push_str};

verus! {

/// A parameter of a content line, with a single value.
#[derive(Debug)]
pub struct ContentLineParam {
    pub name: String,
    pub value: String,
}

/// One content line: `NAME;PARAM=value...:value`.
#[derive(Debug)]
pub struct ContentLine {
    pub name: String,
    pub params: Vec<ContentLineParam>,
    pub value: String,
}

/// A content line as plain sequences.
pub struct LineSpec {
    pub name: Seq<char>,
    pub params: Seq<(Seq<char>, Seq<char>)>,
    pub value: Seq<char>,
}

impl View for ContentLine {
    type V = LineSpec;

    open spec fn view(&self) -> LineSpec {
        LineSpec {
            name: self.name@,
            params: self.params@.map_values(|p: ContentLineParam| (p.name@, p.value@)),
            value: self.value@,
        }
    }
}

/// The part of a contact that has no vCard form.
#[derive(Clone, Copy, Debug, PartialEq, Eq, Structural)]
pub enum VcardErrorKind {
    /// The name holds a control character.
    NameEncoding,
    /// An e-mail address holds a control character.
    EmailEncoding,
    /// The address holds a control character.
    AddressEncoding,
    /// The birthday has no vCard 4.0 form.
    UnrepresentableDate(VcardDateError),
}

/// A contact that could not be written, named by its first and last name.
#[derive(Debug)]
pub struct VcardError {
    pub first: String,
    pub last: String,
    pub kind: VcardErrorKind,
}

/// Relies on `ical_vcard::Value::new`: a content-line value is accepted exactly when it holds
/// no ASCII control character other than the horizontal tab.
#[verifier::external_body]
fn is_valid_value(value: &str) -> (r: bool)
    ensures
        r == no_control(value@),
{
    ical_vcard::Value::new(value).is_ok()
}

pub open spec fn plain_line(name: Seq<char>, value: Seq<char>) -> LineSpec {
    LineSpec { name, params: Seq::empty(), value }
}

/// `N` value: last name, first name and three empty components.
pub open spec fn name_value(n: Name) -> Seq<char> {
    n.last@ + seq![';'] + n.first@ + seq![';', ';', ';']
}

pub open spec fn type_param(t: PhoneNumberType) -> Seq<char> {
    match t {
        PhoneNumberType::Mobile => "cell"@,
        PhoneNumberType::Home => "home"@,
        PhoneNumberType::Work => "work"@,
    }
}

/// `TEL` line: a `tel:` URI of the number without its white space.
pub open spec fn tel_line(number: Seq<char>, t: PhoneNumberType) -> LineSpec {
    LineSpec {
        name: "TEL"@,
        params: seq![("VALUE"@, "uri"@), ("TYPE"@, type_param(t))],
        value: "tel:"@ + strip_white_space(number),
    }
}

/// `ADR` value: empty post-office box and extended address, then street and house number,
/// locality, empty region, postal code and the country's full name.
pub open spec fn address_value(a: Address) -> Seq<char> {
    seq![';', ';'] + a.street@ + seq![' '] + a.number@ + seq![';'] + a.locality@ + seq![';', ';']
        + a.postal_code@ + seq![';'] + a.country.spec_name()
}

pub open spec fn tel_lines(c: Contact) -> Seq<LineSpec> {
    Seq::new(
        c.phone_numbers@.len(),
        |i: int| tel_line(c.phone_numbers@[i].spec_number(), c.phone_numbers@[i].spec_type()),
    )
}

pub open spec fn email_lines(c: Contact) -> Seq<LineSpec> {
    Seq::new(c.email_addresses@.len(), |i: int| plain_line("EMAIL"@, c.email_addresses@[i]@))
}

pub open spec fn address_lines(c: Contact) -> Seq<LineSpec> {
    match c.address {
        Some(a) => seq![plain_line("ADR"@, address_value(a))],
        None => Seq::empty(),
    }
}

pub open spec fn birthday_lines(c: Contact) -> Seq<LineSpec> {
    match c.birthday {
        Some(d) => seq![plain_line("BDAY"@, vcard_repr(d@)->Ok_0)],
        None => Seq::empty(),
    }
}

/// The content lines of a contact, in their fixed order.
pub open spec fn vcard_lines(c: Contact) -> Seq<LineSpec> {
    seq![plain_line("BEGIN"@, "VCARD"@), plain_line("VERSION"@, "4.0"@), plain_line("N"@, name_value(c.name))]
        + tel_lines(c) + email_lines(c) + address_lines(c) + birthday_lines(c) + seq![
        plain_line("END"@, "VCARD"@),
    ]
}

/// The first part of a contact, in line order, that has no vCard form.
pub open spec fn vcard_error(c: Contact) -> Option<VcardErrorKind> {
    if !no_control(name_value(c.name)) {
        Some(VcardErrorKind::NameEncoding)
    } else if exists|i: int|
        0 <= i < c.email_addresses@.len() && !no_control(#[trigger] c.email_addresses@[i]@) {
        Some(VcardErrorKind::EmailEncoding)
    } else if c.address is Some && !no_control(address_value(c.address->0)) {
        Some(VcardErrorKind::AddressEncoding)
    } else if c.birthday is Some && vcard_repr(c.birthday->0@) is Err {
        Some(VcardErrorKind::UnrepresentableDate(vcard_repr(c.birthday->0@)->Err_0))
    } else {
        None
    }
}

pub open spec fn lines_view(v: Seq<ContentLine>) -> Seq<LineSpec> {
    v.map_values(|l: ContentLine| l@)
}

fn plain(name: &str, value: String) -> (r: ContentLine)
    ensures
        r@ == plain_line(name@, value@),
{
    let r = ContentLine { name: String::from_str(name), params: Vec::new(), value };
    assert(r@.params =~= Seq::<(Seq<char>, Seq<char>)>::empty());
    r
}

fn param(name: &str, value: &str) -> (r: ContentLineParam)
    ensures
        r.name@ == name@,
        r.value@ == value@,
{
    ContentLineParam { name: String::from_str(name), value: String::from_str(value) }
}

fn error_for(name: &Name, kind: VcardErrorKind) -> (r: VcardError)
    ensures
        r.first@ == name.first@,
        r.last@ == name.last@,
        r.kind == kind,
{
    VcardError { first: name.first.clone(), last: name.last.clone(), kind }
}

/// The content lines of one contact: `BEGIN`, `VERSION`, `N`, one `TEL` per number, one `EMAIL`
/// per address, `ADR` if an address is known, `BDAY` if a birthday is known, and `END`.
pub fn contact_to_contentlines(contact: &Contact) -> (r: Result<Vec<ContentLine>, VcardError>)
    ensures
        r is Ok <==> vcard_error(*contact) is None,
        r is Ok ==> lines_view(r->Ok_0@) == vcard_lines(*contact),
        r is Err ==> Some(r->Err_0.kind) == vcard_error(*contact) && r->Err_0.first@
            == contact.name.first@ && r->Err_0.last@ == contact.name.last@,
{
    let ghost c = *contact;
    let mut lines: Vec<ContentLine> = Vec::new();
    lines.push(plain("BEGIN", String::from_str("VCARD")));
    lines.push(plain("VERSION", String::from_str("4.0")));
    let mut n = String::new();
    push_str(&mut n, contact.name.last.as_str());
    push_char(&mut n, ';');
    push_str(&mut n, contact.name.first.as_str());
    push_char(&mut n, ';');
    push_char(&mut n, ';');
    push_char(&mut n, ';');
    assert(n@ =~= name_value(contact.name));
    if !is_valid_value(n.as_str()) {
        return Err(error_for(&contact.name, VcardErrorKind::NameEncoding));
    }
    lines.push(plain("N", n));
    let ghost head = seq![plain_line("BEGIN"@, "VCARD"@), plain_line("VERSION"@, "4.0"@), plain_line("N"@, name_value(c.name))];
    assert(lines_view(lines@) =~= head);

    let mut i: usize = 0;
    while i < contact.phone_numbers.len()
        invariant
            c == *contact,
            i <= contact.phone_numbers@.len(),
            lines_view(lines@) =~= head + tel_lines(c).take(i as int),
        decreases contact.phone_numbers@.len() - i,
    {
        let phone = &contact.phone_numbers[i];
        let ty = match phone.ty() {
            PhoneNumberType::Mobile => "cell",
            PhoneNumberType::Home => "home",
            PhoneNumberType::Work => "work",
        };
        let mut value = String::from_str("tel:");
        let stripped = strip_whitespace(phone.number().as_str());
        push_str(&mut value, stripped.as_str());
        let mut params: Vec<ContentLineParam> = Vec::new();
        params.push(param("VALUE", "uri"));
        params.push(param("TYPE", ty));
        let line = ContentLine { name: String::from_str("TEL"), params, value };
        assert(line@.params =~= seq![("VALUE"@, "uri"@), ("TYPE"@, type_param(phone.spec_type()))]);
        assert(line@ == tel_line(phone.spec_number(), phone.spec_type()));
        let ghost before = lines@;
        let ghost lv = line@;
        lines.push(line);
        assert(lines_view(lines@) =~= lines_view(before).push(lv));
        i = i + 1;
        assert(tel_lines(c).take(i as int) =~= tel_lines(c).take(i - 1).push(tel_lines(c)[i - 1]));
    }
    assert(tel_lines(c).take(i as int) =~= tel_lines(c));
    let ghost head2 = head + tel_lines(c);

    let mut j: usize = 0;
    while j < contact.email_addresses.len()
        invariant
            c == *contact,
            j <= contact.email_addresses@.len(),
            no_control(name_value(c.name)),
            forall|k: int| 0 <= k < j ==> no_control(#[trigger] c.email_addresses@[k]@),
            lines_view(lines@) =~= head2 + email_lines(c).take(j as int),
        decreases contact.email_addresses@.len() - j,
    {
        let email = &contact.email_addresses[j];
        if !is_valid_value(email.as_str()) {
            return Err(error_for(&contact.name, VcardErrorKind::EmailEncoding));
        }
        let line = plain("EMAIL", email.clone());
        let ghost before = lines@;
        let ghost lv = line@;
        lines.push(line);
        assert(lines_view(lines@) =~= lines_view(before).push(lv));
        j = j + 1;
        assert(email_lines(c).take(j as int) =~= email_lines(c).take(j - 1).push(email_lines(c)[j - 1]));
    }
    assert(email_lines(c).take(j as int) =~= email_lines(c));
    let ghost head3 = head2 + email_lines(c);

    if let Some(address) = &contact.address {
        let mut value = String::new();
        push_char(&mut value, ';');
        push_char(&mut value, ';');
        push_str(&mut value, address.street.as_str());
        push_char(&mut value, ' ');
        push_str(&mut value, address.number.as_str());
        push_char(&mut value, ';');
        push_str(&mut value, address.locality.as_str());
        push_char(&mut value, ';');
        push_char(&mut value, ';');
        push_str(&mut value, address.postal_code.as_str());
        push_char(&mut value, ';');
        push_str(&mut value, address.country.name().as_str());
        assert(value@ =~= address_value(*address));
        if !is_valid_value(value.as_str()) {
            return Err(error_for(&contact.name, VcardErrorKind::AddressEncoding));
        }
        lines.push(plain("ADR", value));
    }
    assert(lines_view(lines@) =~= head3 + address_lines(c));
    let ghost head4 = head3 + address_lines(c);

    if let Some(birthday) = &contact.birthday {
        match birthday.to_vcard_repr() {
            Ok(value) => {
                lines.push(plain("BDAY", value));
            },
            Err(e) => {
                return Err(error_for(&contact.name, VcardErrorKind::UnrepresentableDate(e)));
            },
        }
    }
    assert(lines_view(lines@) =~= head4 + birthday_lines(c));
    lines.push(plain("END", String::from_str("VCARD")));
    assert(lines_view(lines@) =~= vcard_lines(c));
    Ok(lines)
}

/// The content lines of all contacts, one contact after the other.
pub open spec fn all_vcard_lines(cs: Seq<Contact>) -> Seq<LineSpec>
    decreases cs.len(),
{
    if cs.len() == 0 {
        Seq::empty()
    } else {
        all_vcard_lines(cs.drop_last()) + vcard_lines(cs.last())
    }
}

/// The content lines of all contacts; the first contact that has no vCard form fails the whole
/// output.
pub fn contacts_to_vcard(contacts: &Vec<Contact>) -> (r: Result<Vec<ContentLine>, VcardError>)
    ensures
        r is Ok <==> forall|i: int| 0 <= i < contacts@.len() ==> vcard_error(#[trigger] contacts@[i]) is None,
        r is Ok ==> lines_view(r->Ok_0@) == all_vcard_lines(contacts@),
        r is Err ==> exists|k: int|
            0 <= k < contacts@.len() && (forall|m: int| 0 <= m < k ==> vcard_error(#[trigger] contacts@[m]) is None)
                && Some(r->Err_0.kind) == vcard_error(#[trigger] contacts@[k])
                && r->Err_0.first@ == contacts@[k].name.first@ && r->Err_0.last@ == contacts@[k].name.last@,
{
    let mut lines: Vec<ContentLine> = Vec::new();
    let mut i: usize = 0;
    while i < contacts.len()
        invariant
            i <= contacts@.len(),
            forall|m: int| 0 <= m < i ==> vcard_error(#[trigger] contacts@[m]) is None,
            lines_view(lines@) == all_vcard_lines(contacts@.take(i as int)),
        decreases contacts@.len() - i,
    {
        match contact_to_contentlines(&contacts[i]) {
            Ok(mut more) => {
                let ghost before = lines@;
                let ghost added = more@;
                lines.append(&mut more);
                assert(lines_view(lines@) =~= lines_view(before) + lines_view(added));
                assert(contacts@.take(i as int + 1).drop_last() =~= contacts@.take(i as int));
            },
            Err(e) => {
                return Err(e);
            },
        }
        i = i + 1;
    }
    assert(contacts@.take(i as int) =~= contacts@);
    Ok(lines)
}

/// Every contact's lines open with `BEGIN:VCARD` and close with `END:VCARD`, and hold a `TEL`,
/// `EMAIL` or `ADR` line exactly when the contact has a telephone number, an e-mail address or
/// an address.
pub proof fn lemma_vcard_frame(c: Contact)
    ensures
        vcard_lines(c)[0] == plain_line("BEGIN"@, "VCARD"@),
        vcard_lines(c).last() == plain_line("END"@, "VCARD"@),
        (exists|i: int| 0 <= i < vcard_lines(c).len() && (#[trigger] vcard_lines(c)[i]).name == "TEL"@)
            <==> c.phone_numbers@.len() > 0,
        (exists|i: int| 0 <= i < vcard_lines(c).len() && (#[trigger] vcard_lines(c)[i]).name == "EMAIL"@)
            <==> c.email_addresses@.len() > 0,
        (exists|i: int| 0 <= i < vcard_lines(c).len() && (#[trigger] vcard_lines(c)[i]).name == "ADR"@)
            <==> c.address is Some,
{
    reveal_strlit("BEGIN");
    reveal_strlit("VERSION");
    reveal_strlit("N");
    reveal_strlit("TEL");
    reveal_strlit("EMAIL");
    reveal_strlit("ADR");
    reveal_strlit("BDAY");
    reveal_strlit("END");
    assert("BEGIN"@.len() == 5 && "BEGIN"@[0] == 'B');
    assert("VERSION"@.len() == 7);
    assert("N"@.len() == 1);
    assert("TEL"@.len() == 3 && "TEL"@[0] == 'T');
    assert("EMAIL"@.len() == 5 && "EMAIL"@[0] == 'E');
    assert("ADR"@.len() == 3 && "ADR"@[0] == 'A');
    assert("BDAY"@.len() == 4);
    assert("END"@.len() == 3 && "END"@[0] == 'E');
    let l = vcard_lines(c);
    let head = seq![plain_line("BEGIN"@, "VCARD"@), plain_line("VERSION"@, "4.0"@), plain_line("N"@, name_value(c.name))];
    let t = tel_lines(c);
    let e = email_lines(c);
    let a = address_lines(c);
    let b = birthday_lines(c);
    let nt = t.len() as int;
    let ne = e.len() as int;
    let na = a.len() as int;
    let nb = b.len() as int;
    assert(l =~= head + t + e + a + b + seq![plain_line("END"@, "VCARD"@)]);
    assert forall|i: int| 0 <= i < l.len() implies {
        &&& (#[trigger] l[i]).name == "TEL"@ <==> 3 <= i < 3 + nt
        &&& l[i].name == "EMAIL"@ <==> 3 + nt <= i < 3 + nt + ne
        &&& l[i].name == "ADR"@ <==> 3 + nt + ne <= i < 3 + nt + ne + na
    } by {
        if i < 3 {
            assert(l[i] == head[i]);
        } else if i < 3 + nt {
            assert(l[i] == t[i - 3]);
        } else if i < 3 + nt + ne {
            assert(l[i] == e[i - 3 - nt]);
        } else if i < 3 + nt + ne + na {
            assert(l[i] == a[i - 3 - nt - ne]);
        } else if i < 3 + nt + ne + na + nb {
            assert(l[i] == b[i - 3 - nt - ne - na]);
        } else {
            assert(l[i] == plain_line("END"@, "VCARD"@));
        }
    }
    if nt > 0 {
        assert(l[3].name == "TEL"@);
    }
    if ne > 0 {
        assert(l[3 + nt].name == "EMAIL"@);
    }
    if na > 0 {
        assert(l[3 + nt + ne].name == "ADR"@);
    }
}

proof fn lemma_digits_no_control(s: Seq<char>)
    requires
        forall|i: int| 0 <= i < s.len() ==> is_digit(#[trigger] s[i]) || s[i] == '-' || s[i] == '+',
    ensures
        no_control(s),
{
}

proof fn lemma_birthday_no_control(f: DateFields)
    requires
        vcard_repr(f) is Ok,
    ensures
        no_control(vcard_repr(f)->Ok_0),
{
    let v = vcard_repr(f)->Ok_0;
    if let Some(y) = f.year {
        lemma_padded(y as nat, 4);
    }
    if let Some(m) = f.month {
        lemma_padded(m as nat, 2);
    }
    if let Some(d) = f.day {
        lemma_padded(d as nat, 2);
    }
    assert forall|i: int| 0 <= i < v.len() implies is_digit(#[trigger] v[i]) || v[i] == '-' || v[i]
        == '+' by {
        match (f.year, f.month, f.day) {
            (None, None, Some(d)) => {
                if i >= 3 {
                    assert(v[i] == padded(d as nat, 2)[i - 3]);
                }
            },
            (None, Some(m), None) => {
                if i >= 2 {
                    assert(v[i] == padded(m as nat, 2)[i - 2]);
                }
            },
            (None, Some(m), Some(d)) => {
                let a = seq!['-', '-'] + padded(m as nat, 2);
                if i >= a.len() {
                    assert(v[i] == padded(d as nat, 2)[i - a.len()]);
                } else if i >= 2 {
                    assert(v[i] == a[i]);
                    assert(a[i] == padded(m as nat, 2)[i - 2]);
                }
            },
            (Some(y), None, None) => {},
            (Some(y), Some(m), None) => {
                let a = padded(y as nat, 4) + seq!['-'];
                if i >= a.len() {
                    assert(v[i] == padded(m as nat, 2)[i - a.len()]);
                } else {
                    assert(v[i] == a[i]);
                }
            },
            (Some(y), Some(m), Some(d)) => {
                let a = padded(y as nat, 4) + padded(m as nat, 2);
                if i >= a.len() {
                    assert(v[i] == padded(d as nat, 2)[i - a.len()]);
                } else {
                    assert(v[i] == a[i]);
                    if i >= padded(y as nat, 4).len() {
                        assert(a[i] == padded(m as nat, 2)[i - padded(y as nat, 4).len()]);
                    }
                }
            },
            _ => {},
        }
    }
    lemma_digits_no_control(v);
}

proof fn lemma_tel_no_control(number: Seq<char>)
    requires
        phone_error(number) is None,
    ensures
        no_control("tel:"@ + strip_white_space(number)),
{
    reveal_strlit("tel:");
    let t = strip_white_space(number);
    let v = "tel:"@ + t;
    assert forall|i: int| 0 <= i < v.len() implies !is_control(#[trigger] v[i]) by {
        if i >= 4 {
            assert(v[i] == t[i - 4]);
            if i > 4 {
                assert(is_digit(t[i - 4]));
            }
        }
    }
}

/// A writable contact of valid parts yields only values that hold no control character, so
/// that each of its lines is a valid content line.
pub proof fn lemma_lines_encodable(c: Contact)
    requires
        contact_valid(c),
        vcard_error(c) is None,
    ensures
        forall|i: int| 0 <= i < vcard_lines(c).len() ==> no_control(#[trigger] vcard_lines(c)[i].value),
{
    reveal_strlit("VCARD");
    reveal_strlit("4.0");
    let l = vcard_lines(c);
    let head = seq![plain_line("BEGIN"@, "VCARD"@), plain_line("VERSION"@, "4.0"@), plain_line("N"@, name_value(c.name))];
    let t = tel_lines(c);
    let e = email_lines(c);
    let a = address_lines(c);
    let b = birthday_lines(c);
    let nt = t.len() as int;
    let ne = e.len() as int;
    let na = a.len() as int;
    let nb = b.len() as int;
    assert(l =~= head + t + e + a + b + seq![plain_line("END"@, "VCARD"@)]);
    assert(no_control("VCARD"@));
    assert(no_control("4.0"@));
    assert forall|i: int| 0 <= i < l.len() implies no_control(#[trigger] l[i].value) by {
        if i < 3 {
            assert(l[i] == head[i]);
        } else if i < 3 + nt {
            let k = i - 3;
            assert(l[i] == t[k]);
            lemma_tel_no_control(c.phone_numbers@[k].spec_number());
        } else if i < 3 + nt + ne {
            let k = i - 3 - nt;
            assert(l[i] == e[k]);
            assert(no_control(c.email_addresses@[k]@));
        } else if i < 3 + nt + ne + na {
            assert(l[i] == a[i - 3 - nt - ne]);
        } else if i < 3 + nt + ne + na + nb {
            assert(l[i] == b[i - 3 - nt - ne - na]);
            lemma_birthday_no_control(c.birthday->0@);
        } else {
            assert(l[i] == plain_line("END"@, "VCARD"@));
        }
    }
}

} // verus!
