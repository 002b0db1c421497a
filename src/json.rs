//! The JSON document structure of a contact, and its conversion to and from contacts.
//!
//! A contact is stored as an object with `name`, `bday`, `phone`, `email` and `address`
//! fields; the types here hold that structure as plain values.

use vstd::prelude::*;
use crate::contact::{
    contact_valid, country_name_of, same_contact, Address, Contact, Country, Name,
};
use crate::date::{from_json, json_repr, lemma_json_round_trip, DateError, PartialDate};
use crate::phone::{phone_error, PhoneNumber, PhoneNumberError, PhoneNumberType};

verus! {

#[derive(Debug)]
pub struct JsonName {
    pub first: String,
    pub last: String,
}

#[derive(Clone, Copy, Debug, PartialEq, Eq, Structural)]
pub enum JsonPhoneNumberType {
    Mobile,
    Work,
    Home,
}

#[derive(Debug)]
pub struct JsonPhoneNumber {
    pub number: String,
    pub ty: JsonPhoneNumberType,
}

#[derive(Debug)]
pub struct JsonAddress {
    pub street: String,
    pub number: String,
    pub locality: String,
    pub postal_code: String,
    /// ISO 3166-1 alpha-2 code.
    pub country: String,
}

#[derive(Debug)]
pub struct JsonContact {
    pub name: JsonName,
    /// The birthday in the JSON form of a partial date.
    pub bday: Option<String>,
    pub phone: Vec<JsonPhoneNumber>,
    pub email: Vec<String>,
    pub address: Option<JsonAddress>,
}

/// The part of a stored contact that is not acceptable.
#[derive(Clone, Copy, Debug, PartialEq, Eq, Structural)]
pub enum ContactErrorKind {
    InvalidBirthday(DateError),
    InvalidPhoneNumber(PhoneNumberError),
    UnknownCountryCode,
}

/// A stored contact that could not be read, named by its first and last name.
#[derive(Debug)]
pub struct ContactError {
    pub first: String,
    pub last: String,
    pub kind: ContactErrorKind,
}

pub open spec fn json_type(t: PhoneNumberType) -> JsonPhoneNumberType {
    match t {
        PhoneNumberType::Mobile => JsonPhoneNumberType::Mobile,
        PhoneNumberType::Work => JsonPhoneNumberType::Work,
        PhoneNumberType::Home => JsonPhoneNumberType::Home,
    }
}

pub open spec fn phone_type(t: JsonPhoneNumberType) -> PhoneNumberType {
    match t {
        JsonPhoneNumberType::Mobile => PhoneNumberType::Mobile,
        JsonPhoneNumberType::Work => PhoneNumberType::Work,
        JsonPhoneNumberType::Home => PhoneNumberType::Home,
    }
}

/// `j` is the JSON structure of `c`.
pub open spec fn encodes(c: Contact, j: JsonContact) -> bool {
    &&& j.name.first@ == c.name.first@
    &&& j.name.last@ == c.name.last@
    &&& (c.birthday is None <==> j.bday is None)
    &&& (c.birthday is Some ==> j.bday->0@ == json_repr(c.birthday->0@))
    &&& j.phone@.len() == c.phone_numbers@.len()
    &&& forall|i: int|
        0 <= i < j.phone@.len() ==> (#[trigger] j.phone@[i]).number@
            == c.phone_numbers@[i].spec_number() && j.phone@[i].ty == json_type(
            c.phone_numbers@[i].spec_type(),
        )
    &&& j.email@.len() == c.email_addresses@.len()
    &&& forall|i: int| 0 <= i < j.email@.len() ==> (#[trigger] j.email@[i])@ == c.email_addresses@[i]@
    &&& (c.address is None <==> j.address is None)
    &&& (c.address is Some ==> {
        let a = c.address->0;
        let ja = j.address->0;
        &&& ja.street@ == a.street@
        &&& ja.number@ == a.number@
        &&& ja.locality@ == a.locality@
        &&& ja.postal_code@ == a.postal_code@
        &&& ja.country@ == a.country.spec_alpha2()
    })
}

/// The first rejected telephone number of `ps`, by its error.
pub open spec fn first_phone_error(ps: Seq<JsonPhoneNumber>) -> Option<PhoneNumberError>
    decreases ps.len(),
{
    if ps.len() == 0 {
        None
    } else {
        match first_phone_error(ps.drop_last()) {
            Some(e) => Some(e),
            None => phone_error(ps.last().number@),
        }
    }
}

/// What is wrong with a stored contact, checked in order: the birthday, the telephone numbers,
/// the country code.
pub open spec fn decode_error(j: JsonContact) -> Option<ContactErrorKind> {
    if j.bday is Some && from_json(j.bday->0@) is Err {
        Some(ContactErrorKind::InvalidBirthday(from_json(j.bday->0@)->Err_0))
    } else if first_phone_error(j.phone@) is Some {
        Some(ContactErrorKind::InvalidPhoneNumber(first_phone_error(j.phone@)->0))
    } else if j.address is Some && country_name_of(j.address->0.country@) is None {
        Some(ContactErrorKind::UnknownCountryCode)
    } else {
        None
    }
}

/// `c` is the contact that the JSON structure `j` describes.
pub open spec fn decodes(j: JsonContact, c: Contact) -> bool {
    &&& c.name.first@ == j.name.first@
    &&& c.name.last@ == j.name.last@
    &&& (c.birthday is None <==> j.bday is None)
    &&& (c.birthday is Some ==> from_json(j.bday->0@) == Ok::<_, DateError>(c.birthday->0@))
    &&& j.phone@.len() == c.phone_numbers@.len()
    &&& forall|i: int|
        0 <= i < j.phone@.len() ==> (#[trigger] c.phone_numbers@[i]).spec_number()
            == j.phone@[i].number@ && c.phone_numbers@[i].spec_type() == phone_type(j.phone@[i].ty)
    &&& j.email@.len() == c.email_addresses@.len()
    &&& forall|i: int| 0 <= i < j.email@.len() ==> (#[trigger] c.email_addresses@[i])@ == j.email@[i]@
    &&& (c.address is None <==> j.address is None)
    &&& (c.address is Some ==> {
        let a = c.address->0;
        let ja = j.address->0;
        &&& a.street@ == ja.street@
        &&& a.number@ == ja.number@
        &&& a.locality@ == ja.locality@
        &&& a.postal_code@ == ja.postal_code@
        &&& a.country.spec_alpha2() == ja.country@
        &&& country_name_of(ja.country@) == Some(a.country.spec_name())
    })
}

fn clone_strings(v: &Vec<String>) -> (r: Vec<String>)
    ensures
        r@.len() == v@.len(),
        forall|i: int| 0 <= i < v@.len() ==> (#[trigger] r@[i])@ == v@[i]@,
{
    let mut r: Vec<String> = Vec::new();
    let mut i: usize = 0;
    while i < v.len()
        invariant
            i <= v@.len(),
            r@.len() == i,
            forall|k: int| 0 <= k < i ==> (#[trigger] r@[k])@ == v@[k]@,
        decreases v@.len() - i,
    {
        r.push(v[i].clone());
        i = i + 1;
    }
    r
}

impl JsonName {
    pub fn from_name(name: &Name) -> (r: JsonName)
        ensures
            r.first@ == name.first@,
            r.last@ == name.last@,
    {
        JsonName { first: name.first.clone(), last: name.last.clone() }
    }
}

impl JsonPhoneNumberType {
    pub fn from_type(t: PhoneNumberType) -> (r: JsonPhoneNumberType)
        ensures
            r == json_type(t),
    {
        match t {
            PhoneNumberType::Mobile => JsonPhoneNumberType::Mobile,
            PhoneNumberType::Work => JsonPhoneNumberType::Work,
            PhoneNumberType::Home => JsonPhoneNumberType::Home,
        }
    }

    pub fn to_type(self) -> (r: PhoneNumberType)
        ensures
            r == phone_type(self),
    {
        match self {
            JsonPhoneNumberType::Mobile => PhoneNumberType::Mobile,
            JsonPhoneNumberType::Work => PhoneNumberType::Work,
            JsonPhoneNumberType::Home => PhoneNumberType::Home,
        }
    }
}

impl JsonPhoneNumber {
    pub fn from_phone_number(p: &PhoneNumber) -> (r: JsonPhoneNumber)
        ensures
            r.number@ == p.spec_number(),
            r.ty == json_type(p.spec_type()),
    {
        JsonPhoneNumber { number: p.number().clone(), ty: JsonPhoneNumberType::from_type(p.ty()) }
    }
}

impl JsonAddress {
    pub fn from_address(a: &Address) -> (r: JsonAddress)
        ensures
            r.street@ == a.street@,
            r.number@ == a.number@,
            r.locality@ == a.locality@,
            r.postal_code@ == a.postal_code@,
            r.country@ == a.country.spec_alpha2(),
    {
        JsonAddress {
            street: a.street.clone(),
            number: a.number.clone(),
            locality: a.locality.clone(),
            postal_code: a.postal_code.clone(),
            country: a.country.alpha2().clone(),
        }
    }
}

impl JsonContact {
    /// The JSON structure of a contact.
    pub fn from_contact(contact: &Contact) -> (r: JsonContact)
        ensures
            encodes(*contact, r),
    {
        let bday = match &contact.birthday {
            Some(d) => Some(d.to_json_repr()),
            None => None,
        };
        let mut phone: Vec<JsonPhoneNumber> = Vec::new();
        let mut i: usize = 0;
        while i < contact.phone_numbers.len()
            invariant
                i <= contact.phone_numbers@.len(),
                phone@.len() == i,
                forall|k: int|
                    0 <= k < i ==> (#[trigger] phone@[k]).number@
                        == contact.phone_numbers@[k].spec_number() && phone@[k].ty == json_type(
                        contact.phone_numbers@[k].spec_type(),
                    ),
            decreases contact.phone_numbers@.len() - i,
        {
            phone.push(JsonPhoneNumber::from_phone_number(&contact.phone_numbers[i]));
            i = i + 1;
        }
        let address = match &contact.address {
            Some(a) => Some(JsonAddress::from_address(a)),
            None => None,
        };
        JsonContact {
            name: JsonName::from_name(&contact.name),
            bday,
            phone,
            email: clone_strings(&contact.email_addresses),
            address,
        }
    }
}

impl Name {
    pub fn from_json_name(j: &JsonName) -> (r: Name)
        ensures
            r.first@ == j.first@,
            r.last@ == j.last@,
    {
        Name { first: j.first.clone(), last: j.last.clone() }
    }
}

impl PhoneNumber {
    /// A stored telephone number, validated.
    pub fn from_json_phone_number(j: &JsonPhoneNumber) -> (r: Result<PhoneNumber, PhoneNumberError>)
        ensures
            r is Ok <==> phone_error(j.number@) is None,
            r is Ok ==> r->Ok_0.spec_number() == j.number@ && r->Ok_0.spec_type() == phone_type(j.ty),
            r is Err ==> Some(r->Err_0) == phone_error(j.number@),
    {
        PhoneNumber::new(j.number.clone(), j.ty.to_type())
    }
}

impl Address {
    /// A stored address; its country code must be known.
    pub fn from_json_address(j: &JsonAddress) -> (r: Option<Address>)
        ensures
            r is Some <==> country_name_of(j.country@) is Some,
            r is Some ==> {
                let a = r->0;
                &&& a.street@ == j.street@
                &&& a.number@ == j.number@
                &&& a.locality@ == j.locality@
                &&& a.postal_code@ == j.postal_code@
                &&& a.country.spec_alpha2() == j.country@
                &&& country_name_of(j.country@) == Some(a.country.spec_name())
            },
    {
        match Country::from_alpha2(j.country.as_str()) {
            Some(country) => Some(
                Address {
                    street: j.street.clone(),
                    number: j.number.clone(),
                    locality: j.locality.clone(),
                    postal_code: j.postal_code.clone(),
                    country,
                },
            ),
            None => None,
        }
    }
}

fn contact_error(name: &JsonName, kind: ContactErrorKind) -> (r: ContactError)
    ensures
        r.first@ == name.first@,
        r.last@ == name.last@,
        r.kind == kind,
{
    ContactError { first: name.first.clone(), last: name.last.clone(), kind }
}

impl Contact {
    /// The contact that a stored JSON structure describes; the birthday must decode, every
    /// telephone number must be valid and the country code must be known.
    pub fn from_json_contact(j: &JsonContact) -> (r: Result<Contact, ContactError>)
        ensures
            r is Ok <==> decode_error(*j) is None,
            r is Ok ==> decodes(*j, r->Ok_0),
            r is Err ==> Some(r->Err_0.kind) == decode_error(*j) && r->Err_0.first@
                == j.name.first@ && r->Err_0.last@ == j.name.last@,
    {
        let birthday = match &j.bday {
            Some(text) => match PartialDate::from_json_repr(text.as_str()) {
                Ok(d) => Some(d),
                Err(e) => {
                    return Err(contact_error(&j.name, ContactErrorKind::InvalidBirthday(e)));
                },
            },
            None => None,
        };
        let mut phone_numbers: Vec<PhoneNumber> = Vec::new();
        let mut i: usize = 0;
        while i < j.phone.len()
            invariant
                i <= j.phone@.len(),
                phone_numbers@.len() == i,
                birthday is Some <==> j.bday is Some,
                birthday is Some ==> from_json(j.bday->0@) == Ok::<_, DateError>(birthday->0@),
                first_phone_error(j.phone@.take(i as int)) is None,
                forall|k: int|
                    0 <= k < i ==> (#[trigger] phone_numbers@[k]).spec_number() == j.phone@[k].number@
                        && phone_numbers@[k].spec_type() == phone_type(j.phone@[k].ty),
            decreases j.phone@.len() - i,
        {
            proof {
                assert(j.phone@.take(i as int + 1).drop_last() =~= j.phone@.take(i as int));
            }
            match PhoneNumber::from_json_phone_number(&j.phone[i]) {
                Ok(p) => {
                    phone_numbers.push(p);
                },
                Err(e) => {
                    proof {
                        assert(j.phone@.take(i as int + 1).last() == j.phone@[i as int]);
                        assert(first_phone_error(j.phone@.take(i as int + 1)) == Some(e));
                        lemma_first_phone_error_prefix(j.phone@, i as int + 1);
                    }
                    return Err(contact_error(&j.name, ContactErrorKind::InvalidPhoneNumber(e)));
                },
            }
            i = i + 1;
        }
        assert(j.phone@.take(i as int) =~= j.phone@);
        let address = match &j.address {
            Some(a) => match Address::from_json_address(a) {
                Some(a) => Some(a),
                None => {
                    return Err(contact_error(&j.name, ContactErrorKind::UnknownCountryCode));
                },
            },
            None => None,
        };
        Ok(
            Contact {
                name: Name::from_json_name(&j.name),
                birthday,
                phone_numbers,
                email_addresses: clone_strings(&j.email),
                address,
            },
        )
    }
}

/// An error in a prefix is the first error of the whole sequence.
proof fn lemma_first_phone_error_prefix(ps: Seq<JsonPhoneNumber>, k: int)
    requires
        0 <= k <= ps.len(),
        first_phone_error(ps.take(k)) is Some,
    ensures
        first_phone_error(ps) == first_phone_error(ps.take(k)),
    decreases ps.len(),
{
    if k < ps.len() {
        assert(ps.drop_last().take(k) =~= ps.take(k));
        lemma_first_phone_error_prefix(ps.drop_last(), k);
    } else {
        assert(ps.take(k) =~= ps);
    }
}

/// The JSON structures of all contacts, in order.
pub fn contacts_to_json(contacts: &Vec<Contact>) -> (r: Vec<JsonContact>)
    ensures
        r@.len() == contacts@.len(),
        forall|i: int| 0 <= i < contacts@.len() ==> encodes(contacts@[i], #[trigger] r@[i]),
{
    let mut r: Vec<JsonContact> = Vec::new();
    let mut i: usize = 0;
    while i < contacts.len()
        invariant
            i <= contacts@.len(),
            r@.len() == i,
            forall|k: int| 0 <= k < i ==> encodes(contacts@[k], #[trigger] r@[k]),
        decreases contacts@.len() - i,
    {
        r.push(JsonContact::from_contact(&contacts[i]));
        i = i + 1;
    }
    r
}

/// The contacts that the stored JSON structures describe, in order; the first contact that is
/// not acceptable fails the whole store.
pub fn contacts_from_json(json: &Vec<JsonContact>) -> (r: Result<Vec<Contact>, ContactError>)
    ensures
        r is Ok <==> forall|i: int| 0 <= i < json@.len() ==> decode_error(#[trigger] json@[i]) is None,
        r is Ok ==> r->Ok_0@.len() == json@.len() && forall|i: int|
            0 <= i < json@.len() ==> decodes(json@[i], #[trigger] r->Ok_0@[i]),
        r is Err ==> exists|k: int|
            0 <= k < json@.len() && (forall|m: int| 0 <= m < k ==> decode_error(#[trigger] json@[m]) is None)
                && Some(r->Err_0.kind) == decode_error(#[trigger] json@[k])
                && r->Err_0.first@ == json@[k].name.first@ && r->Err_0.last@ == json@[k].name.last@,
{
    let mut r: Vec<Contact> = Vec::new();
    let mut i: usize = 0;
    while i < json.len()
        invariant
            i <= json@.len(),
            r@.len() == i,
            forall|m: int| 0 <= m < i ==> decode_error(#[trigger] json@[m]) is None,
            forall|k: int| 0 <= k < i ==> decodes(json@[k], #[trigger] r@[k]),
        decreases json@.len() - i,
    {
        match Contact::from_json_contact(&json[i]) {
            Ok(c) => {
                r.push(c);
            },
            Err(e) => {
                return Err(e);
            },
        }
        i = i + 1;
    }
    Ok(r)
}

proof fn lemma_no_phone_error(ps: Seq<JsonPhoneNumber>)
    requires
        forall|i: int| 0 <= i < ps.len() ==> phone_error((#[trigger] ps[i]).number@) is None,
    ensures
        first_phone_error(ps) is None,
    decreases ps.len(),
{
    if ps.len() > 0 {
        lemma_no_phone_error(ps.drop_last());
        assert(ps.last() == ps[ps.len() - 1]);
    }
}

/// Decoding the JSON structure of a valid contact succeeds, and gives back a contact equal to it
/// field for field.
pub proof fn lemma_contact_round_trip(c: Contact, j: JsonContact, d: Contact)
    requires
        contact_valid(c),
        encodes(c, j),
    ensures
        decode_error(j) is None,
        decodes(j, d) ==> same_contact(c, d),
{
    if c.birthday is Some {
        lemma_json_round_trip(c.birthday->0@);
    }
    assert forall|i: int| 0 <= i < j.phone@.len() implies phone_error((#[trigger] j.phone@[i]).number@) is None by {
        assert(phone_error(c.phone_numbers@[i].spec_number()) is None);
    }
    lemma_no_phone_error(j.phone@);
    if decodes(j, d) {
        assert forall|i: int| 0 <= i < c.phone_numbers@.len() implies (#[trigger] c.phone_numbers@[i]).spec_number()
            == d.phone_numbers@[i].spec_number() && c.phone_numbers@[i].spec_type()
            == d.phone_numbers@[i].spec_type() by {
            assert(j.phone@[i].number@ == c.phone_numbers@[i].spec_number());
            assert(d.phone_numbers@[i].spec_number() == j.phone@[i].number@);
        }
        assert forall|i: int| 0 <= i < c.email_addresses@.len() implies (#[trigger] c.email_addresses@[i])@
            == d.email_addresses@[i]@ by {
            assert(j.email@[i]@ == c.email_addresses@[i]@);
            assert(d.email_addresses@[i]@ == j.email@[i]@);
        }
    }
}

/// Decoding the JSON structures of valid contacts succeeds for each of them, and gives back the
/// same contacts, field for field and in the same order.
pub proof fn lemma_contacts_round_trip(cs: Seq<Contact>, js: Seq<JsonContact>, ds: Seq<Contact>)
    requires
        forall|i: int| 0 <= i < cs.len() ==> contact_valid(#[trigger] cs[i]),
        js.len() == cs.len(),
        forall|i: int| 0 <= i < cs.len() ==> encodes(cs[i], #[trigger] js[i]),
    ensures
        forall|i: int| 0 <= i < js.len() ==> decode_error(#[trigger] js[i]) is None,
        ds.len() == js.len() && (forall|i: int| 0 <= i < js.len() ==> decodes(js[i], #[trigger] ds[i]))
            ==> forall|i: int| 0 <= i < cs.len() ==> same_contact(cs[i], #[trigger] ds[i]),
{
    assert forall|i: int| 0 <= i < js.len() implies decode_error(#[trigger] js[i]) is None by {
        lemma_contact_round_trip(cs[i], js[i], cs[i]);
    }
    if ds.len() == js.len() && (forall|i: int| 0 <= i < js.len() ==> decodes(js[i], #[trigger] ds[i])) {
        assert forall|i: int| 0 <= i < cs.len() implies same_contact(cs[i], #[trigger] ds[i]) by {
            lemma_contact_round_trip(cs[i], js[i], ds[i]);
        }
    }
}

} // verus!
