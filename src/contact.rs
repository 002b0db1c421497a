//! Contacts: names, addresses with their country, telephone numbers, e-mail addresses and an
//! optional partial birth date.

use vstd::prelude::*;
use crate::date::{valid_date, PartialDate};
use crate::phone::{phone_error, PhoneNumber};
use crate::text::{push_char, push_str};

verus! {

/// The English short name of the ISO 3166-1 country whose alpha-2 code is the argument, or
/// `None` for a string that is no such code.
pub uninterp spec fn country_name_of(alpha2: Seq<char>) -> Option<Seq<char>>;

/// Relies on `rust_iso3166::from_alpha2`: the entry of ISO 3166-1 whose alpha-2 code is
/// `alpha2`, as its code and English short name; `None` for an unknown code.
#[verifier::external_body]
fn lookup_alpha2(alpha2: &str) -> (r: Option<(String, String)>)
    ensures
        r is Some <==> country_name_of(alpha2@) is Some,
        match r {
            Some((code, name)) => code@ == alpha2@ && country_name_of(alpha2@) == Some(name@),
            None => true,
        },
{
    rust_iso3166::from_alpha2(alpha2).map(|c| (c.alpha2.to_string(), c.name.to_string()))
}

/// A country of ISO 3166-1, known by its alpha-2 code.
#[derive(Debug)]
pub struct Country {
    alpha2: String,
    name: String,
}

impl Country {
    #[verifier::type_invariant]
    spec fn inv(self) -> bool {
        country_name_of(self.alpha2@) == Some(self.name@)
    }

    pub closed spec fn spec_alpha2(&self) -> Seq<char> {
        self.alpha2@
    }

    pub closed spec fn spec_name(&self) -> Seq<char> {
        self.name@
    }

    /// The country with alpha-2 code `alpha2`, or `None` for an unknown code.
    pub fn from_alpha2(alpha2: &str) -> (r: Option<Country>)
        ensures
            r is Some <==> country_name_of(alpha2@) is Some,
            r is Some ==> r->0.spec_alpha2() == alpha2@ && country_name_of(alpha2@) == Some(
                r->0.spec_name(),
            ),
    {
        match lookup_alpha2(alpha2) {
            Some((code, name)) => Some(Country { alpha2: code, name }),
            None => None,
        }
    }

    /// The two-letter code.
    pub fn alpha2(&self) -> (r: &String)
        ensures
            r@ == self.spec_alpha2(),
            country_name_of(self.spec_alpha2()) == Some(self.spec_name()),
    {
        proof {
            use_type_invariant(self);
        }
        &self.alpha2
    }

    /// The English short name.
    pub fn name(&self) -> (r: &String)
        ensures
            r@ == self.spec_name(),
            country_name_of(self.spec_alpha2()) == Some(self.spec_name()),
    {
        proof {
            use_type_invariant(self);
        }
        &self.name
    }
}

/// A person's name.
#[derive(Debug)]
pub struct Name {
    pub first: String,
    pub last: String,
}

/// First and last name, separated by a space.
pub open spec fn full_name(n: Name) -> Seq<char> {
    n.first@ + seq![' '] + n.last@
}

impl Name {
    /// First and last name, separated by a space.
    pub fn display_name(&self) -> (r: String)
        ensures
            r@ == full_name(*self),
    {
        let mut s = String::new();
        push_str(&mut s, self.first.as_str());
        push_char(&mut s, ' ');
        push_str(&mut s, self.last.as_str());
        assert(s@ =~= full_name(*self));
        s
    }
}

/// A postal address.
#[derive(Debug)]
pub struct Address {
    pub street: String,
    pub number: String,
    pub locality: String,
    pub postal_code: String,
    pub country: Country,
}

/// One record of the store.
#[derive(Debug)]
pub struct Contact {
    pub name: Name,
    pub birthday: Option<PartialDate>,
    pub phone_numbers: Vec<PhoneNumber>,
    pub email_addresses: Vec<String>,
    pub address: Option<Address>,
}

/// What every contact satisfies through the invariants of its parts.
pub open spec fn contact_valid(c: Contact) -> bool {
    &&& (c.birthday is Some ==> valid_date(c.birthday->0@))
    &&& forall|i: int|
        0 <= i < c.phone_numbers@.len() ==> phone_error(
            (#[trigger] c.phone_numbers@[i]).spec_number(),
        ) is None
    &&& (c.address is Some ==> country_name_of(c.address->0.country.spec_alpha2()) == Some(
        c.address->0.country.spec_name(),
    ))
}

/// Two names that are equal field for field.
pub open spec fn same_name(a: Name, b: Name) -> bool {
    a.first@ == b.first@ && a.last@ == b.last@
}

/// Two addresses that are equal field for field.
pub open spec fn same_address(a: Address, b: Address) -> bool {
    &&& a.street@ == b.street@
    &&& a.number@ == b.number@
    &&& a.locality@ == b.locality@
    &&& a.postal_code@ == b.postal_code@
    &&& a.country.spec_alpha2() == b.country.spec_alpha2()
    &&& a.country.spec_name() == b.country.spec_name()
}

/// Two contacts that are equal field for field, sequences in the same order.
pub open spec fn same_contact(a: Contact, b: Contact) -> bool {
    &&& same_name(a.name, b.name)
    &&& a.birthday is Some <==> b.birthday is Some
    &&& a.birthday is Some ==> a.birthday->0@ == b.birthday->0@
    &&& a.phone_numbers@.len() == b.phone_numbers@.len()
    &&& forall|i: int|
        0 <= i < a.phone_numbers@.len() ==> (#[trigger] a.phone_numbers@[i]).spec_number()
            == b.phone_numbers@[i].spec_number() && a.phone_numbers@[i].spec_type()
            == b.phone_numbers@[i].spec_type()
    &&& a.email_addresses@.len() == b.email_addresses@.len()
    &&& forall|i: int|
        0 <= i < a.email_addresses@.len() ==> (#[trigger] a.email_addresses@[i])@
            == b.email_addresses@[i]@
    &&& a.address is Some <==> b.address is Some
    &&& a.address is Some ==> same_address(a.address->0, b.address->0)
}

/// The contacts, in the order in which they were loaded.
#[derive(Debug)]
pub struct ContactStore {
    contacts: Vec<Contact>,
}

impl ContactStore {
    pub closed spec fn spec_contacts(&self) -> Seq<Contact> {
        self.contacts@
    }

    pub fn from_contacts(contacts: Vec<Contact>) -> (r: ContactStore)
        ensures
            r.spec_contacts() == contacts@,
    {
        ContactStore { contacts }
    }

    pub fn contacts(&self) -> (r: &Vec<Contact>)
        ensures
            r@ == self.spec_contacts(),
    {
        &self.contacts
    }
}

} // verus!
