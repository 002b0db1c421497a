//! Telephone numbers and their validation.

use vstd::prelude::*;
use crate::text::{is_digit, push_char};

verus! {

/// The kind of line a telephone number reaches.
#[derive(Clone, Copy, Debug, PartialEq, Eq, Structural)]
pub enum PhoneNumberType {
    Mobile,
    Home,
    Work,
}

/// Why a telephone number was rejected.
#[derive(Clone, Copy, Debug, PartialEq, Eq, Structural)]
pub enum PhoneNumberError {
    /// Nothing but white space.
    Empty,
    /// The first character is neither a digit nor `+`.
    InvalidFirstCharacter,
    /// A character after the first is not a digit.
    NonDigit,
}

/// The characters with the Unicode `White_Space` property.
pub open spec fn white_space(c: char) -> bool {
    ('\t' <= c && c <= '\r') || c == ' ' || c == '\u{85}' || c == '\u{a0}' || c == '\u{1680}' || (
    '\u{2000}' <= c && c <= '\u{200a}') || c == '\u{2028}' || c == '\u{2029}' || c == '\u{202f}'
        || c == '\u{205f}' || c == '\u{3000}'
}

/// `s` without its white space.
pub open spec fn strip_white_space(s: Seq<char>) -> Seq<char>
    decreases s.len(),
{
    if s.len() == 0 {
        s
    } else if white_space(s.last()) {
        strip_white_space(s.drop_last())
    } else {
        strip_white_space(s.drop_last()).push(s.last())
    }
}

/// The first rule that a telephone number breaks, once its white space is removed: it must not
/// be empty, must begin with a digit or `+`, and continue with digits only.
pub open spec fn phone_error(s: Seq<char>) -> Option<PhoneNumberError> {
    let t = strip_white_space(s);
    if t.len() == 0 {
        Some(PhoneNumberError::Empty)
    } else if !(is_digit(t[0]) || t[0] == '+') {
        Some(PhoneNumberError::InvalidFirstCharacter)
    } else if !(forall|i: int| 1 <= i < t.len() ==> is_digit(#[trigger] t[i])) {
        Some(PhoneNumberError::NonDigit)
    } else {
        None
    }
}

/// Relies on `char::is_whitespace`: true exactly for the `White_Space` characters.
#[verifier::external_body]
fn is_white_space(c: char) -> (r: bool)
    ensures
        r == white_space(c),
{
    c.is_whitespace()
}

/// `s` without its white space.
pub fn strip_whitespace(s: &str) -> (r: String)
    ensures
        r@ == strip_white_space(s@),
{
    let n = s.unicode_len();
    let mut out = String::new();
    let mut i: usize = 0;
    while i < n
        invariant
            n == s@.len(),
            i <= n,
            out@ == strip_white_space(s@.take(i as int)),
        decreases n - i,
    {
        let c = s.get_char(i);
        proof {
            assert(s@.take(i as int + 1).drop_last() =~= s@.take(i as int));
            assert(s@.take(i as int + 1).last() == c);
        }
        if !is_white_space(c) {
            push_char(&mut out, c);
        }
        i = i + 1;
    }
    assert(s@.take(n as int) =~= s@);
    out
}

/// A telephone number known to be valid, with its kind.
#[derive(Debug)]
pub struct PhoneNumber {
    number: String,
    ty: PhoneNumberType,
}

impl PhoneNumber {
    #[verifier::type_invariant]
    spec fn inv(self) -> bool {
        phone_error(self.number@) is None
    }

    /// The number as it was given.
    pub closed spec fn spec_number(&self) -> Seq<char> {
        self.number@
    }

    pub closed spec fn spec_type(&self) -> PhoneNumberType {
        self.ty
    }

    /// Checks a telephone number: without its white space it must be non-empty, begin with a
    /// digit or `+`, and hold only digits after that.
    pub fn validate(number: &str) -> (r: Result<(), PhoneNumberError>)
        ensures
            r is Ok <==> phone_error(number@) is None,
            r is Err ==> Some(r->Err_0) == phone_error(number@),
    {
        let chars = strip_whitespace(number);
        let n = chars.unicode_len();
        if n == 0 {
            return Err(PhoneNumberError::Empty);
        }
        let first = chars.get_char(0);
        if !(('0' <= first && first <= '9') || first == '+') {
            return Err(PhoneNumberError::InvalidFirstCharacter);
        }
        let mut i: usize = 1;
        while i < n
            invariant
                n == chars@.len(),
                chars@ == strip_white_space(number@),
                is_digit(chars@[0]) || chars@[0] == '+',
                1 <= i <= n,
                forall|k: int| 1 <= k < i ==> is_digit(#[trigger] chars@[k]),
            decreases n - i,
        {
            let c = chars.get_char(i);
            if !('0' <= c && c <= '9') {
                assert(!is_digit(chars@[i as int]));
                return Err(PhoneNumberError::NonDigit);
            }
            i = i + 1;
        }
        Ok(())
    }

    /// The only way to obtain a telephone number: it is validated first.
    pub fn new(number: String, ty: PhoneNumberType) -> (r: Result<PhoneNumber, PhoneNumberError>)
        ensures
            r is Ok <==> phone_error(number@) is None,
            r is Ok ==> r->Ok_0.spec_number() == number@ && r->Ok_0.spec_type() == ty,
            r is Err ==> Some(r->Err_0) == phone_error(number@),
    {
        match Self::validate(number.as_str()) {
            Ok(()) => Ok(PhoneNumber { number, ty }),
            Err(e) => Err(e),
        }
    }

    pub fn number(&self) -> (r: &String)
        ensures
            r@ == self.spec_number(),
            phone_error(self.spec_number()) is None,
    {
        proof {
            use_type_invariant(self);
        }
        &self.number
    }

    pub fn ty(&self) -> (r: PhoneNumberType)
        ensures
            r == self.spec_type(),
    {
        self.ty
    }
}

} // verus!
