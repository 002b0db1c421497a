//! Partial calendar dates: year, month and day are each optional.

use vstd::prelude::*;
use crate::text::{
    all_digits, digits_value, is_digit, lemma_padded, lemma_prefix_value, padded,
    push_char, push_padded,
};

verus! {

/// The components of a partial date, as plain values.
#[derive(Clone, Copy, Debug, PartialEq, Eq, Structural)]
pub struct DateFields {
    pub year: Option<u16>,
    pub month: Option<u16>,
    pub day: Option<u16>,
}

/// Why a partial date was rejected.
#[derive(Clone, Copy, Debug, PartialEq, Eq, Structural)]
pub enum DateError {
    /// The text did not split into exactly three `-`-separated components.
    WrongComponentCount,
    /// A component was neither empty nor a decimal number that fits in 16 bits.
    InvalidComponent,
    /// The month lies outside 1..=12.
    InvalidMonth(u16),
    /// The day is zero or exceeds the length of the month.
    InvalidDay(u16),
}

/// Why a partial date has no vCard 4.0 form.
#[derive(Clone, Copy, Debug, PartialEq, Eq, Structural)]
pub enum VcardDateError {
    /// The year has more than four digits.
    YearOutOfRange,
    /// vCard 4.0 has no notation for this combination of known components.
    Unrepresentable,
}

/// A fully known calendar date.
#[derive(Clone, Copy, Debug, PartialEq, Eq, Structural)]
pub struct Date {
    pub year: u16,
    pub month: u16,
    pub day: u16,
}

/// Gregorian leap-year rule.
pub open spec fn leap_year(year: u16) -> bool {
    (year % 4 == 0 && year % 100 != 0) || year % 400 == 0
}

/// The largest day number allowed in `month`; February has 29 days when the year is unknown,
/// and any day up to 31 is allowed when the month is unknown.
pub open spec fn days_in_month(month: Option<u16>, year: Option<u16>) -> u16 {
    match month {
        None => 31,
        Some(m) => if m == 2 {
            match year {
                None => 29,
                Some(y) => if leap_year(y) {
                    29
                } else {
                    28
                },
            }
        } else if m == 4 || m == 6 || m == 9 || m == 11 {
            30
        } else {
            31
        },
    }
}

/// The first rule that the components break: the month is checked before the day.
pub open spec fn date_error(f: DateFields) -> Option<DateError> {
    if f.month is Some && (f.month->0 == 0 || f.month->0 > 12) {
        Some(DateError::InvalidMonth(f.month->0))
    } else if f.day is Some && (f.day->0 == 0 || f.day->0 > days_in_month(f.month, f.year)) {
        Some(DateError::InvalidDay(f.day->0))
    } else {
        None
    }
}

pub open spec fn valid_date(f: DateFields) -> bool {
    date_error(f) is None
}

/// One component of the JSON form: empty when absent, else decimal padded to `width`.
pub open spec fn json_component(c: Option<u16>, width: nat) -> Seq<char> {
    match c {
        None => Seq::empty(),
        Some(v) => padded(v as nat, width),
    }
}

/// The JSON form `year-month-day`, each slot empty when the component is absent, month and day
/// padded to two digits.
pub open spec fn json_repr(f: DateFields) -> Seq<char> {
    json_component(f.year, 0) + seq!['-'] + json_component(f.month, 2) + seq!['-']
        + json_component(f.day, 2)
}

/// `s` cut at every `-`; a text without `-` is a single piece.
pub open spec fn split_dash(s: Seq<char>) -> Seq<Seq<char>>
    decreases s.len(),
{
    if s.len() == 0 {
        seq![Seq::empty()]
    } else {
        let p = split_dash(s.drop_last());
        if s.last() == '-' {
            p.push(Seq::empty())
        } else {
            p.update(p.len() - 1, p.last().push(s.last()))
        }
    }
}

/// A component of the JSON form: empty, or an unsigned 16-bit decimal number.
pub open spec fn parse_component(s: Seq<char>) -> Result<Option<u16>, DateError> {
    if s.len() == 0 {
        Ok(None)
    } else if all_digits(s) && digits_value(s) <= 65535 {
        Ok(Some(digits_value(s) as u16))
    } else {
        Err(DateError::InvalidComponent)
    }
}

/// Decoding of the JSON form.
pub open spec fn from_json(s: Seq<char>) -> Result<DateFields, DateError> {
    let p = split_dash(s);
    if p.len() != 3 {
        Err(DateError::WrongComponentCount)
    } else if parse_component(p[0]) is Err {
        Err(DateError::InvalidComponent)
    } else if parse_component(p[1]) is Err {
        Err(DateError::InvalidComponent)
    } else if parse_component(p[2]) is Err {
        Err(DateError::InvalidComponent)
    } else {
        let f = DateFields {
            year: parse_component(p[0])->Ok_0,
            month: parse_component(p[1])->Ok_0,
            day: parse_component(p[2])->Ok_0,
        };
        match date_error(f) {
            Some(e) => Err(e),
            None => Ok(f),
        }
    }
}

/// The vCard 4.0 form of a partial date.
pub open spec fn vcard_repr(f: DateFields) -> Result<Seq<char>, VcardDateError> {
    if f.year is Some && f.year->0 > 9999 {
        Err(VcardDateError::YearOutOfRange)
    } else {
        match (f.year, f.month, f.day) {
            (None, None, Some(d)) => Ok(seq!['-', '-', '-'] + padded(d as nat, 2)),
            (None, Some(m), None) => Ok(seq!['-', '-'] + padded(m as nat, 2)),
            (None, Some(m), Some(d)) => Ok(
                seq!['-', '-'] + padded(m as nat, 2) + padded(d as nat, 2),
            ),
            (Some(y), None, None) => Ok(padded(y as nat, 4)),
            (Some(y), Some(m), None) => Ok(padded(y as nat, 4) + seq!['-'] + padded(m as nat, 2)),
            (Some(y), Some(m), Some(d)) => Ok(
                padded(y as nat, 4) + padded(m as nat, 2) + padded(d as nat, 2),
            ),
            _ => Err(VcardDateError::Unrepresentable),
        }
    }
}

proof fn lemma_split_len(s: Seq<char>)
    ensures
        split_dash(s).len() >= 1,
    decreases s.len(),
{
    if s.len() > 0 {
        lemma_split_len(s.drop_last());
    }
}

/// Appending text without `-` extends the last piece.
proof fn lemma_split_plain(s: Seq<char>, t: Seq<char>)
    requires
        forall|i: int| 0 <= i < t.len() ==> #[trigger] t[i] != '-',
    ensures
        split_dash(s + t) == split_dash(s).update(
            split_dash(s).len() - 1,
            split_dash(s).last() + t,
        ),
    decreases t.len(),
{
    lemma_split_len(s);
    if t.len() == 0 {
        assert(s + t =~= s);
        assert(split_dash(s).last() + t =~= split_dash(s).last());
        assert(split_dash(s).update(split_dash(s).len() - 1, split_dash(s).last())
            =~= split_dash(s));
    } else {
        let u = t.drop_last();
        lemma_split_plain(s, u);
        assert((s + t).drop_last() =~= s + u);
        assert((s + t).last() == t.last());
        assert(split_dash(s).last() + u + seq![t.last()] =~= split_dash(s).last() + t);
        assert(t[t.len() - 1] != '-');
        let p = split_dash(s + u);
        assert(p.len() == split_dash(s).len());
        assert(p.last() == split_dash(s).last() + u);
        assert(split_dash(s + t) == p.update(p.len() - 1, p.last().push(t.last())));
        assert((split_dash(s).last() + u).push(t.last()) =~= split_dash(s).last() + t);
        assert(split_dash(s + t) =~= split_dash(s).update(
            split_dash(s).len() - 1,
            split_dash(s).last() + t,
        ));
    }
}

proof fn lemma_no_dash_in_component(c: Option<u16>, width: nat)
    ensures
        forall|i: int|
            0 <= i < json_component(c, width).len() ==> #[trigger] json_component(c, width)[i]
                != '-',
        parse_component(json_component(c, width)) == Ok::<Option<u16>, DateError>(c),
{
    if let Some(v) = c {
        lemma_padded(v as nat, width);
        assert forall|i: int| 0 <= i < json_component(c, width).len() implies #[trigger] json_component(c, width)[i] != '-' by {
            assert(is_digit(padded(v as nat, width)[i]));
        }
    }
}

/// Decoding the JSON form of a valid partial date gives back the same date.
pub proof fn lemma_json_round_trip(f: DateFields)
    requires
        valid_date(f),
    ensures
        from_json(json_repr(f)) == Ok::<DateFields, DateError>(f),
{
    let a = json_component(f.year, 0);
    let b = json_component(f.month, 2);
    let c = json_component(f.day, 2);
    lemma_no_dash_in_component(f.year, 0);
    lemma_no_dash_in_component(f.month, 2);
    lemma_no_dash_in_component(f.day, 2);
    let e = Seq::<char>::empty();
    assert(split_dash(e) == seq![e]);
    lemma_split_plain(e, a);
    assert(e + a =~= a);
    assert(split_dash(a) =~= seq![a]);
    let a1 = a + seq!['-'];
    assert(a1.drop_last() =~= a);
    assert(split_dash(a1) =~= seq![a, e]);
    lemma_split_plain(a1, b);
    assert(e + b =~= b);
    assert(split_dash(a1 + b) =~= seq![a, b]);
    let b1 = a1 + b + seq!['-'];
    assert(b1.drop_last() =~= a1 + b);
    assert(split_dash(b1) =~= seq![a, b, e]);
    lemma_split_plain(b1, c);
    assert(e + c =~= c);
    assert(split_dash(b1 + c) =~= seq![a, b, c]);
    assert(json_repr(f) =~= b1 + c);
}

/// Text that does not cut into exactly three pieces is refused.
pub proof fn lemma_wrong_piece_count(s: Seq<char>)
    requires
        split_dash(s).len() != 3,
    ensures
        from_json(s) == Err::<DateFields, DateError>(DateError::WrongComponentCount),
{
}

/// vCard 4.0 writes every combination of known components but two: nothing known, and year
/// and day without month; a year with more than four digits is refused in any combination.
pub proof fn lemma_vcard_combinations(f: DateFields)
    ensures
        f.year is Some && f.year->0 > 9999 ==> vcard_repr(f) == Err::<Seq<char>, VcardDateError>(
            VcardDateError::YearOutOfRange,
        ),
        !(f.year is Some && f.year->0 > 9999) ==> (vcard_repr(f) is Ok <==> !((f.year is None
            && f.month is None && f.day is None) || (f.year is Some && f.month is None
            && f.day is Some))),
{
}

/// A partial date whose components are known to form a valid date.
#[derive(Clone, Copy, Debug)]
pub struct PartialDate {
    year: Option<u16>,
    month: Option<u16>,
    day: Option<u16>,
}

impl View for PartialDate {
    type V = DateFields;

    closed spec fn view(&self) -> DateFields {
        DateFields { year: self.year, month: self.month, day: self.day }
    }
}

/// Cuts `s` at every `-`.
pub fn split_on_dash(s: &str) -> (r: Vec<String>)
    ensures
        r@.len() == split_dash(s@).len(),
        forall|k: int| 0 <= k < r@.len() ==> #[trigger] r@[k]@ == split_dash(s@)[k],
{
    let n = s.unicode_len();
    let mut done: Vec<String> = Vec::new();
    let mut cur = String::new();
    let mut i: usize = 0;
    while i < n
        invariant
            n == s@.len(),
            i <= n,
            done@.len() + 1 == split_dash(s@.take(i as int)).len(),
            forall|k: int| 0 <= k < done@.len() ==> #[trigger] done@[k]@ == split_dash(s@.take(i as int))[k],
            cur@ == split_dash(s@.take(i as int)).last(),
        decreases n - i,
    {
        let c = s.get_char(i);
        proof {
            assert(s@.take(i as int + 1).drop_last() =~= s@.take(i as int));
            assert(s@.take(i as int + 1).last() == c);
        }
        if c == '-' {
            done.push(cur);
            cur = String::new();
        } else {
            push_char(&mut cur, c);
        }
        i = i + 1;
    }
    assert(s@.take(n as int) =~= s@);
    done.push(cur);
    done
}

/// Whether `year` is a leap year.
pub fn is_leap_year(year: u16) -> (r: bool)
    ensures
        r == leap_year(year),
{
    (year % 4 == 0 && year % 100 != 0) || year % 400 == 0
}

impl PartialDate {
    #[verifier::type_invariant]
    spec fn inv(self) -> bool {
        valid_date(self@)
    }

    pub fn is_leap_year(year: u16) -> (r: bool)
        ensures
            r == leap_year(year),
    {
        is_leap_year(year)
    }

    /// The number of days in `month` (1..=12), or 31 when the month is unknown.
    pub fn max_days_in_month(month: Option<u16>, year: Option<u16>) -> (r: u16)
        requires
            month is Some ==> 1 <= month->0 <= 12,
        ensures
            r == days_in_month(month, year),
    {
        match month {
            None => 31,
            Some(m) => {
                if m == 2 {
                    match year {
                        None => 29,
                        Some(y) => if is_leap_year(y) {
                            29
                        } else {
                            28
                        },
                    }
                } else if m == 4 || m == 6 || m == 9 || m == 11 {
                    30
                } else {
                    31
                }
            },
        }
    }

    /// Checks the month range, then the day range for that month.
    pub fn validate(year: Option<u16>, month: Option<u16>, day: Option<u16>) -> (r: Result<
        (),
        DateError,
    >)
        ensures
            r is Ok <==> date_error(DateFields { year, month, day }) is None,
            r is Err ==> Some(r->Err_0) == date_error(DateFields { year, month, day }),
    {
        if let Some(m) = month {
            if m == 0 || m > 12 {
                return Err(DateError::InvalidMonth(m));
            }
        }
        if let Some(d) = day {
            if d == 0 || d > Self::max_days_in_month(month, year) {
                return Err(DateError::InvalidDay(d));
            }
        }
        Ok(())
    }

    /// The only way to obtain a partial date: its components are validated first.
    pub fn new(year: Option<u16>, month: Option<u16>, day: Option<u16>) -> (r: Result<
        PartialDate,
        DateError,
    >)
        ensures
            r is Ok <==> date_error(DateFields { year, month, day }) is None,
            r is Ok ==> r->Ok_0@ == (DateFields { year, month, day }),
            r is Err ==> Some(r->Err_0) == date_error(DateFields { year, month, day }),
    {
        match Self::validate(year, month, day) {
            Ok(()) => Ok(PartialDate { year, month, day }),
            Err(e) => Err(e),
        }
    }

    /// A fully known valid date as a partial date.
    pub fn from_date(date: Date) -> (r: PartialDate)
        requires
            valid_date(DateFields { year: Some(date.year), month: Some(date.month), day: Some(date.day) }),
        ensures
            r@ == (DateFields { year: Some(date.year), month: Some(date.month), day: Some(date.day) }),
    {
        PartialDate { year: Some(date.year), month: Some(date.month), day: Some(date.day) }
    }

    pub fn year(&self) -> (r: Option<u16>)
        ensures
            r == self@.year,
    {
        self.year
    }

    pub fn month(&self) -> (r: Option<u16>)
        ensures
            r == self@.month,
    {
        self.month
    }

    pub fn day(&self) -> (r: Option<u16>)
        ensures
            r == self@.day,
    {
        self.day
    }

    /// The JSON form: `year-month-day`, absent components as empty slots.
    pub fn to_json_repr(&self) -> (r: String)
        ensures
            r@ == json_repr(self@),
    {
        let mut s = String::new();
        if let Some(y) = self.year {
            push_padded(&mut s, y as u32, 0);
        }
        push_char(&mut s, '-');
        if let Some(m) = self.month {
            push_padded(&mut s, m as u32, 2);
        }
        push_char(&mut s, '-');
        if let Some(d) = self.day {
            push_padded(&mut s, d as u32, 2);
        }
        assert(s@ =~= json_repr(self@));
        s
    }

    /// One component of the JSON form: empty means absent.
    pub fn parse_json_component(component: &str) -> (r: Result<Option<u16>, DateError>)
        ensures
            r == parse_component(component@),
    {
        let n = component.unicode_len();
        if n == 0 {
            return Ok(None);
        }
        let mut value: u32 = 0;
        let mut i: usize = 0;
        while i < n
            invariant
                n == component@.len(),
                i <= n,
                all_digits(component@.take(i as int)),
                value == digits_value(component@.take(i as int)),
                value <= 65535,
            decreases n - i,
        {
            let c = component.get_char(i);
            proof {
                assert(component@.take(i as int + 1).drop_last() =~= component@.take(i as int));
                assert(component@.take(i as int + 1).last() == c);
            }
            if !('0' <= c && c <= '9') {
                proof {
                    assert(!all_digits(component@));
                }
                return Err(DateError::InvalidComponent);
            }
            value = value * 10 + (c as u32 - 48);
            i = i + 1;
            proof {
                assert(all_digits(component@.take(i as int)));
            }
            if value > 65535 {
                proof {
                    lemma_prefix_value(component@, i as int);
                }
                return Err(DateError::InvalidComponent);
            }
        }
        assert(component@.take(n as int) =~= component@);
        Ok(Some(value as u16))
    }

    /// Decodes the JSON form and validates the result.
    pub fn from_json_repr(string_repr: &str) -> (r: Result<PartialDate, DateError>)
        ensures
            r is Ok <==> from_json(string_repr@) is Ok,
            r is Ok ==> from_json(string_repr@) == Ok::<DateFields, DateError>(r->Ok_0@),
            r is Err ==> from_json(string_repr@) == Err::<DateFields, DateError>(r->Err_0),
            split_dash(string_repr@).len() != 3 ==> r == Err::<PartialDate, DateError>(
                DateError::WrongComponentCount,
            ),
    {
        let pieces = split_on_dash(string_repr);
        if pieces.len() != 3 {
            return Err(DateError::WrongComponentCount);
        }
        let year = match Self::parse_json_component(pieces[0].as_str()) {
            Ok(v) => v,
            Err(e) => return Err(e),
        };
        let month = match Self::parse_json_component(pieces[1].as_str()) {
            Ok(v) => v,
            Err(e) => return Err(e),
        };
        let day = match Self::parse_json_component(pieces[2].as_str()) {
            Ok(v) => v,
            Err(e) => return Err(e),
        };
        Self::new(year, month, day)
    }

    /// The vCard 4.0 form; fails for a year above 9999 and for the two combinations that
    /// vCard cannot write (nothing known; year and day without month).
    pub fn to_vcard_repr(&self) -> (r: Result<String, VcardDateError>)
        ensures
            r is Ok <==> vcard_repr(self@) is Ok,
            r is Ok ==> vcard_repr(self@) == Ok::<Seq<char>, VcardDateError>(r->Ok_0@),
            r is Err ==> vcard_repr(self@) == Err::<Seq<char>, VcardDateError>(r->Err_0),
    {
        if let Some(y) = self.year {
            if y > 9999 {
                return Err(VcardDateError::YearOutOfRange);
            }
        }
        let mut s = String::new();
        match (self.year, self.month, self.day) {
            (None, None, Some(d)) => {
                push_char(&mut s, '-');
                push_char(&mut s, '-');
                push_char(&mut s, '-');
                push_padded(&mut s, d as u32, 2);
                assert(s@ =~= seq!['-', '-', '-'] + padded(d as nat, 2));
            },
            (None, Some(m), None) => {
                push_char(&mut s, '-');
                push_char(&mut s, '-');
                push_padded(&mut s, m as u32, 2);
                assert(s@ =~= seq!['-', '-'] + padded(m as nat, 2));
            },
            (None, Some(m), Some(d)) => {
                push_char(&mut s, '-');
                push_char(&mut s, '-');
                push_padded(&mut s, m as u32, 2);
                push_padded(&mut s, d as u32, 2);
                assert(s@ =~= seq!['-', '-'] + padded(m as nat, 2) + padded(d as nat, 2));
            },
            (Some(y), None, None) => {
                push_padded(&mut s, y as u32, 4);
                assert(s@ =~= padded(y as nat, 4));
            },
            (Some(y), Some(m), None) => {
                push_padded(&mut s, y as u32, 4);
                push_char(&mut s, '-');
                push_padded(&mut s, m as u32, 2);
                assert(s@ =~= padded(y as nat, 4) + seq!['-'] + padded(m as nat, 2));
            },
            (Some(y), Some(m), Some(d)) => {
                push_padded(&mut s, y as u32, 4);
                push_padded(&mut s, m as u32, 2);
                push_padded(&mut s, d as u32, 2);
                assert(s@ =~= padded(y as nat, 4) + padded(m as nat, 2) + padded(d as nat, 2));
            },
            _ => {
                return Err(VcardDateError::Unrepresentable);
            },
        }
        assert(vcard_repr(self@) == Ok::<Seq<char>, VcardDateError>(s@));
        Ok(s)
    }
}

} // verus!
