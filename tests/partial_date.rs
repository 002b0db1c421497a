use tactful::date::{is_leap_year, split_on_dash, Date, DateError, PartialDate, VcardDateError};

fn date(year: Option<u16>, month: Option<u16>, day: Option<u16>) -> PartialDate {
    PartialDate::new(year, month, day).expect("valid date")
}

#[test]
fn max_days_in_february_depends_on_known_year() {
    assert_eq!(PartialDate::max_days_in_month(Some(2), None), 29);
    assert_eq!(PartialDate::max_days_in_month(Some(2), Some(1900)), 28);
    assert_eq!(PartialDate::max_days_in_month(Some(2), Some(2000)), 29);
    assert_eq!(PartialDate::max_days_in_month(Some(2), Some(2024)), 29);
    assert_eq!(PartialDate::max_days_in_month(Some(2), Some(2023)), 28);
}

#[test]
fn max_days_in_other_months() {
    assert_eq!(PartialDate::max_days_in_month(None, None), 31);
    assert_eq!(PartialDate::max_days_in_month(Some(1), None), 31);
    assert_eq!(PartialDate::max_days_in_month(Some(4), Some(2020)), 30);
    assert_eq!(PartialDate::max_days_in_month(Some(6), None), 30);
    assert_eq!(PartialDate::max_days_in_month(Some(9), None), 30);
    assert_eq!(PartialDate::max_days_in_month(Some(11), None), 30);
    assert_eq!(PartialDate::max_days_in_month(Some(12), None), 31);
}

#[test]
fn leap_years() {
    assert!(is_leap_year(2000));
    assert!(is_leap_year(2024));
    assert!(!is_leap_year(1900));
    assert!(!is_leap_year(2023));
    assert!(PartialDate::is_leap_year(1600));
}

#[test]
fn validate_checks_month_then_day() {
    assert_eq!(PartialDate::validate(None, Some(0), Some(40)), Err(DateError::InvalidMonth(0)));
    assert_eq!(PartialDate::validate(None, Some(13), None), Err(DateError::InvalidMonth(13)));
    assert_eq!(PartialDate::validate(None, Some(4), Some(31)), Err(DateError::InvalidDay(31)));
    assert_eq!(PartialDate::validate(None, None, Some(0)), Err(DateError::InvalidDay(0)));
    assert_eq!(PartialDate::validate(None, None, Some(32)), Err(DateError::InvalidDay(32)));
    assert_eq!(PartialDate::validate(Some(1900), Some(2), Some(29)), Err(DateError::InvalidDay(29)));
    assert_eq!(PartialDate::validate(None, Some(2), Some(29)), Ok(()));
    assert_eq!(PartialDate::validate(Some(2000), Some(2), Some(29)), Ok(()));
    assert_eq!(PartialDate::validate(None, None, None), Ok(()));
    assert!(PartialDate::new(Some(2023), Some(2), Some(29)).is_err());
}

#[test]
fn json_repr_pads_month_and_day() {
    assert_eq!(date(None, Some(3), Some(9)).to_json_repr(), "-03-09");
    assert_eq!(date(Some(1990), Some(12), Some(24)).to_json_repr(), "1990-12-24");
    assert_eq!(date(Some(7), None, None).to_json_repr(), "7--");
    assert_eq!(date(None, None, None).to_json_repr(), "--");
    assert_eq!(date(None, None, Some(1)).to_json_repr(), "--01");
}

#[test]
fn json_round_trip_all_presence_combinations() {
    let cases = [
        (None, None, None),
        (Some(1990), None, None),
        (None, Some(3), None),
        (None, None, Some(9)),
        (Some(1990), Some(3), None),
        (Some(1990), None, Some(9)),
        (None, Some(3), Some(9)),
        (Some(1990), Some(3), Some(9)),
        (Some(65535), Some(12), Some(31)),
        (None, Some(2), Some(29)),
    ];
    for (y, m, d) in cases {
        let text = date(y, m, d).to_json_repr();
        let back = PartialDate::from_json_repr(&text).expect("decodes");
        assert_eq!((back.year(), back.month(), back.day()), (y, m, d));
    }
}

#[test]
fn from_json_repr_needs_three_components() {
    for text in ["", "2020", "2020-01", "2020-01-01-", "---", "1-2-3-4"] {
        assert_eq!(
            PartialDate::from_json_repr(text).map(|_| ()),
            Err(DateError::WrongComponentCount),
            "{text}"
        );
    }
}

#[test]
fn from_json_repr_rejects_bad_components() {
    for text in ["ab--", "-1a-", "--x", "70000--", "+5--", "-+3-", " 1--"] {
        assert_eq!(
            PartialDate::from_json_repr(text).map(|_| ()),
            Err(DateError::InvalidComponent),
            "{text}"
        );
    }
}

#[test]
fn from_json_repr_validates() {
    assert_eq!(PartialDate::from_json_repr("-13-").map(|_| ()), Err(DateError::InvalidMonth(13)));
    assert_eq!(PartialDate::from_json_repr("2023-02-29").map(|_| ()), Err(DateError::InvalidDay(29)));
    let d = PartialDate::from_json_repr("-02-29").expect("February 29 without year");
    assert_eq!((d.year(), d.month(), d.day()), (None, Some(2), Some(29)));
    let d = PartialDate::from_json_repr("0007-001-00009").expect("leading zeros");
    assert_eq!((d.year(), d.month(), d.day()), (Some(7), Some(1), Some(9)));
}

#[test]
fn split_on_dash_keeps_empty_pieces() {
    assert_eq!(split_on_dash("-03-09"), vec!["", "03", "09"]);
    assert_eq!(split_on_dash(""), vec![""]);
    assert_eq!(split_on_dash("a"), vec!["a"]);
}

#[test]
fn vcard_repr_of_supported_combinations() {
    assert_eq!(date(None, None, Some(5)).to_vcard_repr(), Ok("---05".to_string()));
    assert_eq!(date(None, Some(3), None).to_vcard_repr(), Ok("--03".to_string()));
    assert_eq!(date(None, Some(3), Some(5)).to_vcard_repr(), Ok("--0305".to_string()));
    assert_eq!(date(Some(985), None, None).to_vcard_repr(), Ok("0985".to_string()));
    assert_eq!(date(Some(1990), Some(3), None).to_vcard_repr(), Ok("1990-03".to_string()));
    assert_eq!(date(Some(1990), Some(3), Some(5)).to_vcard_repr(), Ok("19900305".to_string()));
}

#[test]
fn vcard_repr_of_unsupported_combinations() {
    assert_eq!(date(None, None, None).to_vcard_repr(), Err(VcardDateError::Unrepresentable));
    assert_eq!(
        date(Some(1990), None, Some(5)).to_vcard_repr(),
        Err(VcardDateError::Unrepresentable)
    );
}

#[test]
fn vcard_repr_rejects_five_digit_years() {
    assert_eq!(date(Some(10000), None, None).to_vcard_repr(), Err(VcardDateError::YearOutOfRange));
    assert_eq!(
        date(Some(65535), Some(1), Some(1)).to_vcard_repr(),
        Err(VcardDateError::YearOutOfRange)
    );
    assert_eq!(date(Some(9999), Some(12), None).to_vcard_repr(), Ok("9999-12".to_string()));
}

#[test]
fn from_date_keeps_all_components() {
    let d = PartialDate::from_date(Date { year: 2024, month: 6, day: 1 });
    assert_eq!((d.year(), d.month(), d.day()), (Some(2024), Some(6), Some(1)));
}
