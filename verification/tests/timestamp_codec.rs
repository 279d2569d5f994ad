use change_model::DateTime;
use change_model::Timestamp;
use change_model::TimestampComponent;
use change_model::TimestampParseError;
use std::cmp::Ordering;

fn date_time(
    year: i32,
    month: u8,
    day: u8,
    hour: u8,
    minute: u8,
    second: u8,
    nanosecond: u32,
) -> DateTime {
    DateTime { year, month, day, hour, minute, second, nanosecond }
}

fn timestamp(
    year: i32,
    month: u8,
    day: u8,
    hour: u8,
    minute: u8,
    second: u8,
    nanosecond: u32,
) -> Timestamp {
    Timestamp::new(date_time(year, month, day, hour, minute, second, nanosecond))
        .expect("a date and time that exist")
}

fn reference_format() -> Vec<time::format_description::BorrowedFormatItem<'static>> {
    time::format_description::parse_borrowed::<2>(
        "[year]-[month]-[day] [hour]:[minute]:[second].[subsecond digits:1+]",
    )
    .expect("a valid format description")
}

fn reference_text(t: &DateTime) -> String {
    let month = time::Month::try_from(t.month).expect("a month");
    let date = time::Date::from_calendar_date(t.year, month, t.day).expect("a date");
    let time_of_day =
        time::Time::from_hms_nano(t.hour, t.minute, t.second, t.nanosecond).expect("a time");
    time::PrimitiveDateTime::new(date, time_of_day)
        .format(&reference_format())
        .expect("a text")
}

fn reference_parse(text: &str) -> Option<DateTime> {
    let parsed = time::PrimitiveDateTime::parse(text, &reference_format()).ok()?;
    Some(date_time(
        parsed.year(),
        u8::from(parsed.month()),
        parsed.day(),
        parsed.hour(),
        parsed.minute(),
        parsed.second(),
        parsed.nanosecond(),
    ))
}

fn samples() -> Vec<DateTime> {
    vec![
        date_time(2024, 1, 1, 0, 0, 0, 0),
        date_time(2024, 2, 29, 23, 59, 59, 999_999_999),
        date_time(1970, 1, 1, 0, 0, 0, 1),
        date_time(1999, 12, 31, 12, 30, 45, 120_000_000),
        date_time(2000, 2, 29, 1, 2, 3, 100),
        date_time(9999, 12, 31, 23, 59, 59, 500_000_000),
        date_time(0, 1, 1, 0, 0, 0, 0),
        date_time(-1, 6, 15, 8, 0, 0, 250_000_000),
        date_time(-9999, 1, 1, 0, 0, 0, 7),
        date_time(33, 4, 3, 15, 0, 0, 10),
    ]
}

#[test]
fn encode_whole_second_keeps_one_digit() {
    assert_eq!(timestamp(2024, 1, 1, 0, 0, 0, 0).encode(), "2024-01-01 00:00:00.0");
}

#[test]
fn encode_trims_trailing_zeros() {
    assert_eq!(
        timestamp(1999, 12, 31, 12, 30, 45, 120_000_000).encode(),
        "1999-12-31 12:30:45.12"
    );
    assert_eq!(
        timestamp(2024, 2, 29, 23, 59, 59, 999_999_999).encode(),
        "2024-02-29 23:59:59.999999999"
    );
    assert_eq!(timestamp(1970, 1, 1, 0, 0, 0, 1).encode(), "1970-01-01 00:00:00.000000001");
}

#[test]
fn encode_pads_small_years_and_signs_negative_ones() {
    assert_eq!(timestamp(33, 4, 3, 15, 0, 0, 10).encode(), "0033-04-03 15:00:00.00000001");
    assert_eq!(timestamp(-1, 6, 15, 8, 0, 0, 250_000_000).encode(), "-0001-06-15 08:00:00.25");
}

#[test]
fn encode_agrees_with_time() {
    for t in samples() {
        let ours = Timestamp::new(t).expect("a date and time that exist").encode();
        assert_eq!(ours, reference_text(&t));
    }
}

#[test]
fn decode_inverts_encode_to_the_nanosecond() {
    for t in samples() {
        let stamp = Timestamp::new(t).expect("a date and time that exist");
        let back = Timestamp::decode(&stamp.encode()).expect("the text form decodes");
        assert_eq!(back, stamp);
        assert_eq!(back.utc(), t);
    }
}

#[test]
fn decode_reads_any_number_of_subsecond_digits() {
    let expected = timestamp(2024, 3, 9, 7, 8, 9, 123_456_789);
    assert_eq!(Timestamp::decode("2024-03-09 07:08:09.123456789"), Ok(expected));
    assert_eq!(Timestamp::decode("2024-03-09 07:08:09.1234567891234"), Ok(expected));
    assert_eq!(
        Timestamp::decode("2024-03-09 07:08:09.5"),
        Ok(timestamp(2024, 3, 9, 7, 8, 9, 500_000_000))
    );
    assert_eq!(
        Timestamp::decode("2024-03-09 07:08:09.500"),
        Ok(timestamp(2024, 3, 9, 7, 8, 9, 500_000_000))
    );
    let long = format!("2024-03-09 07:08:09.{}", "1".repeat(50));
    assert_eq!(Timestamp::decode(&long), Ok(timestamp(2024, 3, 9, 7, 8, 9, 111_111_111)));
}

#[test]
fn decode_accepts_a_sign_before_the_year() {
    assert_eq!(
        Timestamp::decode("+2024-01-01 00:00:00.0"),
        Ok(timestamp(2024, 1, 1, 0, 0, 0, 0))
    );
    assert_eq!(
        Timestamp::decode("-0044-03-15 00:00:00.0"),
        Ok(timestamp(-44, 3, 15, 0, 0, 0, 0))
    );
}

#[test]
fn decode_agrees_with_time() {
    let texts = [
        "2024-01-01 00:00:00.0",
        "2024-02-29 23:59:59.999999999",
        "2023-02-29 00:00:00.0",
        "2024-13-40 99:99:99.0",
        "2024-00-10 00:00:00.0",
        "2024-01-00 00:00:00.0",
        "2024-04-31 00:00:00.0",
        "2024-01-01 24:00:00.0",
        "2024-01-01 00:60:00.0",
        "2024-01-01 00:00:60.0",
        "2024-01-01 00:00:00",
        "2024-01-01 00:00:00.",
        "2024-01-01 00:00:00.0 ",
        "2024-01-01T00:00:00.0",
        "2024-1-01 00:00:00.0",
        "24-01-01 00:00:00.0",
        "-0001-06-15 08:00:00.25",
        "+2024-01-01 00:00:00.0",
        "",
        "garbage",
        "1900-02-29 00:00:00.0",
        "2000-02-29 00:00:00.0",
    ];
    for text in texts {
        let ours = Timestamp::decode(text).ok().map(|t| t.utc());
        assert_eq!(ours, reference_parse(text), "on {text:?}");
    }
}

#[test]
fn decode_rejects_values_out_of_range() {
    assert_eq!(
        Timestamp::decode("2024-13-40 99:99:99.0"),
        Err(TimestampParseError::InvalidComponent {
            component: TimestampComponent::Month,
            position: 5
        })
    );
    assert_eq!(
        Timestamp::decode("2024-12-40 99:99:99.0"),
        Err(TimestampParseError::InvalidComponent {
            component: TimestampComponent::Day,
            position: 8
        })
    );
    assert_eq!(
        Timestamp::decode("2024-12-31 99:99:99.0"),
        Err(TimestampParseError::InvalidComponent {
            component: TimestampComponent::Hour,
            position: 11
        })
    );
    assert_eq!(
        Timestamp::decode("2024-12-31 23:99:99.0"),
        Err(TimestampParseError::InvalidComponent {
            component: TimestampComponent::Minute,
            position: 14
        })
    );
    assert_eq!(
        Timestamp::decode("2024-12-31 23:59:99.0"),
        Err(TimestampParseError::InvalidComponent {
            component: TimestampComponent::Second,
            position: 17
        })
    );
}

#[test]
fn decode_names_the_first_part_that_does_not_fit() {
    assert_eq!(
        Timestamp::decode(""),
        Err(TimestampParseError::InvalidComponent {
            component: TimestampComponent::Year,
            position: 0
        })
    );
    assert_eq!(
        Timestamp::decode("2024/01/01 00:00:00.0"),
        Err(TimestampParseError::InvalidLiteral { position: 4 })
    );
    assert_eq!(
        Timestamp::decode("-2024-01-01T00:00:00.0"),
        Err(TimestampParseError::InvalidLiteral { position: 11 })
    );
    assert_eq!(
        Timestamp::decode("2024-01-01 00:00:00"),
        Err(TimestampParseError::InvalidLiteral { position: 19 })
    );
    assert_eq!(
        Timestamp::decode("2024-01-01 00:00:00."),
        Err(TimestampParseError::InvalidComponent {
            component: TimestampComponent::Subsecond,
            position: 20
        })
    );
    assert_eq!(
        Timestamp::decode("2024-01-01 00:00:00.25Z"),
        Err(TimestampParseError::UnexpectedTrailingCharacters { position: 22 })
    );
    assert_eq!(
        Timestamp::decode("2024-01-01 00:00:00.0é"),
        Err(TimestampParseError::UnexpectedTrailingCharacters { position: 21 })
    );
}

#[test]
fn decode_holds_the_day_against_its_month() {
    assert_eq!(Timestamp::decode("2023-02-29 00:00:00.0"), Err(TimestampParseError::NoSuchDay));
    assert_eq!(Timestamp::decode("1900-02-29 00:00:00.0"), Err(TimestampParseError::NoSuchDay));
    assert_eq!(Timestamp::decode("2024-04-31 00:00:00.0"), Err(TimestampParseError::NoSuchDay));
    assert!(Timestamp::decode("2000-02-29 00:00:00.0").is_ok());
    assert!(Timestamp::decode("2024-02-29 00:00:00.0").is_ok());
}

#[test]
fn new_accepts_what_the_calendar_has() {
    assert!(Timestamp::new(date_time(2024, 2, 29, 0, 0, 0, 0)).is_some());
    assert!(Timestamp::new(date_time(2023, 2, 29, 0, 0, 0, 0)).is_none());
    assert!(Timestamp::new(date_time(2100, 2, 29, 0, 0, 0, 0)).is_none());
    assert!(Timestamp::new(date_time(2400, 2, 29, 0, 0, 0, 0)).is_some());
    assert!(Timestamp::new(date_time(2024, 0, 1, 0, 0, 0, 0)).is_none());
    assert!(Timestamp::new(date_time(2024, 13, 1, 0, 0, 0, 0)).is_none());
    assert!(Timestamp::new(date_time(2024, 1, 0, 0, 0, 0, 0)).is_none());
    assert!(Timestamp::new(date_time(2024, 1, 32, 0, 0, 0, 0)).is_none());
    assert!(Timestamp::new(date_time(2024, 6, 31, 0, 0, 0, 0)).is_none());
    assert!(Timestamp::new(date_time(10_000, 1, 1, 0, 0, 0, 0)).is_none());
    assert!(Timestamp::new(date_time(-10_000, 1, 1, 0, 0, 0, 0)).is_none());
    assert!(Timestamp::new(date_time(2024, 1, 1, 24, 0, 0, 0)).is_none());
    assert!(Timestamp::new(date_time(2024, 1, 1, 0, 60, 0, 0)).is_none());
    assert!(Timestamp::new(date_time(2024, 1, 1, 0, 0, 60, 0)).is_none());
    assert!(Timestamp::new(date_time(2024, 1, 1, 0, 0, 0, 1_000_000_000)).is_none());
    assert!(DateTime::validate(&date_time(2024, 12, 31, 23, 59, 59, 999_999_999)));
}

#[test]
fn order_and_equality_use_full_precision() {
    let earlier = timestamp(2024, 1, 1, 0, 0, 0, 100_000_000);
    let later = timestamp(2024, 1, 1, 0, 0, 0, 100_000_001);
    assert!(earlier < later);
    assert_ne!(earlier, later);
    assert!(timestamp(2023, 12, 31, 23, 59, 59, 999_999_999) < earlier);
    assert!(timestamp(-1, 12, 31, 0, 0, 0, 0) < timestamp(0, 1, 1, 0, 0, 0, 0));
    assert_eq!(earlier, timestamp(2024, 1, 1, 0, 0, 0, 100_000_000));
}

#[test]
fn messages_describe_the_failure() {
    assert_eq!(
        TimestampParseError::InvalidComponent {
            component: TimestampComponent::Month,
            position: 5
        }
        .message(),
        "the 'month' component could not be parsed"
    );
    assert_eq!(
        TimestampParseError::InvalidComponent {
            component: TimestampComponent::Subsecond,
            position: 20
        }
        .message(),
        "the 'subsecond' component could not be parsed"
    );
    assert_eq!(
        TimestampParseError::InvalidLiteral { position: 4 }.message(),
        "a character literal was not valid"
    );
    assert_eq!(
        TimestampParseError::UnexpectedTrailingCharacters { position: 21 }.message(),
        "unexpected trailing characters; the end of input was expected"
    );
    assert_eq!(
        TimestampParseError::NoSuchDay.message(),
        "the 'day' component is out of range for its month"
    );
    assert_eq!(TimestampComponent::Year.as_str(), "year");
    assert_eq!(TimestampComponent::Day.as_str(), "day");
    assert_eq!(TimestampComponent::Hour.as_str(), "hour");
    assert_eq!(TimestampComponent::Minute.as_str(), "minute");
    assert_eq!(TimestampComponent::Second.as_str(), "second");
}

#[test]
fn partial_cmp_goes_by_the_first_field_that_differs() {
    let base = date_time(2024, 6, 15, 12, 30, 30, 500);
    let later = [
        date_time(2025, 1, 1, 0, 0, 0, 0),
        date_time(2024, 7, 1, 0, 0, 0, 0),
        date_time(2024, 6, 16, 0, 0, 0, 0),
        date_time(2024, 6, 15, 13, 0, 0, 0),
        date_time(2024, 6, 15, 12, 31, 0, 0),
        date_time(2024, 6, 15, 12, 30, 31, 0),
        date_time(2024, 6, 15, 12, 30, 30, 501),
    ];
    let a = Timestamp::new(base).expect("exists");
    for t in later {
        let b = Timestamp::new(t).expect("exists");
        assert_eq!(a.partial_cmp(&b), Some(Ordering::Less));
        assert_eq!(b.partial_cmp(&a), Some(Ordering::Greater));
        assert_eq!(a.cmp(&b), Ordering::Less);
        assert!(a < b && b > a && a != b);
    }
    assert_eq!(a.partial_cmp(&a), Some(Ordering::Equal));
    assert_eq!(
        change_model::chronology::compare_date_times(&base, &later[0]),
        Ordering::Less
    );
}

#[test]
fn read_timestamp_reads_bytes() {
    assert_eq!(
        change_model::timestamp_text::read_timestamp(b"2024-03-09 07:08:09.25"),
        Ok(date_time(2024, 3, 9, 7, 8, 9, 250_000_000))
    );
    assert_eq!(
        change_model::timestamp_text::read_timestamp(&[0xff, 0xfe]),
        Err(TimestampParseError::InvalidComponent {
            component: TimestampComponent::Year,
            position: 0
        })
    );
    assert_eq!(
        change_model::timestamp_text::read_timestamp(b"2024-02-30 07:08:09.25"),
        Err(TimestampParseError::NoSuchDay)
    );
}
