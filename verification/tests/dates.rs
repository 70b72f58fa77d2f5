use chrono::Datelike;
use quote_bot::date::{CalendarDate, DateError};

fn today() -> CalendarDate {
    let now = chrono::Utc::now().date_naive();
    CalendarDate { year: now.year(), month: now.month(), day: now.day() }
}

#[test]
fn bot_string_date_can_be_parsed() {
    let string_date = today().iso_text().unwrap();
    let date = CalendarDate::parse_iso(&string_date).unwrap();
    assert_eq!(date, today());
    assert_eq!(string_date, date.iso_text().unwrap());
}

#[test]
fn lib_string_date_can_be_parsed() {
    let string_date = today().iso_text().unwrap();
    let date = CalendarDate::parse_iso(&string_date).unwrap();
    assert_eq!(string_date, format!("{}", date.iso_text().unwrap()));
}

#[test]
fn bot_string_date_can_be_parsed_into_correct_format() {
    let string_date = CalendarDate { year: 2015, month: 9, day: 5 }.iso_text().unwrap();
    let date = CalendarDate::parse_iso(&string_date).unwrap().long_text().unwrap();
    assert_eq!("Sep 05, 2015", format!("{}", date));
}

#[test]
fn lib_string_date_can_be_parsed_into_correct_format() {
    let string_date = CalendarDate { year: 2015, month: 9, day: 5 }.iso_text().unwrap();
    assert_eq!(string_date, "2015-09-05");
    let date = CalendarDate::parse_iso(&string_date).unwrap().long_text().unwrap();
    assert_eq!("Sep 05, 2015", format!("{}", date));
}

#[test]
fn stored_date_is_read_into_its_parts() {
    assert_eq!(
        CalendarDate::parse_iso("2024-02-29"),
        Ok(CalendarDate { year: 2024, month: 2, day: 29 })
    );
    assert_eq!(
        CalendarDate::parse_iso("1999-12-31"),
        Ok(CalendarDate { year: 1999, month: 12, day: 31 })
    );
}

#[test]
fn malformed_stored_date_is_refused() {
    assert_eq!(CalendarDate::parse_iso("yesterday"), Err(DateError::Malformed));
    assert_eq!(CalendarDate::parse_iso(""), Err(DateError::Malformed));
    assert_eq!(CalendarDate::parse_iso("2015-02-30"), Err(DateError::Malformed));
    assert_eq!(CalendarDate::parse_iso("2015-09-05UTC"), Err(DateError::Malformed));
}

#[test]
fn days_that_do_not_exist_are_not_rendered() {
    assert_eq!(CalendarDate { year: 2015, month: 2, day: 29 }.long_text(), Err(DateError::NoSuchDay));
    assert_eq!(CalendarDate { year: 2015, month: 13, day: 1 }.long_text(), Err(DateError::NoSuchDay));
    assert_eq!(CalendarDate { year: 2015, month: 0, day: 1 }.iso_text(), Err(DateError::NoSuchDay));
    assert_eq!(CalendarDate { year: 2015, month: 4, day: 31 }.iso_text(), Err(DateError::NoSuchDay));
    assert_eq!(CalendarDate { year: 2015, month: 4, day: 0 }.iso_text(), Err(DateError::NoSuchDay));
    assert_eq!(CalendarDate { year: 262143, month: 1, day: 1 }.iso_text(), Err(DateError::NoSuchDay));
    assert_eq!(CalendarDate { year: -262144, month: 1, day: 1 }.iso_text(), Err(DateError::NoSuchDay));
}

#[test]
fn days_at_the_edges_are_rendered() {
    assert_eq!(CalendarDate { year: 2000, month: 2, day: 29 }.long_text().unwrap(), "Feb 29, 2000");
    assert_eq!(CalendarDate { year: 1900, month: 2, day: 28 }.iso_text().unwrap(), "1900-02-28");
    assert_eq!(CalendarDate { year: 1900, month: 2, day: 29 }.iso_text(), Err(DateError::NoSuchDay));
    assert_eq!(CalendarDate { year: -4, month: 2, day: 29 }.iso_text().unwrap(), "-0004-02-29");
    assert!(CalendarDate { year: 262142, month: 12, day: 31 }.iso_text().is_ok());
    assert!(CalendarDate { year: -262143, month: 1, day: 1 }.iso_text().is_ok());
    assert_eq!(CalendarDate { year: 2021, month: 12, day: 31 }.long_text().unwrap(), "Dec 31, 2021");
}
