use birthday_book::date::{read_date, Date, DateError};
use birthday_book::number::{push_decimal, read_number};

fn date_chars(s: &str) -> Vec<char> {
    s.chars().collect()
}

fn date_of(s: &str) -> Result<Date, DateError> {
    Date::convert_to_date(s.to_string())
}

#[test]
fn new_takes_day_month_year() {
    let d = Date::new(4, 3, 2000);
    assert_eq!(d.day, 4);
    assert_eq!(d.month, 3);
    assert_eq!(d.year, 2000);
}

#[test]
fn parse_reads_month_first() {
    assert_eq!(date_of("3/4/2000"), Ok(Date { day: 4, month: 3, year: 2000 }));
    assert_eq!(date_of("12/25/1990"), Ok(Date::new(25, 12, 1990)));
}

#[test]
fn format_writes_month_first() {
    assert_eq!(Date::new(4, 3, 2000).format(), "3/4/2000");
    assert_eq!(Date::new(25, 12, 1990).format(), "12/25/1990");
    assert_eq!(Date::new(0, 0, 0).format(), "0/0/0");
    assert_eq!(Date::new(10, 100, 1000).format(), "100/10/1000");
}

#[test]
fn dates_are_not_held_to_the_calendar() {
    let d = date_of("13/40/1999").unwrap();
    assert_eq!(d, Date::new(40, 13, 1999));
    assert_eq!(d.format(), "13/40/1999");
}

#[test]
fn format_then_parse_gives_the_date_back() {
    let dates = [
        Date::new(0, 0, 0),
        Date::new(1, 1, 1),
        Date::new(4, 3, 2000),
        Date::new(31, 12, 9999),
        Date::new(9, 10, 11),
        Date::new(99, 100, 101),
        Date::new(u32::MAX, u32::MAX, u32::MAX),
        Date::new(4294967295, 0, 1000000000),
    ];
    for d in dates {
        assert_eq!(date_of(&d.format()), Ok(d));
    }
}

#[test]
fn parse_then_format_then_parse_gives_the_same_date() {
    for text in ["3/4/2000", "003/04/02000", "+3/+4/+2000", "0/0/0", "13/40/1999"] {
        let d = date_of(text).unwrap();
        assert_eq!(date_of(&d.format()), Ok(d));
    }
    assert_eq!(date_of("003/04/02000").unwrap().format(), "3/4/2000");
}

#[test]
fn the_largest_number_is_read() {
    assert_eq!(
        date_of("4294967295/4294967295/4294967295"),
        Ok(Date::new(4294967295, 4294967295, 4294967295))
    );
    assert_eq!(Date::new(1, 4294967295, 2).format(), "4294967295/1/2");
}

#[test]
fn fewer_than_three_parts_is_an_error() {
    assert_eq!(date_of(""), Err(DateError::MissingSegment));
    assert_eq!(date_of("12"), Err(DateError::MissingSegment));
    assert_eq!(date_of("1/2"), Err(DateError::MissingSegment));
    assert_eq!(date_of("abc"), Err(DateError::MissingSegment));
    assert_eq!(date_of("x/2"), Err(DateError::MissingSegment));
}

#[test]
fn a_part_that_is_no_number_is_an_error() {
    assert_eq!(date_of("a/b/c"), Err(DateError::InvalidNumber));
    assert_eq!(date_of("1/2/x"), Err(DateError::InvalidNumber));
    assert_eq!(date_of("1//3"), Err(DateError::InvalidNumber));
    assert_eq!(date_of("/2/3"), Err(DateError::InvalidNumber));
    assert_eq!(date_of("1/2/"), Err(DateError::InvalidNumber));
    assert_eq!(date_of("//"), Err(DateError::InvalidNumber));
    assert_eq!(date_of("-1/2/3"), Err(DateError::InvalidNumber));
    assert_eq!(date_of("1.5/2/3"), Err(DateError::InvalidNumber));
    assert_eq!(date_of(" 1/2/3"), Err(DateError::InvalidNumber));
    assert_eq!(date_of("1/2/3 "), Err(DateError::InvalidNumber));
    assert_eq!(date_of("1/ 2/3"), Err(DateError::InvalidNumber));
    assert_eq!(date_of("+/2/3"), Err(DateError::InvalidNumber));
    assert_eq!(date_of("++1/2/3"), Err(DateError::InvalidNumber));
}

#[test]
fn a_number_too_large_is_an_error() {
    assert_eq!(date_of("4294967296/1/1"), Err(DateError::InvalidNumber));
    assert_eq!(date_of("1/99999999999999999999999999/1"), Err(DateError::InvalidNumber));
    assert_eq!(date_of("1/1/18446744073709551616"), Err(DateError::InvalidNumber));
}

#[test]
fn a_fourth_part_is_an_error() {
    assert_eq!(date_of("1/2/3/4"), Err(DateError::InvalidNumber));
    assert_eq!(date_of("1/2/3/"), Err(DateError::InvalidNumber));
}

#[test]
fn a_plus_sign_and_leading_zeros_are_read() {
    assert_eq!(date_of("+1/+2/+3"), Ok(Date::new(2, 1, 3)));
    assert_eq!(date_of("01/002/0003"), Ok(Date::new(2, 1, 3)));
    assert_eq!(date_of("0000000000000000000004294967295/0/0"), Ok(Date::new(0, 4294967295, 0)));
}

#[test]
fn equals_compares_all_three_fields() {
    let d = Date::new(1, 2, 3);
    assert!(d.equals(&Date::new(1, 2, 3)));
    assert!(!d.equals(&Date::new(9, 2, 3)));
    assert!(!d.equals(&Date::new(1, 9, 3)));
    assert!(!d.equals(&Date::new(1, 2, 9)));
    assert!(!d.equals(&Date::new(2, 1, 3)));
}

#[test]
fn as_line_joins_name_and_date() {
    let d = Date::new(4, 3, 2000);
    assert_eq!(d.as_line(&"Alice".to_string()), "Alice <--> 3/4/2000");
    assert_eq!(d.as_line(&String::new()), " <--> 3/4/2000");
}

#[test]
fn read_date_works_on_characters() {
    assert_eq!(read_date(&date_chars("7/8/9")), Ok(Date::new(8, 7, 9)));
    assert_eq!(read_date(&date_chars("7/8")), Err(DateError::MissingSegment));
    assert_eq!(read_date(&date_chars("7/8/é")), Err(DateError::InvalidNumber));
}

#[test]
fn read_number_reads_decimal() {
    assert_eq!(read_number(&date_chars("0")), Some(0));
    assert_eq!(read_number(&date_chars("7")), Some(7));
    assert_eq!(read_number(&date_chars("1990")), Some(1990));
    assert_eq!(read_number(&date_chars("+42")), Some(42));
    assert_eq!(read_number(&date_chars("00042")), Some(42));
    assert_eq!(read_number(&date_chars("4294967295")), Some(u32::MAX));
    assert_eq!(read_number(&date_chars("4294967296")), None);
    assert_eq!(read_number(&date_chars("42949672950")), None);
    assert_eq!(read_number(&date_chars("")), None);
    assert_eq!(read_number(&date_chars("+")), None);
    assert_eq!(read_number(&date_chars("-1")), None);
    assert_eq!(read_number(&date_chars("1a")), None);
    assert_eq!(read_number(&date_chars("a1")), None);
    assert_eq!(read_number(&date_chars("1+")), None);
    assert_eq!(read_number(&date_chars("１")), None);
}

#[test]
fn push_decimal_appends_the_digits() {
    let mut out = String::from("n=");
    push_decimal(&mut out, 0);
    assert_eq!(out, "n=0");
    push_decimal(&mut out, 9);
    push_decimal(&mut out, 10);
    push_decimal(&mut out, 1234567890);
    push_decimal(&mut out, u32::MAX);
    assert_eq!(out, "n=091012345678904294967295");
}
