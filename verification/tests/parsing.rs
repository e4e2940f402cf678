use netflow_agg::address::read_ipv4;
use netflow_agg::date::{month_table, read_date, route_table, Date};
use netflow_agg::key::{read_moment, AggregationKey};
use netflow_agg::text::{append_numeral, append_padded, chars_of, read_number, split_chars};

fn chars(s: &str) -> Vec<char> {
    s.chars().collect()
}

#[test]
fn dotted_quads() {
    assert_eq!(read_ipv4("0.0.0.0"), Some(0));
    assert_eq!(read_ipv4("255.255.255.255"), Some(u32::MAX));
    assert_eq!(read_ipv4("140.125.1.2"), Some(0x8c7d0102));
    assert_eq!(read_ipv4("1.2.3.4"), Some(0x01020304));
    assert_eq!(read_ipv4("10.0.200.99"), Some(0x0a00c863));
}

#[test]
fn texts_that_are_no_dotted_quads() {
    for text in [
        "",
        "1.2.3",
        "1.2.3.4.5",
        "1.2.3.",
        ".1.2.3",
        "1..2.3",
        "256.1.1.1",
        "1.1.1.999",
        "01.2.3.4",
        "1.2.3.04",
        "1.2.3.4 ",
        " 1.2.3.4",
        "1.2.3.a",
        "1.2.3.-4",
        "1.2.3.+4",
        "1.2.3.0004",
        "::1",
        "١.٢.٣.٤",
    ] {
        assert_eq!(read_ipv4(text), None, "{:?}", text);
    }
    assert_eq!(read_ipv4("0.00.0.0"), None);
    assert_eq!(read_ipv4("0.0.0.0"), Some(0));
}

#[test]
fn chrono_reads_the_date() {
    let date = read_date("2024-05-01").unwrap();
    assert_eq!((date.year(), date.month(), date.day()), (2024, 5, 1));
    let leap = read_date("2024-02-29").unwrap();
    assert_eq!((leap.year(), leap.month(), leap.day()), (2024, 2, 29));
    let last = read_date("9999-12-31").unwrap();
    assert_eq!((last.year(), last.month(), last.day()), (9999, 12, 31));
    assert!(read_date("2023-02-29").is_none());
    assert!(read_date("2024-13-01").is_none());
    assert!(read_date("2024-00-10").is_none());
    assert!(read_date("2024-04-31").is_none());
    assert!(read_date("").is_none());
    assert!(read_date("yesterday").is_none());
    assert!(read_date("2024-05-01T10:00:00").is_none());
    assert!(read_date("+12024-05-01").is_none());
    assert!(read_date("-0001-05-01").is_none());
}

#[test]
fn dates_of_the_calendar() {
    assert!(Date::new(2024, 2, 29).is_some());
    assert!(Date::new(2023, 2, 29).is_none());
    assert!(Date::new(1900, 2, 29).is_none());
    assert!(Date::new(2000, 2, 29).is_some());
    assert!(Date::new(2024, 4, 30).is_some());
    assert!(Date::new(2024, 4, 31).is_none());
    assert!(Date::new(2024, 12, 31).is_some());
    assert!(Date::new(2024, 0, 1).is_none());
    assert!(Date::new(2024, 13, 1).is_none());
    assert!(Date::new(2024, 1, 0).is_none());
    assert!(Date::new(2024, 1, 32).is_none());
    assert!(Date::new(0, 1, 1).is_some());
    assert!(Date::new(-1, 1, 1).is_none());
    assert!(Date::new(9999, 12, 31).is_some());
    assert!(Date::new(10000, 1, 1).is_none());
    let date = Date::new(2024, 5, 1).unwrap();
    assert_eq!((date.year(), date.month(), date.day()), (2024, 5, 1));
}

#[test]
fn moments_of_timestamps() {
    let (date, hour) = read_moment("2024-05-01T10:15:00").unwrap();
    assert_eq!((date.year(), date.month(), date.day(), hour), (2024, 5, 1, 10));
    let (_, hour) = read_moment("2024-05-01T00:00:00.000").unwrap();
    assert_eq!(hour, 0);
    let (_, hour) = read_moment("2024-05-01T23:59:59").unwrap();
    assert_eq!(hour, 23);
    let (_, hour) = read_moment("2024-05-01T7").unwrap();
    assert_eq!(hour, 7);
    let (_, hour) = read_moment("2024-05-01T007:30").unwrap();
    assert_eq!(hour, 7);
    let (_, hour) = read_moment("2024-05-01T09T10:30").unwrap();
    assert_eq!(hour, 9);
    assert!(read_moment("2024-05-01T24:00:00").is_none());
    assert!(read_moment("2024-05-01T:00:00").is_none());
    assert!(read_moment("2024-05-01T1a:00:00").is_none());
    assert!(read_moment("2024-05-01").is_none());
    assert!(read_moment("2024-05-32T10:00:00").is_none());
    assert!(read_moment("T10").is_none());
    assert!(read_moment("").is_none());
}

#[test]
fn keys_take_hours_of_the_day_only() {
    let date = Date::new(2024, 5, 1).unwrap();
    assert!(AggregationKey::new(1, date, 0).is_some());
    assert!(AggregationKey::new(1, date, 23).is_some());
    assert!(AggregationKey::new(1, date, 24).is_none());
    let key = AggregationKey::new(0x8c7d0102, date, 10).unwrap();
    assert_eq!(key.address(), 0x8c7d0102);
    assert_eq!(key.date(), date);
    assert_eq!(key.hour(), 10);
    assert_eq!(key.packed(), (((0x8c7d0102u128 << 16 | 2024) << 8 | 5) << 8 | 1) << 8 | 10);
    let other = AggregationKey::new(0x8c7d0102, date, 11).unwrap();
    assert_ne!(key.packed(), other.packed());
}

#[test]
fn table_of_a_month() {
    assert_eq!(month_table(2024, 5), "nf_2024_05");
    assert_eq!(month_table(2024, 12), "nf_2024_12");
    assert_eq!(month_table(987, 1), "nf_0987_01");
    assert_eq!(month_table(0, 1), "nf_0000_01");
    assert_eq!(month_table(9999, 12), "nf_9999_12");
}

#[test]
fn days_of_one_month_share_a_table() {
    let first = route_table(&Date::new(2024, 5, 1).unwrap());
    let last = route_table(&Date::new(2024, 5, 31).unwrap());
    let next = route_table(&Date::new(2024, 6, 1).unwrap());
    let other_year = route_table(&Date::new(2025, 5, 1).unwrap());
    assert_eq!(first, "nf_2024_05");
    assert_eq!(first, last);
    assert_eq!(next, "nf_2024_06");
    assert_ne!(first, next);
    assert_eq!(other_year, "nf_2025_05");
}

#[test]
fn numbers_are_read_up_to_a_limit() {
    assert_eq!(read_number(&chars("0"), 23), Some(0));
    assert_eq!(read_number(&chars("23"), 23), Some(23));
    assert_eq!(read_number(&chars("24"), 23), None);
    assert_eq!(read_number(&chars("0023"), 23), Some(23));
    assert_eq!(read_number(&chars(""), 23), None);
    assert_eq!(read_number(&chars("2x"), 23), None);
    assert_eq!(read_number(&chars("x2"), 23), None);
    assert_eq!(read_number(&chars("4294967295"), u32::MAX), Some(u32::MAX));
    assert_eq!(read_number(&chars("4294967296"), u32::MAX), None);
    assert_eq!(read_number(&chars("99999999999999999999999999"), u32::MAX), None);
    assert_eq!(read_number(&chars("٣"), 23), None);
}

#[test]
fn texts_are_split_at_every_separator() {
    let parts = split_chars(&chars("a.bc..d."), '.');
    let parts: Vec<String> = parts.iter().map(|part| part.iter().collect()).collect();
    assert_eq!(parts, vec!["a", "bc", "", "d", ""]);
    assert_eq!(split_chars(&chars(""), '.'), vec![Vec::<char>::new()]);
    assert_eq!(split_chars(&chars("abc"), '.'), vec![chars("abc")]);
    assert_eq!(chars_of("héllo"), chars("héllo"));
}

#[test]
fn numerals_are_written() {
    let mut out = String::from("$");
    append_numeral(&mut out, 0);
    append_numeral(&mut out, 7);
    append_numeral(&mut out, 700);
    append_numeral(&mut out, 1234567890);
    assert_eq!(out, "$077001234567890");
    let mut out = String::new();
    append_padded(&mut out, 5, 2);
    append_padded(&mut out, 2024, 4);
    append_padded(&mut out, 12345, 3);
    append_padded(&mut out, 9, 0);
    assert_eq!(out, "052024345");
}
