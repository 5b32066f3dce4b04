use dualis_timetable::date::{
    format_dmy, push_hms_compact, push_ymd_compact, CalDate, ClockTime, IsoWeek, Weekday,
};
use dualis_timetable::num::{
    decimal_chars, parse_i32, parse_u16, parse_u32, parse_u64, push_int, push_padded, push_year,
};

fn chars(s: &str) -> Vec<char> {
    s.chars().collect()
}

#[test]
fn dates_render_like_chrono() {
    assert_eq!(format_dmy(&CalDate { year: 2024, month: 1, day: 8 }), "08.01.2024");
    assert_eq!(format_dmy(&CalDate { year: 5, month: 12, day: 31 }), "31.12.0005");
    assert_eq!(format_dmy(&CalDate { year: 12345, month: 3, day: 4 }), "04.03.+12345");
    assert_eq!(format_dmy(&CalDate { year: -5, month: 3, day: 4 }), "04.03.-0005");
    let mut s = String::from("D:");
    push_ymd_compact(&mut s, &CalDate { year: 2024, month: 3, day: 2 });
    assert_eq!(s, "D:20240302");
}

#[test]
fn times_render_like_chrono() {
    let mut s = String::new();
    push_hms_compact(&mut s, &ClockTime { hour: 9, minute: 5, second: 0, nanosecond: 0 });
    assert_eq!(s, "090500");
    let mut s = String::new();
    push_hms_compact(
        &mut s,
        &ClockTime { hour: 23, minute: 59, second: 59, nanosecond: 1_000_000_000 },
    );
    assert_eq!(s, "235960");
}

#[test]
fn weeks_render_and_compare() {
    assert_eq!(IsoWeek { year: 2024, week: 5 }.to_text(), "2024-W05");
    assert_eq!(IsoWeek { year: 2020, week: 53 }.to_text(), "2020-W53");
    assert_eq!(IsoWeek { year: -5, week: 3 }.to_text(), "-5-W03");
    let a = IsoWeek { year: 2024, week: 52 };
    let b = IsoWeek { year: 2025, week: 1 };
    assert!(b.is_after(&a));
    assert!(!a.is_after(&b));
    assert!(!a.is_after(&a));
}

#[test]
fn dates_compare_chronologically() {
    let a = CalDate { year: 2024, month: 1, day: 31 };
    let b = CalDate { year: 2024, month: 2, day: 1 };
    assert!(b.is_after(&a));
    assert!(!a.is_after(&b));
    assert!(!a.is_after(&a));
    assert!(CalDate { year: 2025, month: 1, day: 1 }.is_after(&b));
}

#[test]
fn weekdays_count_from_monday() {
    assert_eq!(Weekday::Mon.days_from_monday(), 0);
    assert_eq!(Weekday::Thu.days_from_monday(), 3);
    assert_eq!(Weekday::Sun.days_from_monday(), 6);
}

#[test]
fn numbers_render_in_decimal() {
    assert_eq!(decimal_chars(0), vec!['0']);
    assert_eq!(decimal_chars(1234), vec!['1', '2', '3', '4']);
    let mut s = String::new();
    push_padded(&mut s, 7, 3);
    push_padded(&mut s, 1234, 2);
    assert_eq!(s, "0071234");
    let mut s = String::new();
    push_int(&mut s, -42);
    push_int(&mut s, i64::MIN);
    assert_eq!(s, "-42-9223372036854775808");
    let mut s = String::new();
    push_year(&mut s, 99);
    push_year(&mut s, -262143);
    assert_eq!(s, "0099-262143");
}

#[test]
fn unsigned_parsing_matches_str_parse() {
    assert_eq!(parse_u16(&chars("65535")), Some(65535));
    assert_eq!(parse_u16(&chars("65536")), None);
    assert_eq!(parse_u16(&chars("+7")), Some(7));
    assert_eq!(parse_u16(&chars("-0")), None);
    assert_eq!(parse_u16(&chars("")), None);
    assert_eq!(parse_u16(&chars("+")), None);
    assert_eq!(parse_u16(&chars("007")), Some(7));
    assert_eq!(parse_u32(&chars("4294967295")), Some(u32::MAX));
    assert_eq!(parse_u32(&chars("4294967296")), None);
    assert_eq!(parse_u64(&chars("18446744073709551615")), Some(u64::MAX));
    assert_eq!(parse_u64(&chars("18446744073709551616")), None);
    assert_eq!(parse_u64(&chars("12a")), None);
    for s in ["0", "+12", "99999", "-1", " 1", "1 ", "1_000"] {
        assert_eq!(parse_u16(&chars(s)), s.parse::<u16>().ok(), "{s}");
    }
}

#[test]
fn signed_parsing_matches_str_parse() {
    assert_eq!(parse_i32(&chars("-2147483648")), Some(i32::MIN));
    assert_eq!(parse_i32(&chars("2147483647")), Some(i32::MAX));
    assert_eq!(parse_i32(&chars("2147483648")), None);
    assert_eq!(parse_i32(&chars("-2147483649")), None);
    assert_eq!(parse_i32(&chars("-")), None);
    assert_eq!(parse_i32(&chars("+2024")), Some(2024));
    for s in ["-0", "+-1", "--1", "12", "", "x"] {
        assert_eq!(parse_i32(&chars(s)), s.parse::<i32>().ok(), "{s}");
    }
}
