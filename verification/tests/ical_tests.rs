use dualis_timetable::config::Config;
use dualis_timetable::dualis::{Day, Event, Timetable};
use dualis_timetable::ical::{
    build_calendar, build_calendar_at, escape_ical, fold_and_push, format_vevent, make_uid,
};

fn config() -> Config {
    Config {
        api_key: "key".to_string(),
        dualis_username: "user".to_string(),
        dualis_password: "pass".to_string(),
        port: 3000,
        weeks_ahead: 2,
        calendar_name: "Dualis Timetable".to_string(),
        uid_domain: "schedule-sync.local".to_string(),
        timezone: "Europe/Berlin".to_string(),
        cache_ttl_seconds: 3600,
    }
}

fn event(time: &str, title: &str) -> Event {
    Event {
        time: time.to_string(),
        title: title.to_string(),
        room: None,
        lecturer: None,
        event_type: None,
        is_exam: false,
    }
}

fn unfold(s: &str) -> String {
    s.replace("\r\n ", "")
}

#[test]
fn escape_ical_escapes_specials() {
    assert_eq!(escape_ical("a;b,c\\d\ne"), "a\\;b\\,c\\\\d\\ne");
    assert_eq!(escape_ical("plain"), "plain");
    assert_eq!(escape_ical(""), "");
}

#[test]
fn fold_short_line_is_unchanged() {
    let mut out = String::from("X");
    fold_and_push(&mut out, "SUMMARY:Mathe");
    assert_eq!(out, "XSUMMARY:Mathe\r\n");
    let mut out = String::new();
    fold_and_push(&mut out, "");
    assert_eq!(out, "\r\n");
}

#[test]
fn fold_exactly_75_octets_stays_on_one_line() {
    let line = "a".repeat(75);
    let mut out = String::new();
    fold_and_push(&mut out, &line);
    assert_eq!(out, format!("{line}\r\n"));
}

#[test]
fn fold_long_ascii_line() {
    let line = "b".repeat(200);
    let mut out = String::new();
    fold_and_push(&mut out, &line);
    let expected = format!(
        "{}\r\n {}\r\n {}\r\n",
        "b".repeat(75),
        "b".repeat(74),
        "b".repeat(51)
    );
    assert_eq!(out, expected);
    assert_eq!(unfold(&out), format!("{line}\r\n"));
}

#[test]
fn fold_never_splits_a_character_and_keeps_lines_short() {
    let line = format!("SUMMARY:{}", "Ü".repeat(60));
    let mut out = String::new();
    fold_and_push(&mut out, &line);
    for l in out.split("\r\n").filter(|l| !l.is_empty()) {
        assert!(l.len() <= 75, "line too long: {}", l.len());
    }
    assert_eq!(unfold(&out), format!("{line}\r\n"));
    // "SUMMARY:" is 8 octets, then 33 two-octet characters fit in 75.
    assert!(out.starts_with(&format!("SUMMARY:{}\r\n ", "Ü".repeat(33))));
}

#[test]
fn make_uid_builds_stable_slug() {
    assert_eq!(
        make_uid("08.01.2024", "Mathematik I (Übung)", 2, "example.org"),
        "08012024-mathematik-i--übung-2@example.org"
    );
    assert_eq!(make_uid("01.02.2024", "--A--", 0, "d"), "01022024-a-0@d");
}

#[test]
fn format_vevent_exact_output() {
    let mut ev = event("08:30 - 12:00", "Analysis; Teil 1");
    ev.room = Some("HOR-121".to_string());
    ev.is_exam = true;
    let v = format_vevent("08.01.2024", &ev, 0, &config(), "20240101T000000Z").unwrap();
    let expected = "BEGIN:VEVENT\r\n\
UID:08012024-analysis--teil-1-0@schedule-sync.local\r\n\
DTSTAMP:20240101T000000Z\r\n\
DTSTART;TZID=Europe/Berlin:20240108T083000\r\n\
DTEND;TZID=Europe/Berlin:20240108T120000\r\n\
SUMMARY:PRÜFUNG: Analysis\\; Teil 1\r\n\
LOCATION:HOR-121\r\n\
SEQUENCE:0\r\n\
END:VEVENT\r\n";
    assert_eq!(v, expected);
}

#[test]
fn format_vevent_with_type_and_lecturer() {
    let mut ev = event("9:05 - 10:00", "Physik");
    ev.room = Some("A1".to_string());
    ev.event_type = Some("Vorlesung".to_string());
    ev.lecturer = Some("Dr. X".to_string());
    let v = format_vevent("02.03.2024", &ev, 3, &config(), "S").unwrap();
    assert!(v.contains("DTSTART;TZID=Europe/Berlin:20240302T090500\r\n"));
    assert!(v.contains("LOCATION:A1 -- Vorlesung\r\n"));
    assert!(v.contains("DESCRIPTION:Lecturer: Dr. X\\\\nType: Vorlesung\r\n"));
    assert!(v.contains("UID:02032024-physik-3@schedule-sync.local\r\n"));
}

#[test]
fn format_vevent_rejects_unparsable_parts() {
    let c = config();
    assert!(format_vevent("2024-01-08", &event("08:30 - 12:00", "X"), 0, &c, "S").is_none());
    assert!(format_vevent("08.01.2024", &event("08:30", "X"), 0, &c, "S").is_none());
    assert!(format_vevent("08.01.2024", &event("25:30 - 12:00", "X"), 0, &c, "S").is_none());
    assert!(format_vevent("08.01.2024", &event("08:30 - 12:61", "X"), 0, &c, "S").is_none());
}

fn sample_timetable() -> Timetable {
    Timetable {
        week: "2024-W02".to_string(),
        prev_week: "2024-W01".to_string(),
        next_week: "2024-W03".to_string(),
        days: vec![Day {
            date: "08.01.2024".to_string(),
            weekday: "Monday".to_string(),
            events: vec![event("08:30 - 12:00", "Mathe"), event("bad", "Skipped")],
        }],
    }
}

#[test]
fn build_calendar_at_exact_output() {
    let mut c = config();
    c.timezone = "UTC".to_string();
    let cal = build_calendar_at(&[sample_timetable()], &c, "20240101T000000Z");
    let expected = "BEGIN:VCALENDAR\r\n\
VERSION:2.0\r\n\
PRODID:-//dualis-scraper//EN\r\n\
CALSCALE:GREGORIAN\r\n\
METHOD:PUBLISH\r\n\
X-WR-CALNAME:Dualis Timetable\r\n\
X-WR-TIMEZONE:UTC\r\n\
BEGIN:VEVENT\r\n\
UID:08012024-mathe-0@schedule-sync.local\r\n\
DTSTAMP:20240101T000000Z\r\n\
DTSTART;TZID=UTC:20240108T083000\r\n\
DTEND;TZID=UTC:20240108T120000\r\n\
SUMMARY:Mathe\r\n\
SEQUENCE:0\r\n\
END:VEVENT\r\n\
END:VCALENDAR\r\n";
    assert_eq!(cal, expected);
}

#[test]
fn build_calendar_includes_berlin_timezone() {
    let cal = build_calendar(&[sample_timetable()], &config());
    assert!(cal.starts_with("BEGIN:VCALENDAR\r\n"));
    assert!(cal.contains("BEGIN:VTIMEZONE\r\nTZID:Europe/Berlin\r\n"));
    assert!(cal.ends_with("END:VCALENDAR\r\n"));
    let stamp_line = cal.lines().find(|l| l.starts_with("DTSTAMP:")).unwrap();
    let stamp = &stamp_line["DTSTAMP:".len()..];
    assert_eq!(stamp.len(), 16);
    assert!(stamp.ends_with('Z'));
    assert_eq!(&stamp[8..9], "T");
}

#[test]
fn escaped_text_has_no_line_breaks_and_unescapes_back() {
    let raw = "Raum A;B\nGruppe 1,2\\3\n";
    let esc = escape_ical(raw);
    assert!(!esc.contains('\n'));
    let back = esc
        .replace("\\n", "\n")
        .replace("\\;", ";")
        .replace("\\,", ",")
        .replace("\\\\", "\\");
    assert_eq!(back, raw);
}

#[test]
fn escaped_text_never_holds_a_line_feed() {
    let esc = escape_ical("a\r\nb\n\n;\r");
    assert!(!esc.contains('\n'));
    assert_eq!(esc, "a\r\\nb\\n\\n\\;\r");
}
