use dualis_timetable::date::{IsoWeek, Weekday};
use dualis_timetable::dualis::{
    dualis_origin, extract_first_argument, extract_login_error, extract_scheduler_menu_no,
    german_weekday_index, login_failure, login_form, login_page_url, login_post_url,
    main_page_url, parse_refresh_url, parse_timetable, session_from_refresh, week_view_url_for,
    weekday_from_index, weekday_name, LoginStep, Session,
};
use dualis_timetable::error::AppError;

fn login_failed_message(e: AppError) -> String {
    match e {
        AppError::LoginFailed(m) => m,
        _ => panic!("expected a login failure"),
    }
}

#[test]
fn refresh_url_is_read_after_url_marker() {
    assert_eq!(parse_refresh_url("0; URL=/path/to/page").as_deref(), Some("/path/to/page"));
    assert_eq!(parse_refresh_url("0;URL=/p?a=b").as_deref(), Some("/p?a=b"));
    assert_eq!(parse_refresh_url("0; url= /a=b ").as_deref(), Some("/a=b"));
    assert_eq!(parse_refresh_url("URL=/only").as_deref(), Some("/only"));
    assert_eq!(parse_refresh_url("0; foo=1; URL=/second").as_deref(), Some("/second"));
}

#[test]
fn refresh_url_missing_or_empty_is_none() {
    assert_eq!(parse_refresh_url("0"), None);
    assert_eq!(parse_refresh_url(""), None);
    assert_eq!(parse_refresh_url("0; URL="), None);
    assert_eq!(parse_refresh_url("0; URL=   "), None);
    assert_eq!(parse_refresh_url("0; LOCATION=/x"), None);
}

#[test]
fn first_argument_is_the_session_token() {
    assert_eq!(
        extract_first_argument("ARGUMENTS=-N441417119100802,-N000019,").as_deref(),
        Some("441417119100802")
    );
    assert_eq!(
        extract_first_argument("/scripts/mgrqispi.dll?APPNAME=CampusNet&ARGUMENTS=-N12,-N3")
            .as_deref(),
        Some("12")
    );
    assert_eq!(extract_first_argument("ARGUMENTS=-N-N-N5,x").as_deref(), Some("5"));
    assert_eq!(extract_first_argument("a?ARGUMENTS=x&ARGUMENTS=y").as_deref(), Some("x&"));
    assert_eq!(extract_first_argument("ARGUMENTS=abc").as_deref(), Some("abc"));
}

#[test]
fn first_argument_absent_or_empty_is_none() {
    assert_eq!(extract_first_argument("/page?APPNAME=CampusNet"), None);
    assert_eq!(extract_first_argument("ARGUMENTS=,-N1"), None);
    assert_eq!(extract_first_argument("ARGUMENTS=-N,-N1"), None);
    assert_eq!(extract_first_argument("ARGUMENTS="), None);
}

#[test]
fn german_weekdays_map_to_indices() {
    assert_eq!(german_weekday_index("Montag Spalte 1"), Some(0));
    assert_eq!(german_weekday_index("Dienstag Spalte 1"), Some(1));
    assert_eq!(german_weekday_index("MITTWOCH"), Some(2));
    assert_eq!(german_weekday_index("donnerstag Spalte 3"), Some(3));
    assert_eq!(german_weekday_index("Freitag"), Some(4));
    assert_eq!(german_weekday_index("Samstag Spalte 2"), Some(5));
    assert_eq!(german_weekday_index("Sonntag"), Some(6));
    assert_eq!(german_weekday_index("Mo"), None);
    assert_eq!(german_weekday_index(""), None);
    assert_eq!(german_weekday_index(" Montag"), None);
}

#[test]
fn weekday_names_are_english() {
    assert_eq!(weekday_name(Weekday::Mon), "Monday");
    assert_eq!(weekday_name(Weekday::Sat), "Saturday");
    assert_eq!(weekday_name(Weekday::Sun), "Sunday");
    assert_eq!(weekday_from_index(0), Weekday::Mon);
    assert_eq!(weekday_from_index(4), Weekday::Fri);
    assert_eq!(weekday_from_index(6), Weekday::Sun);
}

const DASHBOARD: &str = r#"<html><body><ul>
<li><a href="/scripts/mgrqispi.dll?APPNAME=CampusNet&amp;PRGNAME=SCHEDULER&amp;ARGUMENTS=-N999,-N000011,">Other</a></li>
<li><a href="/scripts/mgrqispi.dll?APPNAME=CampusNet&amp;PRGNAME=MLSSTART&amp;ARGUMENTS=-N123456,-N000019,">Start</a></li>
<li><a href="/scripts/mgrqispi.dll?APPNAME=CampusNet&amp;PRGNAME=SCHEDULER&amp;ARGUMENTS=-N123456,-N000031,">Stundenplan</a></li>
</ul></body></html>"#;

#[test]
fn scheduler_menu_number_comes_from_the_session_link() {
    assert_eq!(extract_scheduler_menu_no(DASHBOARD, "123456").as_deref(), Some("000031"));
    assert_eq!(extract_scheduler_menu_no(DASHBOARD, "999").as_deref(), Some("000011"));
    assert_eq!(extract_scheduler_menu_no(DASHBOARD, "777"), None);
    assert_eq!(extract_scheduler_menu_no("<html></html>", "123456"), None);
}

#[test]
fn scheduler_link_without_second_argument_is_skipped() {
    let html = r#"<a href="x?PRGNAME=SCHEDULER&amp;ARGUMENTS=-N5">a</a>
<a href="x?PRGNAME=SCHEDULER&amp;ARGUMENTS=-N5,-N">b</a>
<a href="x?PRGNAME=SCHEDULER&amp;ARGUMENTS=-N5,-N42">c</a>"#;
    assert_eq!(extract_scheduler_menu_no(html, "5").as_deref(), Some("42"));
}

#[test]
fn login_error_message_is_quoted() {
    let html = r#"<html><body><div class="error">  Falsches Passwort  </div></body></html>"#;
    assert_eq!(
        extract_login_error(html).as_deref(),
        Some("Dualis says: \"Falsches Passwort\"")
    );
}

#[test]
fn login_error_skips_blank_matches_and_keeps_selector_order() {
    let html = r#"<p class="errors">   </p><span class="error">Zugang gesperrt</span>
<div class="errorMessage">Später</div>"#;
    assert_eq!(
        extract_login_error(html).as_deref(),
        Some("Dualis says: \"Später\"")
    );
    let html = r#"<p class="errors">   </p><span class="error">Zugang gesperrt</span>"#;
    assert_eq!(
        extract_login_error(html).as_deref(),
        Some("Dualis says: \"Zugang gesperrt\"")
    );
    assert_eq!(extract_login_error("<html><body><p>Hallo</p></body></html>"), None);
}

#[test]
fn login_failure_names_status_and_detail() {
    let e = login_failure("200 OK", "<html></html>");
    assert_eq!(
        login_failed_message(e),
        "No Refresh header after login (status 200 OK). Check DUALIS_USERNAME and DUALIS_PASSWORD in .env"
    );
    let e = login_failure("403 Forbidden", r#"<div class="errormessage">Nope</div>"#);
    assert_eq!(
        login_failed_message(e),
        "No Refresh header after login (status 403 Forbidden). Dualis says: \"Nope\""
    );
}

#[test]
fn session_comes_from_a_real_token() {
    let refresh = "0; URL=/scripts/mgrqispi.dll?APPNAME=CampusNet&PRGNAME=STARTPAGE_DISPATCH&ARGUMENTS=-N441417119100802,-N000019,-N000000000000000";
    match session_from_refresh(Some(refresh)) {
        LoginStep::LoggedIn(s) => assert_eq!(s.token, "441417119100802"),
        _ => panic!("expected a session"),
    }
}

#[test]
fn missing_refresh_reads_the_error_page() {
    assert!(matches!(session_from_refresh(None), LoginStep::ReadErrorPage));
    assert!(matches!(session_from_refresh(Some("0")), LoginStep::ReadErrorPage));
    assert!(matches!(session_from_refresh(Some("0; URL=")), LoginStep::ReadErrorPage));
}

#[test]
fn refresh_without_token_fails() {
    match session_from_refresh(Some("0; URL=/page")) {
        LoginStep::Failed(e) => assert_eq!(
            login_failed_message(e),
            "Could not extract session token from Refresh URL: /page"
        ),
        _ => panic!("expected a failure"),
    }
}

#[test]
fn placeholder_token_is_rejected() {
    match session_from_refresh(Some("0; URL=/x?ARGUMENTS=-N000000000000001,-N000324")) {
        LoginStep::Failed(e) => assert_eq!(
            login_failed_message(e),
            "Session token looks like a placeholder (000000000000001). Check credentials and try again."
        ),
        _ => panic!("expected a failure"),
    }
}

#[test]
fn login_urls_and_form() {
    assert_eq!(
        login_page_url(),
        "https://dualis.dhbw.de/scripts/mgrqispi.dll?APPNAME=CampusNet&PRGNAME=EXTERNALPAGES&ARGUMENTS=-N000000000000001,-N000324,-Awelcome"
    );
    assert_eq!(login_post_url(), "https://dualis.dhbw.de/scripts/mgrqispi.dll");
    assert_eq!(dualis_origin(), "https://dualis.dhbw.de");
    let form = login_form("alice", "s3cret");
    let pairs: Vec<(&str, &str)> = form.iter().map(|(k, v)| (k.as_str(), v.as_str())).collect();
    assert_eq!(
        pairs,
        vec![
            ("usrname", "alice"),
            ("pass", "s3cret"),
            ("APPNAME", "CampusNet"),
            ("PRGNAME", "LOGINCHECK"),
            ("ARGUMENTS", "clino,usrname,pass,menuno,menu_type,browser,platform"),
            ("clino", "000000000000001"),
            ("menuno", "000324"),
            ("menu_type", "classic"),
            ("browser", ""),
            ("platform", ""),
        ]
    );
}

#[test]
fn main_page_url_carries_the_token() {
    let s = Session { token: "42".to_string() };
    assert_eq!(
        main_page_url(&s),
        "https://dualis.dhbw.de/scripts/mgrqispi.dll?APPNAME=CampusNet&PRGNAME=MLSSTART&ARGUMENTS=-N42,-N000019,"
    );
}

#[test]
fn week_view_url_uses_menu_and_monday() {
    let s = Session { token: "123456".to_string() };
    let url = week_view_url_for(DASHBOARD, &s, IsoWeek { year: 2024, week: 2 }).unwrap();
    assert_eq!(
        url,
        "https://dualis.dhbw.de/scripts/mgrqispi.dll?APPNAME=CampusNet&PRGNAME=SCHEDULER&ARGUMENTS=-N123456,-N000031,-A08.01.2024,-A,-N1,-N000000000000000"
    );
    let url = week_view_url_for("<html></html>", &s, IsoWeek { year: 2021, week: 1 }).unwrap();
    assert_eq!(
        url,
        "https://dualis.dhbw.de/scripts/mgrqispi.dll?APPNAME=CampusNet&PRGNAME=SCHEDULER&ARGUMENTS=-N123456,-N000028,-A04.01.2021,-A,-N1,-N000000000000000"
    );
}

#[test]
fn week_view_url_of_missing_week_is_a_parse_error() {
    let s = Session { token: "1".to_string() };
    match week_view_url_for(DASHBOARD, &s, IsoWeek { year: 2021, week: 53 }) {
        Err(AppError::Parse(m)) => assert_eq!(m, "Invalid ISO week"),
        _ => panic!("expected a parse error"),
    }
}

const WEEK_VIEW: &str = r#"<html><body><table>
<tr>
<th class="tbtime time">08:00</th>
<td abbr="Montag Spalte 1"></td>
<td class="appointment" abbr="Montag Spalte 1" rowspan="14" style="BACKGROUND-COLOR:#FF6666;"><span class="timePeriod">08:30 - 12:00
                HOR-121</span><a class="link" href="/course"> Mathematik I </a></td>
<td class="appointment" abbr="Dienstag Spalte 1"><span class="timePeriod">10:00 - 11:00</span><a class="link">   </a></td>
<td class="appointment" abbr="Dienstag Spalte 1"><span class="timePeriod">
   13:00 - 14:30

   A-1
   extra</span><a class="link">Physik</a></td>
<td abbr="Mittwoch Spalte 1"><a class="link">Not an appointment</a></td>
<td class="appointment" abbr="Feiertag"><a class="link">Unknown day</a></td>
<td class="appointment" abbr="Samstag Spalte 1"><a class="link">Sport</a></td>
<td class="appointment" abbr="Montag Spalte 2"><span class="timePeriod">14:00 - 15:00</span><a class="link">Tutorium</a></td>
</tr>
</table></body></html>"#;

#[test]
fn parse_timetable_reads_the_week_view() {
    let t = parse_timetable(WEEK_VIEW, IsoWeek { year: 2024, week: 2 }).unwrap();
    assert_eq!(t.week, "2024-W02");
    assert_eq!(t.prev_week, "2024-W01");
    assert_eq!(t.next_week, "2024-W03");
    let names: Vec<&str> = t.days.iter().map(|d| d.weekday.as_str()).collect();
    assert_eq!(
        names,
        vec!["Monday", "Tuesday", "Wednesday", "Thursday", "Friday", "Saturday"]
    );
    let dates: Vec<&str> = t.days.iter().map(|d| d.date.as_str()).collect();
    assert_eq!(
        dates,
        vec!["08.01.2024", "09.01.2024", "10.01.2024", "11.01.2024", "12.01.2024", "13.01.2024"]
    );

    let monday = &t.days[0].events;
    assert_eq!(monday.len(), 2);
    assert_eq!(monday[0].time, "08:30 - 12:00");
    assert_eq!(monday[0].title, "Mathematik I");
    assert_eq!(monday[0].room.as_deref(), Some("HOR-121"));
    assert!(monday[0].is_exam);
    assert_eq!(monday[0].lecturer, None);
    assert_eq!(monday[0].event_type, None);
    assert_eq!(monday[1].title, "Tutorium");
    assert_eq!(monday[1].time, "14:00 - 15:00");
    assert_eq!(monday[1].room, None);
    assert!(!monday[1].is_exam);

    let tuesday = &t.days[1].events;
    assert_eq!(tuesday.len(), 1);
    assert_eq!(tuesday[0].title, "Physik");
    assert_eq!(tuesday[0].time, "13:00 - 14:30");
    assert_eq!(tuesday[0].room.as_deref(), Some("A-1"));

    assert!(t.days[2].events.is_empty());
    let saturday = &t.days[5].events;
    assert_eq!(saturday.len(), 1);
    assert_eq!(saturday[0].title, "Sport");
    assert_eq!(saturday[0].time, "");
    assert_eq!(saturday[0].room, None);
}

#[test]
fn parse_timetable_of_empty_page_lists_weekdays_only() {
    let t = parse_timetable("<html></html>", IsoWeek { year: 2020, week: 53 }).unwrap();
    assert_eq!(t.week, "2020-W53");
    assert_eq!(t.prev_week, "2020-W52");
    assert_eq!(t.next_week, "2021-W01");
    let names: Vec<&str> = t.days.iter().map(|d| d.weekday.as_str()).collect();
    assert_eq!(names, vec!["Monday", "Tuesday", "Wednesday", "Thursday", "Friday"]);
    assert_eq!(t.days[0].date, "28.12.2020");
    assert_eq!(t.days[4].date, "01.01.2021");
    assert!(t.days.iter().all(|d| d.events.is_empty()));
}

#[test]
fn parse_timetable_of_missing_week_fails() {
    match parse_timetable(WEEK_VIEW, IsoWeek { year: 2024, week: 60 }) {
        Err(AppError::Parse(m)) => assert_eq!(m, "Invalid ISO week"),
        _ => panic!("expected a parse error"),
    }
    assert!(matches!(
        parse_timetable("", IsoWeek { year: 2024, week: 0 }),
        Err(AppError::Parse(_))
    ));
}

#[test]
fn weeks_of_years_beyond_the_calendar_cannot_be_dated() {
    for year in [i32::MIN, i32::MAX, -300000, 300000] {
        assert!(matches!(
            parse_timetable("", IsoWeek { year, week: 1 }),
            Err(AppError::Parse(_))
        ));
        let s = Session { token: "1".to_string() };
        assert!(matches!(
            week_view_url_for("", &s, IsoWeek { year, week: 1 }),
            Err(AppError::Parse(_))
        ));
    }
}
