use dualis_timetable::config::Config;
use dualis_timetable::date::{CalDate, IsoWeek};
use dualis_timetable::error::AppError;
use dualis_timetable::routes::{
    bearer_authorized, calendar_plan, calendar_plan_on, parse_week, serve_from_cache,
    token_authorized, week_of_text, weeks_between, weeks_from, CalendarParams, CalendarPlan,
    TimetableParams,
};

fn w(year: i32, week: u32) -> IsoWeek {
    IsoWeek { year, week }
}

fn d(year: i32, month: u32, day: u32) -> CalDate {
    CalDate { year, month, day }
}

fn bad_request(r: Result<IsoWeek, AppError>) -> String {
    match r {
        Err(AppError::BadRequest(m)) => m,
        Err(_) => panic!("expected a bad request"),
        Ok(w) => panic!("expected a bad request, got {w:?}"),
    }
}

fn config() -> Config {
    Config {
        api_key: "secret".to_string(),
        dualis_username: "user".to_string(),
        dualis_password: "pass".to_string(),
        port: 3000,
        weeks_ahead: 2,
        calendar_name: "Dualis Timetable".to_string(),
        uid_domain: "schedule-sync.local".to_string(),
        timezone: "Europe/Berlin".to_string(),
        cache_ttl_seconds: 3600,
    }
}

fn params(token: Option<&str>, from: Option<&str>, to: Option<&str>) -> CalendarParams {
    CalendarParams {
        token: token.map(String::from),
        from: from.map(String::from),
        to: to.map(String::from),
    }
}

fn plan(r: Result<Option<CalendarPlan>, AppError>) -> CalendarPlan {
    match r {
        Ok(Some(p)) => p,
        _ => panic!("expected a plan"),
    }
}

fn plan_bad_request(r: Result<Option<CalendarPlan>, AppError>) -> String {
    match r {
        Err(AppError::BadRequest(m)) => m,
        _ => panic!("expected a bad request"),
    }
}

#[test]
fn bearer_header_must_carry_the_key() {
    assert!(bearer_authorized(Some("Bearer secret"), "secret"));
    assert!(!bearer_authorized(Some("Bearer secretx"), "secret"));
    assert!(!bearer_authorized(Some("Bearer secre"), "secret"));
    assert!(!bearer_authorized(Some("bearer secret"), "secret"));
    assert!(!bearer_authorized(Some("secret"), "secret"));
    assert!(!bearer_authorized(None, "secret"));
    assert!(bearer_authorized(Some("Bearer "), ""));
}

#[test]
fn calendar_token_must_be_the_key() {
    assert!(token_authorized(Some("secret"), "secret"));
    assert!(!token_authorized(Some("secret "), "secret"));
    assert!(!token_authorized(None, "secret"));
}

#[test]
fn parse_week_accepts_iso_forms() {
    assert_eq!(parse_week(Some("2024-W05")).unwrap(), w(2024, 5));
    assert_eq!(parse_week(Some("2024W05")).unwrap(), w(2024, 5));
    assert_eq!(parse_week(Some("2024-w05")).unwrap(), w(2024, 5));
    assert_eq!(parse_week(Some("week 2024-W05")).unwrap(), w(2024, 5));
    assert_eq!(parse_week(Some("2024--W05")).unwrap(), w(2024, 5));
    assert_eq!(parse_week(Some("2024-W+5")).unwrap(), w(2024, 5));
    assert_eq!(parse_week(Some("2020-W53")).unwrap(), w(2020, 53));
    assert_eq!(week_of_text("2025-W1").unwrap(), w(2025, 1));
}

#[test]
fn parse_week_accepts_year_dash_week() {
    assert_eq!(parse_week(Some("2024-05")).unwrap(), w(2024, 5));
    assert_eq!(parse_week(Some("2024--05")).unwrap(), w(2024, 5));
    assert_eq!(parse_week(Some("week 2020-53")).unwrap(), w(2020, 53));
    assert_eq!(week_of_text("2025-1").unwrap(), w(2025, 1));
}

#[test]
fn parse_week_reads_back_week_text() {
    for week in [w(2024, 5), w(2020, 53), w(2021, 1), w(0, 1), w(9999, 52)] {
        assert_eq!(parse_week(Some(&week.to_text())).unwrap(), week);
    }
}

#[test]
fn parse_week_rejects_other_forms() {
    assert_eq!(
        bad_request(parse_week(Some("202405"))),
        "week must be in ISO format, e.g. '2024-W05'"
    );
    assert_eq!(bad_request(parse_week(Some("2021-53"))), "Invalid ISO week: 2021-53");
    assert_eq!(bad_request(parse_week(Some("2024-5x"))), "Invalid week number in: 2024-5X");
    assert_eq!(
        bad_request(parse_week(Some("2024-05-01"))),
        "Invalid year in week: 2024-05-01"
    );
    assert_eq!(
        bad_request(parse_week(Some("300000-W01"))),
        "Invalid ISO week: 300000-W01"
    );
    assert_eq!(
        bad_request(parse_week(Some("abcW05"))),
        "week must be in ISO format, e.g. '2024-W05'"
    );
    assert_eq!(bad_request(parse_week(Some("2024-W60"))), "Invalid ISO week: 2024-W60");
    assert_eq!(bad_request(parse_week(Some("2021-W53"))), "Invalid ISO week: 2021-W53");
    assert_eq!(bad_request(parse_week(Some("2024-W00"))), "Invalid ISO week: 2024-W00");
    assert_eq!(
        bad_request(parse_week(Some("2024-Wxx"))),
        "Invalid week number in: 2024-WXX"
    );
    assert_eq!(bad_request(parse_week(Some("2024-W"))), "Invalid week number in: 2024-W");
    assert_eq!(
        bad_request(parse_week(Some("20x4-W05"))),
        "Invalid year in week: 20X4-W05"
    );
    assert_eq!(bad_request(parse_week(Some(""))), "week must be in ISO format, e.g. '2024-W05'");
}

#[test]
fn parse_week_defaults_to_the_current_week() {
    let week = parse_week(None).unwrap();
    assert!((1..=53).contains(&week.week));
    let params = TimetableParams { week: None };
    assert!(parse_week(params.week.as_deref()).is_ok());
}

#[test]
fn weeks_between_covers_both_ends() {
    assert_eq!(
        weeks_between(&d(2024, 1, 8), &d(2024, 1, 22)).unwrap(),
        vec![w(2024, 2), w(2024, 3), w(2024, 4)]
    );
    assert_eq!(
        weeks_between(&d(2024, 1, 10), &d(2024, 1, 14)).unwrap(),
        vec![w(2024, 2)]
    );
    assert_eq!(
        weeks_between(&d(2024, 1, 14), &d(2024, 1, 15)).unwrap(),
        vec![w(2024, 2), w(2024, 3)]
    );
}

#[test]
fn weeks_between_crosses_the_year() {
    assert_eq!(
        weeks_between(&d(2020, 12, 28), &d(2021, 1, 11)).unwrap(),
        vec![w(2020, 53), w(2021, 1), w(2021, 2)]
    );
    assert_eq!(
        weeks_between(&d(2024, 12, 23), &d(2025, 1, 1)).unwrap(),
        vec![w(2024, 52), w(2025, 1)]
    );
}

#[test]
fn weeks_between_backwards_gives_the_first_week() {
    assert_eq!(
        weeks_between(&d(2024, 2, 1), &d(2024, 1, 1)).unwrap(),
        vec![w(2024, 5)]
    );
}

#[test]
fn weeks_from_counts_forward() {
    assert_eq!(
        weeks_from(&d(2024, 1, 10), 2).unwrap(),
        vec![w(2024, 2), w(2024, 3), w(2024, 4)]
    );
    assert_eq!(weeks_from(&d(2024, 1, 10), 0).unwrap(), vec![w(2024, 2)]);
    assert_eq!(
        weeks_from(&d(2024, 12, 25), 1).unwrap(),
        vec![w(2024, 52), w(2025, 1)]
    );
    assert_eq!(weeks_from(&d(2024, 3, 1), 10).unwrap().len(), 11);
}

#[test]
fn weeks_past_the_calendar_range_are_none() {
    assert_eq!(weeks_from(&d(262142, 12, 31), 1), None);
}

#[test]
fn calendar_needs_the_token() {
    let c = config();
    let today = d(2024, 1, 10);
    assert!(matches!(
        calendar_plan_on(&params(None, None, None), &c, &today),
        Err(AppError::Unauthorized)
    ));
    assert!(matches!(
        calendar_plan_on(&params(Some("wrong"), Some("bad"), None), &c, &today),
        Err(AppError::Unauthorized)
    ));
    assert!(matches!(
        calendar_plan(&params(Some("nope"), None, None), &c),
        Err(AppError::Unauthorized)
    ));
}

#[test]
fn calendar_rejects_bad_dates() {
    let c = config();
    let today = d(2024, 1, 10);
    assert_eq!(
        plan_bad_request(calendar_plan_on(&params(Some("secret"), Some("2024-13-01"), None), &c, &today)),
        "Invalid 'from' date: 2024-13-01. Expected YYYY-MM-DD"
    );
    assert_eq!(
        plan_bad_request(calendar_plan_on(&params(Some("secret"), None, Some("08.01.2024")), &c, &today)),
        "Invalid 'to' date: 08.01.2024. Expected YYYY-MM-DD"
    );
    assert_eq!(
        plan_bad_request(calendar_plan_on(
            &params(Some("secret"), Some("2024-02-01"), Some("2024-01-01")),
            &c,
            &today
        )),
        "'from' must be before or equal to 'to'"
    );
}

#[test]
fn calendar_range_with_both_ends() {
    let c = config();
    let p = plan(calendar_plan_on(
        &params(Some("secret"), Some("2024-01-08"), Some("2024-01-22")),
        &c,
        &d(2030, 6, 1),
    ));
    assert_eq!(p.weeks, vec![w(2024, 2), w(2024, 3), w(2024, 4)]);
    assert!(!p.use_cache);
    let p = plan(calendar_plan_on(
        &params(Some("secret"), Some("2024-01-08"), Some("2024-01-08")),
        &c,
        &d(2030, 6, 1),
    ));
    assert_eq!(p.weeks, vec![w(2024, 2)]);
}

#[test]
fn calendar_range_with_one_end() {
    let c = config();
    let p = plan(calendar_plan_on(&params(Some("secret"), Some("2024-01-10"), None), &c, &d(2030, 6, 1)));
    assert_eq!(p.weeks, vec![w(2024, 2), w(2024, 3), w(2024, 4)]);
    assert!(!p.use_cache);
    let p = plan(calendar_plan_on(&params(Some("secret"), None, Some("2024-01-24")), &c, &d(2030, 6, 1)));
    assert_eq!(p.weeks, vec![w(2024, 2), w(2024, 3), w(2024, 4)]);
    assert!(!p.use_cache);
    let p = plan(calendar_plan_on(&params(Some("secret"), None, Some("2021-01-06")), &c, &d(2030, 6, 1)));
    assert_eq!(p.weeks, vec![w(2020, 52), w(2020, 53), w(2021, 1)]);
}

#[test]
fn calendar_default_range_uses_the_cache() {
    let mut c = config();
    c.weeks_ahead = 1;
    let p = plan(calendar_plan_on(&params(Some("secret"), None, None), &c, &d(2024, 12, 31)));
    assert_eq!(p.weeks, vec![w(2025, 1), w(2025, 2)]);
    assert!(p.use_cache);
    let p = plan(calendar_plan(&params(Some("secret"), None, None), &c));
    assert_eq!(p.weeks.len(), 2);
    assert!(p.use_cache);
}

#[test]
fn calendar_range_beyond_the_calendar_is_none() {
    let c = config();
    let r = calendar_plan_on(&params(Some("secret"), Some("+262142-12-30"), None), &c, &d(2024, 1, 1));
    assert!(matches!(r, Ok(None)));
}

#[test]
fn cache_serves_only_fresh_default_requests() {
    assert!(serve_from_cache(true, Some(10), 3600));
    assert!(!serve_from_cache(true, Some(3600), 3600));
    assert!(!serve_from_cache(true, None, 3600));
    assert!(!serve_from_cache(false, Some(10), 3600));
    assert!(!serve_from_cache(true, Some(0), 0));
}

#[test]
fn weeks_between_ends_at_the_last_week_without_gaps() {
    let ws = weeks_between(&d(2020, 11, 30), &d(2021, 2, 3)).unwrap();
    assert_eq!(ws.first(), Some(&w(2020, 49)));
    assert_eq!(ws.last(), Some(&w(2021, 5)));
    assert_eq!(ws.len(), 10);
    for pair in ws.windows(2) {
        let (a, b) = (pair[0], pair[1]);
        assert!(b == w(a.year, a.week + 1) || (b == w(a.year + 1, 1) && a.week >= 52));
    }
}
