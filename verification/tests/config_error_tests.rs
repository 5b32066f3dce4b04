use dualis_timetable::config::{Config, ConfigVars};
use dualis_timetable::error::AppError;

fn vars() -> ConfigVars {
    ConfigVars {
        api_key: Some("key".to_string()),
        dualis_username: Some("user".to_string()),
        dualis_password: Some("pass".to_string()),
        port: None,
        weeks_ahead: None,
        calendar_name: None,
        uid_domain: None,
        timezone: None,
        cache_ttl_seconds: None,
    }
}

fn problem(v: ConfigVars) -> String {
    match Config::from_vars(v) {
        Err(m) => m,
        Ok(_) => panic!("expected a configuration error"),
    }
}

#[test]
fn config_defaults() {
    let c = Config::from_vars(vars()).unwrap();
    assert_eq!(c.api_key, "key");
    assert_eq!(c.dualis_username, "user");
    assert_eq!(c.dualis_password, "pass");
    assert_eq!(c.port, 3000);
    assert_eq!(c.weeks_ahead, 2);
    assert_eq!(c.calendar_name, "Dualis Timetable");
    assert_eq!(c.uid_domain, "schedule-sync.local");
    assert_eq!(c.timezone, "Europe/Berlin");
    assert_eq!(c.cache_ttl_seconds, 3600);
}

#[test]
fn config_given_values() {
    let mut v = vars();
    v.port = Some("8080".to_string());
    v.weeks_ahead = Some("+4".to_string());
    v.calendar_name = Some("Kurs".to_string());
    v.uid_domain = Some("example.org".to_string());
    v.timezone = Some("UTC".to_string());
    v.cache_ttl_seconds = Some("0".to_string());
    let c = Config::from_vars(v).unwrap();
    assert_eq!(c.port, 8080);
    assert_eq!(c.weeks_ahead, 4);
    assert_eq!(c.calendar_name, "Kurs");
    assert_eq!(c.uid_domain, "example.org");
    assert_eq!(c.timezone, "UTC");
    assert_eq!(c.cache_ttl_seconds, 0);
}

#[test]
fn config_missing_required_variables() {
    let mut v = vars();
    v.api_key = None;
    v.dualis_username = None;
    assert_eq!(problem(v), "Missing required env var: API_KEY");
    let mut v = vars();
    v.dualis_username = None;
    assert_eq!(problem(v), "Missing required env var: DUALIS_USERNAME");
    let mut v = vars();
    v.dualis_password = None;
    assert_eq!(problem(v), "Missing required env var: DUALIS_PASSWORD");
}

#[test]
fn config_numbers_must_parse() {
    let mut v = vars();
    v.port = Some("abc".to_string());
    assert_eq!(problem(v), "PORT must be a number");
    let mut v = vars();
    v.port = Some("65536".to_string());
    assert_eq!(problem(v), "PORT must be a number");
    let mut v = vars();
    v.weeks_ahead = Some("-1".to_string());
    assert_eq!(problem(v), "WEEKS_AHEAD must be a number");
    let mut v = vars();
    v.cache_ttl_seconds = Some("1h".to_string());
    assert_eq!(problem(v), "CACHE_TTL_SECONDS must be a number");
    let mut v = vars();
    v.port = Some(" 80".to_string());
    assert_eq!(problem(v), "PORT must be a number");
}

#[test]
fn errors_map_to_status_and_message() {
    let e = AppError::Unauthorized;
    assert_eq!(e.status_code(), 401);
    assert_eq!(e.message(), "Unauthorized");
    let e = AppError::BadRequest("bad week".to_string());
    assert_eq!(e.status_code(), 400);
    assert_eq!(e.message(), "bad week");
    let e = AppError::LoginFailed("no login".to_string());
    assert_eq!(e.status_code(), 502);
    assert_eq!(e.message(), "no login");
    let e = AppError::Parse("Invalid ISO week".to_string());
    assert_eq!(e.status_code(), 502);
    assert_eq!(e.message(), "Invalid ISO week");
}

#[test]
fn http_errors_are_bad_gateway() {
    let err = reqwest::Client::new().get("not a url").build().unwrap_err();
    let text = err.to_string();
    let e = AppError::Http(err);
    assert_eq!(e.status_code(), 502);
    assert_eq!(e.message(), text);
    assert!(!e.message().is_empty());
}
