//! Service configuration and how it is read from its variables.
use vstd::prelude::*;
use crate::num::{parse_in_range, parse_u16, parse_u32, parse_u64};
use crate::text::chars_of;

verus! {

/// The settings of the service.
#[derive(Clone, Debug)]
pub struct Config {
    pub api_key: String,
    pub dualis_username: String,
    pub dualis_password: String,
    pub port: u16,
    pub weeks_ahead: u32,
    pub calendar_name: String,
    pub uid_domain: String,
    pub timezone: String,
    pub cache_ttl_seconds: u64,
}

/// The raw values of the configuration variables, `None` where a variable is unset.
pub struct ConfigVars {
    pub api_key: Option<String>,
    pub dualis_username: Option<String>,
    pub dualis_password: Option<String>,
    pub port: Option<String>,
    pub weeks_ahead: Option<String>,
    pub calendar_name: Option<String>,
    pub uid_domain: Option<String>,
    pub timezone: Option<String>,
    pub cache_ttl_seconds: Option<String>,
}

/// The characters of an optional string, or of `default` when it is absent.
pub open spec fn or_default(v: Option<String>, default: Seq<char>) -> Seq<char> {
    match v {
        Some(s) => s@,
        None => default,
    }
}

/// `Missing required env var: <key>`.
pub open spec fn missing_text(key: Seq<char>) -> Seq<char> {
    "Missing required env var: "@ + key
}

/// The configuration that the variables describe, or the message of the first problem:
/// a required variable (`API_KEY`, `DUALIS_USERNAME`, `DUALIS_PASSWORD`) that is unset,
/// or a number (`PORT`, `WEEKS_AHEAD`, `CACHE_TTL_SECONDS`) that does not parse. Unset
/// optional variables take their defaults: port 3000, two weeks ahead, calendar
/// "Dualis Timetable", UID domain "schedule-sync.local", time zone "Europe/Berlin",
/// cache lifetime 3600 seconds.
pub open spec fn config_result(vars: ConfigVars, cfg: Config) -> bool {
    &&& cfg.api_key@ == or_default(vars.api_key, Seq::empty())
    &&& cfg.dualis_username@ == or_default(vars.dualis_username, Seq::empty())
    &&& cfg.dualis_password@ == or_default(vars.dualis_password, Seq::empty())
    &&& parse_in_range(or_default(vars.port, "3000"@), false, 0, 65535) == Some(cfg.port as int)
    &&& parse_in_range(or_default(vars.weeks_ahead, "2"@), false, 0, 4294967295) == Some(
        cfg.weeks_ahead as int,
    )
    &&& cfg.calendar_name@ == or_default(vars.calendar_name, "Dualis Timetable"@)
    &&& cfg.uid_domain@ == or_default(vars.uid_domain, "schedule-sync.local"@)
    &&& cfg.timezone@ == or_default(vars.timezone, "Europe/Berlin"@)
    &&& parse_in_range(or_default(vars.cache_ttl_seconds, "3600"@), false, 0, 18446744073709551615)
        == Some(cfg.cache_ttl_seconds as int)
}

/// The message of the first problem among the variables, if any.
pub open spec fn config_problem(vars: ConfigVars) -> Option<Seq<char>> {
    if vars.api_key is None {
        Some(missing_text("API_KEY"@))
    } else if vars.dualis_username is None {
        Some(missing_text("DUALIS_USERNAME"@))
    } else if vars.dualis_password is None {
        Some(missing_text("DUALIS_PASSWORD"@))
    } else if parse_in_range(or_default(vars.port, "3000"@), false, 0, 65535) is None {
        Some("PORT must be a number"@)
    } else if parse_in_range(or_default(vars.weeks_ahead, "2"@), false, 0, 4294967295) is None {
        Some("WEEKS_AHEAD must be a number"@)
    } else if parse_in_range(
        or_default(vars.cache_ttl_seconds, "3600"@),
        false,
        0,
        18446744073709551615,
    ) is None {
        Some("CACHE_TTL_SECONDS must be a number"@)
    } else {
        None
    }
}

/// The characters of an optional string, or of `default` when it is absent.
fn value_or(v: Option<String>, default: &str) -> (s: String)
    ensures
        s@ == or_default(v, default@),
{
    match v {
        Some(s) => s,
        None => String::from_str(default),
    }
}

impl Config {
    /// Builds the configuration from the values of its variables (see [`config_problem`]
    /// for the errors and [`config_result`] for the values).
    pub fn from_vars(vars: ConfigVars) -> (r: Result<Config, String>)
        ensures
            r matches Ok(c) ==> config_problem(vars) is None && config_result(vars, c),
            r matches Err(m) ==> config_problem(vars) == Some(m@),
    {
        let ghost v = vars;
        let ConfigVars {
            api_key,
            dualis_username,
            dualis_password,
            port,
            weeks_ahead,
            calendar_name,
            uid_domain,
            timezone,
            cache_ttl_seconds,
        } = vars;
        let api_key = match api_key {
            Some(k) => k,
            None => {
                let mut m = String::from_str("Missing required env var: ");
                m.append("API_KEY");
                return Err(m);
            },
        };
        let dualis_username = match dualis_username {
            Some(k) => k,
            None => {
                let mut m = String::from_str("Missing required env var: ");
                m.append("DUALIS_USERNAME");
                return Err(m);
            },
        };
        let dualis_password = match dualis_password {
            Some(k) => k,
            None => {
                let mut m = String::from_str("Missing required env var: ");
                m.append("DUALIS_PASSWORD");
                return Err(m);
            },
        };
        let port_text = value_or(port, "3000");
        let port = match parse_u16(&chars_of(port_text.as_str())) {
            Some(p) => p,
            None => return Err(String::from_str("PORT must be a number")),
        };
        let weeks_text = value_or(weeks_ahead, "2");
        let weeks_ahead = match parse_u32(&chars_of(weeks_text.as_str())) {
            Some(w) => w,
            None => return Err(String::from_str("WEEKS_AHEAD must be a number")),
        };
        let ttl_text = value_or(cache_ttl_seconds, "3600");
        let cache_ttl_seconds = match parse_u64(&chars_of(ttl_text.as_str())) {
            Some(t) => t,
            None => return Err(String::from_str("CACHE_TTL_SECONDS must be a number")),
        };
        Ok(
            Config {
                api_key,
                dualis_username,
                dualis_password,
                port,
                weeks_ahead,
                calendar_name: value_or(calendar_name, "Dualis Timetable"),
                uid_domain: value_or(uid_domain, "schedule-sync.local"),
                timezone: value_or(timezone, "Europe/Berlin"),
                cache_ttl_seconds,
            },
        )
    }
}

} // verus!
