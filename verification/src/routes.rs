//! The decisions of the HTTP routes: authorization, the week a request names, the weeks
//! a calendar covers, and when the cached calendar is served.
use vstd::prelude::*;
use crate::config::Config;
use crate::date::{
    add_days, date_minus_days, iso_week_day, date_plus_days, iso_week, iso_date, is_iso_monday,
    next_iso_week, iso_week_date, MIN_YEAR,
    iso_week_of, local_today, parse_date, parsed_date, sub_days, CalDate, IsoWeek, MAX_YEAR,
    lemma_before_rank,
};
use crate::dualis::{date_of, week_of};
use crate::error::AppError;
use crate::num::{
    decimal, is_digit, lemma_decimal_reads_back, lemma_zero_pad_reads_back, parse_i32,
    parse_in_range, parse_u32, parsed_integer, two_digits,
};
use crate::text::{
    after_first_of, chars_of, copy_range, find_from, find_pattern, is_prefix, occurs_at, starts_with,
    string_from, to_uppercase, upper_stable, uppercase,
};

verus! {

/// The query of the timetable routes.
pub struct TimetableParams {
    /// ISO week string, e.g. "2024-W05". Defaults to current week if omitted.
    pub week: Option<String>,
}

/// The query of the calendar route.
pub struct CalendarParams {
    pub token: Option<String>,
    /// Start date (inclusive) in YYYY-MM-DD format.
    /// If only `from` is set, fetches `weeks_ahead` weeks forward starting at this date's week.
    pub from: Option<String>,
    /// End date (inclusive) in YYYY-MM-DD format.
    /// If only `to` is set, fetches `weeks_ahead` weeks backward ending at this date's week.
    pub to: Option<String>,
}

/// Whether two character sequences are the same string.
fn same_text(a: &str, b: &str) -> (r: bool)
    ensures
        r == (a@ == b@),
{
    let x = chars_of(a);
    let y = chars_of(b);
    if x.len() != y.len() {
        return false;
    }
    let r = starts_with(&x, &y);
    assert(x@.take(y@.len() as int) =~= x@);
    r
}

/// The `Authorization` header authorizes a request when it reads `Bearer <api key>`.
pub open spec fn bearer_ok(header: Option<Seq<char>>, api_key: Seq<char>) -> bool {
    match header {
        Some(h) => is_prefix("Bearer "@, h) && h.skip("Bearer "@.len() as int) == api_key,
        None => false,
    }
}

/// Whether the `Authorization` header value (when present and readable as text) carries
/// the API key as a bearer token.
pub fn bearer_authorized(header: Option<&str>, api_key: &str) -> (b: bool)
    ensures
        b == bearer_ok(crate::dualis::opt_str(header), api_key@),
{
    match header {
        None => false,
        Some(h) => {
            let hc = chars_of(h);
            let prefix = chars_of("Bearer ");
            if !starts_with(&hc, &prefix) {
                return false;
            }
            let rest = copy_range(&hc, prefix.len(), hc.len());
            assert(rest@ =~= h@.skip("Bearer "@.len() as int));
            let key = chars_of(api_key);
            if rest.len() != key.len() {
                return false;
            }
            let r = starts_with(&rest, &key);
            assert(rest@.take(key@.len() as int) =~= rest@);
            r
        },
    }
}

/// Whether the calendar's `token` query parameter is the API key.
pub fn token_authorized(token: Option<&str>, api_key: &str) -> (b: bool)
    ensures
        b == (crate::dualis::opt_str(token) == Some(api_key@)),
{
    match token {
        Some(t) => same_text(t, api_key),
        None => false,
    }
}

/// `s` without leading characters that are not ASCII digits.
pub open spec fn strip_non_digits(s: Seq<char>) -> Seq<char>
    decreases s.len(),
{
    if s.len() > 0 && !is_digit(s[0]) {
        strip_non_digits(s.drop_first())
    } else {
        s
    }
}

/// `s` without trailing `-`.
pub open spec fn strip_dashes_end(s: Seq<char>) -> Seq<char>
    decreases s.len(),
{
    if s.len() > 0 && s.last() == '-' {
        strip_dashes_end(s.drop_last())
    } else {
        s
    }
}

/// The advice for a week in the wrong shape.
pub open spec fn iso_format_hint() -> Seq<char> {
    "week must be in ISO format, e.g. '2024-W05'"@
}

/// The position of the last `-` in `s`.
pub open spec fn last_dash(s: Seq<char>) -> Option<int>
    decreases s.len(),
{
    if s.len() == 0 {
        None
    } else if s.last() == '-' {
        Some(s.len() - 1)
    } else {
        last_dash(s.drop_last())
    }
}

/// Where the year ends and the week number begins: at the first `W` (`YYYY-Www`), or,
/// when there is none, at the last `-` (`YYYY-WW`).
pub open spec fn week_separator(s: Seq<char>) -> Option<int> {
    match find_from(s, seq!['W'], 0) {
        Some(i) => Some(i),
        None => last_dash(s),
    }
}

/// The ISO week that a `week` query parameter names, or the message of the bad request.
/// The text is upper-cased and stripped of leading non-digits; it must then read
/// `YYYY-Www`, `YYYYWww` or `YYYY-WW` (`-` at the end of the year are ignored) with the
/// week existing in that ISO year, and names that week.
pub open spec fn week_from_text(input: Seq<char>) -> Result<IsoWeek, Seq<char>> {
    week_from_upper(uppercase(input))
}

/// [`week_from_text`] on the upper-cased text `u`.
pub open spec fn week_from_upper(u: Seq<char>) -> Result<IsoWeek, Seq<char>> {
    let s = strip_non_digits(u);
    match week_separator(s) {
        None => Err(iso_format_hint()),
        Some(i) => match parse_in_range(
            strip_dashes_end(s.take(i)),
            true,
            -2147483648,
            2147483647,
        ) {
            None => Err("Invalid year in week: "@ + s),
            Some(y) => match parse_in_range(s.skip(i + 1), false, 0, 4294967295) {
                None => Err("Invalid week number in: "@ + s),
                Some(w) => match iso_date(y, w, 0) {
                    None => Err("Invalid ISO week: "@ + s),
                    Some(_) => Ok(IsoWeek { year: y as i32, week: w as u32 }),
                },
            },
        },
    }
}

/// The position of the last `-` in `s`.
fn last_dash_of(s: &Vec<char>) -> (r: Option<usize>)
    ensures
        r matches Some(j) ==> last_dash(s@) == Some(j as int) && j < s@.len(),
        r is None ==> last_dash(s@) is None,
{
    let mut j: usize = s.len();
    assert(s@.take(j as int) =~= s@);
    while j > 0 && s[j - 1] != '-'
        invariant
            j <= s@.len(),
            last_dash(s@) == last_dash(s@.take(j as int)),
        decreases j,
    {
        assert(s@.take(j as int).drop_last() =~= s@.take(j - 1));
        j = j - 1;
    }
    if j == 0 {
        assert(s@.take(0).len() == 0);
        None
    } else {
        assert(s@.take(j as int).last() == s@[j - 1]);
        Some(j - 1)
    }
}

/// Where the year ends and the week number begins (see [`week_separator`]).
fn week_separator_of(s: &Vec<char>) -> (r: Option<usize>)
    ensures
        r matches Some(i) ==> week_separator(s@) == Some(i as int) && i < s@.len(),
        r is None ==> week_separator(s@) is None,
{
    let mut w: Vec<char> = Vec::new();
    w.push('W');
    assert(w@ =~= seq!['W']);
    match find_pattern(s, &w, 0) {
        Some(i) => {
            proof {
                crate::text::lemma_find_from_bounds(s@, w@, 0);
            }
            Some(i)
        },
        None => last_dash_of(s),
    }
}

/// `message` followed by `s`, as a bad request.
fn bad_request(message: &str, s: &Vec<char>) -> (e: AppError)
    ensures
        e matches AppError::BadRequest(m) && m@ == message@ + s@,
{
    let mut m = String::from_str(message);
    m.append(string_from(s).as_str());
    AppError::BadRequest(m)
}

/// The ISO week that a `week` query parameter names (see [`week_from_text`]); the text of
/// a week of a non-negative year reads back as that week.
pub fn week_of_text(input: &str) -> (r: Result<IsoWeek, AppError>)
    ensures
        r matches Ok(w) ==> week_from_text(input@) == Ok::<IsoWeek, Seq<char>>(w),
        r matches Err(e) ==> e matches AppError::BadRequest(m) && week_from_text(input@) == Err::<
            IsoWeek,
            Seq<char>,
        >(m@),
        forall|w: IsoWeek|
            #![trigger w.text()]
            input@ == w.text() && 0 <= w.year && iso_date(w.year as int, w.week as int, 0) is Some
                ==> r == Ok::<IsoWeek, AppError>(w),
{
    let r = read_week(input);
    proof {
        assert forall|w: IsoWeek|
            #![trigger w.text()]
            input@ == w.text() && 0 <= w.year && iso_date(
                w.year as int,
                w.week as int,
                0,
            ) is Some implies r == Ok::<IsoWeek, AppError>(w) by {
            lemma_week_text_reads_back(w);
        }
    }
    r
}

/// Reads the week that `input` names.
fn read_week(input: &str) -> (r: Result<IsoWeek, AppError>)
    ensures
        r matches Ok(w) ==> week_from_text(input@) == Ok::<IsoWeek, Seq<char>>(w),
        r matches Err(e) ==> e matches AppError::BadRequest(m) && week_from_text(input@) == Err::<
            IsoWeek,
            Seq<char>,
        >(m@),
        upper_stable(input@) ==> uppercase(input@) == input@,
{
    let up = chars_of(to_uppercase(input).as_str());
    let n = up.len();
    let mut lo: usize = 0;
    assert(up@.skip(0) =~= up@);
    while lo < n && !('0' <= up[lo] && up[lo] <= '9')
        invariant
            n == up@.len(),
            lo <= n,
            strip_non_digits(up@) == strip_non_digits(up@.skip(lo as int)),
        decreases n - lo,
    {
        assert(up@.skip(lo as int).drop_first() =~= up@.skip(lo + 1));
        lo = lo + 1;
    }
    let s = copy_range(&up, lo, n);
    assert(s@ =~= up@.skip(lo as int));
    assert(s@ == strip_non_digits(uppercase(input@)));
    let i = match week_separator_of(&s) {
        Some(i) => i,
        None => {
            let m = String::from_str("week must be in ISO format, e.g. '2024-W05'");
            return Err(AppError::BadRequest(m));
        },
    };
    let mut hi: usize = i;
    assert(s@.subrange(0, hi as int) =~= s@.take(i as int));
    while hi > 0 && s[hi - 1] == '-'
        invariant
            hi <= i < s@.len(),
            strip_dashes_end(s@.take(i as int)) == strip_dashes_end(s@.subrange(0, hi as int)),
        decreases hi,
    {
        assert(s@.subrange(0, hi as int).drop_last() =~= s@.subrange(0, hi - 1));
        hi = hi - 1;
    }
    let year_text = copy_range(&s, 0, hi);
    let year = match parse_i32(&year_text) {
        Some(y) => y,
        None => return Err(bad_request("Invalid year in week: ", &s)),
    };
    let week_text = copy_range(&s, i + 1, s.len());
    assert(week_text@ =~= s@.skip(i + 1));
    let week = match parse_u32(&week_text) {
        Some(x) => x,
        None => return Err(bad_request("Invalid week number in: ", &s)),
    };
    match iso_week_day(year, week, 0) {
        None => Err(bad_request("Invalid ISO week: ", &s)),
        Some(m) => {
            let r = iso_week(&m);
            Ok(r)
        },
    }
}

/// The ISO week a timetable request asks for: the week the `week` parameter names, or
/// the current week (on the local clock) when it is absent. The text of a week of a
/// non-negative year, as a timetable shows it, reads back as that week.
pub fn parse_week(input: Option<&str>) -> (r: Result<IsoWeek, AppError>)
    ensures
        forall|w: IsoWeek|
            #![trigger w.text()]
            crate::dualis::opt_str(input) == Some(w.text()) && 0 <= w.year && iso_date(
                w.year as int,
                w.week as int,
                0,
            ) is Some ==> r == Ok::<IsoWeek, AppError>(w),
        input matches Some(s) ==> (r matches Ok(w) ==> week_from_text(s@) == Ok::<
            IsoWeek,
            Seq<char>,
        >(w)),
        input matches Some(s) ==> (r matches Err(e) ==> e matches AppError::BadRequest(m)
            && week_from_text(s@) == Err::<IsoWeek, Seq<char>>(m@)),
        input is None ==> exists|today: CalDate|
            today.valid() && r == Ok::<IsoWeek, AppError>(
                week_of(iso_week_of(today.year as int, today.month as int, today.day as int)),
            ),
{
    match input {
        None => {
            let today = local_today();
            Ok(iso_week(&today))
        },
        Some(s) => week_of_text(s),
    }
}

/// A bound on the rank of every valid date.
pub open spec fn rank_bound() -> int {
    (MAX_YEAR as int) * 512 + 12 * 32 + 32
}

/// The ISO weeks of the Mondays after `monday`, a week apart, up to and including the week
/// `last`; `None` when a Monday lies beyond chrono's range.
pub open spec fn weeks_after(monday: CalDate, last: IsoWeek) -> Option<Seq<IsoWeek>>
    decreases rank_bound() - monday.rank(),
{
    if !monday.valid() {
        None
    } else {
        match date_plus_days(monday.year as int, monday.month as int, monday.day as int, 7) {
            None => None,
            Some(t) => {
                let next = date_of(t);
                if !(next.valid() && monday.before(next)) {
                    None
                } else {
                    proof {
                        lemma_before_rank(monday, next);
                    }
                    let w = week_of(iso_week_of(t.0, t.1, t.2));
                    if w.after(last) {
                        Some(Seq::empty())
                    } else {
                        match weeks_after(next, last) {
                            Some(rest) => Some(seq![w] + rest),
                            None => None,
                        }
                    }
                }
            },
        }
    }
}

/// The ISO week of a valid date.
pub open spec fn week_of_date(d: CalDate) -> IsoWeek {
    week_of(iso_week_of(d.year as int, d.month as int, d.day as int))
}

/// All distinct ISO weeks from the week of `from` to the week of `to`; `None` when a date
/// on the way lies beyond chrono's range.
pub open spec fn weeks_between_spec(from: CalDate, to: CalDate) -> Option<Seq<IsoWeek>> {
    let first = week_of_date(from);
    match iso_date(first.year as int, first.week as int, 0) {
        None => None,
        Some(m) => match weeks_after(date_of(m), week_of_date(to)) {
            Some(rest) => Some(seq![first] + rest),
            None => None,
        },
    }
}

/// Each ISO week of the sequence is the one after the week before it.
pub open spec fn consecutive_weeks(ws: Seq<IsoWeek>) -> bool {
    forall|i: int|
        0 <= i < ws.len() - 1 ==> (ws[i + 1].year as int, ws[i + 1].week as int) == next_iso_week(
            (#[trigger] ws[i]).year as int,
            ws[i].week as int,
        ) && ws[i + 1].after(ws[i])
}

/// The ISO week after another one comes after it.
proof fn lemma_next_week_after(w: IsoWeek)
    requires
        w.year < i32::MAX,
        w.week < u32::MAX,
    ensures
        week_of(next_iso_week(w.year as int, w.week as int)).after(w),
{
}

/// A week that does not pass `t` while the week after it does is `t` itself, when every
/// week of `t`'s ISO year up to `t` can be dated.
proof fn lemma_bracketed_week(l: IsoWeek, t: IsoWeek)
    requires
        !l.after(t),
        week_of(next_iso_week(l.year as int, l.week as int)).after(t),
        l.year < i32::MAX,
        l.week < u32::MAX,
        t.week >= 1,
        forall|k: int| 1 <= k <= t.week ==> (#[trigger] iso_week_date(t.year as int, k, 0)) is Some,
    ensures
        l == t,
{
    if iso_week_date(l.year as int, l.week + 1, 0) is None && l.year == t.year && l.week < t.week {
        assert(iso_week_date(t.year as int, l.week + 1, 0) is Some);
    }
}

/// Compute all distinct ISO weeks between two dates (inclusive of both dates' weeks);
/// `None` when a date on the way lies beyond chrono's range. Each week is the one after
/// the week before it, and when the first date's week does not come after the second
/// date's, the last week is the second date's (outside chrono's first two years).
pub fn weeks_between(from: &CalDate, to: &CalDate) -> (r: Option<Vec<IsoWeek>>)
    requires
        from.valid(),
        to.valid(),
    ensures
        r matches Some(v) ==> weeks_between_spec(*from, *to) == Some(v@),
        r is None ==> weeks_between_spec(*from, *to) is None,
        r matches Some(v) ==> v@.len() >= 1 && v@[0] == week_of_date(*from) && consecutive_weeks(
            v@,
        ),
        r matches Some(v) ==> (to.year > MIN_YEAR + 1 && !week_of_date(*from).after(
            week_of_date(*to),
        ) ==> v@.last() == week_of_date(*to)),
{
    let first = iso_week(from);
    let last = iso_week(to);
    let mut monday = match iso_week_day(first.year, first.week, 0) {
        Some(m) => m,
        None => return None,
    };
    assert(date_of(monday.triple()) == monday);
    let mut weeks: Vec<IsoWeek> = Vec::new();
    weeks.push(first);
    loop
        invariant
            monday.valid(),
            last == week_of_date(*to),
            weeks_between_spec(*from, *to) == (match weeks_after(monday, last) {
                Some(rest) => Some(weeks@ + rest),
                None => None::<Seq<IsoWeek>>,
            }),
            weeks@.len() >= 1,
            weeks@[0] == first,
            first == week_of_date(*from),
            consecutive_weeks(weeks@),
            is_iso_monday(monday.year as int, monday.month as int, monday.day as int),
            iso_week_of(monday.year as int, monday.month as int, monday.day as int) == (
                weeks@.last().year as int,
                weeks@.last().week as int,
            ),
            MIN_YEAR - 1 <= weeks@.last().year <= MAX_YEAR + 1,
            1 <= weeks@.last().week <= 53,
            (weeks@.len() > 1 || !first.after(last)) ==> !weeks@.last().after(last),
            1 <= last.week,
            to.year > MIN_YEAR + 1 ==> forall|k: int|
                1 <= k <= last.week ==> (#[trigger] iso_week_date(last.year as int, k, 0)) is Some,
        decreases rank_bound() - monday.rank(),
    {
        let next = match add_days(&monday, 7) {
            Some(n) => n,
            None => return None,
        };
        proof {
            lemma_before_rank(monday, next);
        }
        assert(date_of(next.triple()) == next);
        let w = iso_week(&next);
        let ghost l = weeks@.last();
        assert((w.year as int, w.week as int) == next_iso_week(l.year as int, l.week as int));
        assert(week_of(next_iso_week(l.year as int, l.week as int)) == w);
        if w.is_after(&last) {
            assert(weeks@ + Seq::<IsoWeek>::empty() =~= weeks@);
            proof {
                if to.year > MIN_YEAR + 1 && !first.after(last) {
                    lemma_bracketed_week(l, last);
                }
            }
            return Some(weeks);
        }
        let ghost pre = weeks@;
        weeks.push(w);
        proof {
            lemma_next_week_after(l);
            assert(weeks@.last() == w);
            assert(pre.last() == l);
            assert forall|i: int| 0 <= i < weeks@.len() - 1 implies (weeks@[i + 1].year as int,
                weeks@[i + 1].week as int) == next_iso_week(
                (#[trigger] weeks@[i]).year as int,
                weeks@[i].week as int,
            ) && weeks@[i + 1].after(weeks@[i]) by {
                if i < pre.len() - 1 {
                    assert(weeks@[i] == pre[i] && weeks@[i + 1] == pre[i + 1]);
                } else {
                    assert(weeks@[i] == l);
                }
            }
            match weeks_after(next, last) {
                Some(rest) => {
                    assert(pre + (seq![w] + rest) =~= weeks@ + rest);
                },
                None => {},
            }
        }
        monday = next;
    }
}

/// The ISO weeks of `n` successive Mondays after `monday`; `None` when one lies beyond
/// chrono's range.
pub open spec fn weeks_forward(monday: CalDate, n: nat) -> Option<Seq<IsoWeek>>
    decreases n,
{
    if n == 0 {
        Some(Seq::empty())
    } else if !monday.valid() {
        None
    } else {
        match date_plus_days(monday.year as int, monday.month as int, monday.day as int, 7) {
            None => None,
            Some(t) => match weeks_forward(date_of(t), (n - 1) as nat) {
                Some(rest) => Some(seq![week_of(iso_week_of(t.0, t.1, t.2))] + rest),
                None => None,
            },
        }
    }
}

/// The week of `d` and the `n` weeks after it; `None` when a Monday on the way lies beyond
/// chrono's range.
pub open spec fn weeks_from_spec(d: CalDate, n: nat) -> Option<Seq<IsoWeek>> {
    let first = week_of_date(d);
    match iso_date(first.year as int, first.week as int, 0) {
        None => None,
        Some(m) => match weeks_forward(date_of(m), n) {
            Some(rest) => Some(seq![first] + rest),
            None => None,
        },
    }
}

/// The week of `d` and the `n` weeks after it, each the one after the week before it.
pub fn weeks_from(d: &CalDate, n: u32) -> (r: Option<Vec<IsoWeek>>)
    requires
        d.valid(),
    ensures
        r matches Some(v) ==> weeks_from_spec(*d, n as nat) == Some(v@),
        r is None ==> weeks_from_spec(*d, n as nat) is None,
        r matches Some(v) ==> v@.len() == n + 1 && v@[0] == week_of_date(*d) && consecutive_weeks(
            v@,
        ),
{
    let first = iso_week(d);
    let mut monday = match iso_week_day(first.year, first.week, 0) {
        Some(m) => m,
        None => return None,
    };
    assert(date_of(monday.triple()) == monday);
    let mut weeks: Vec<IsoWeek> = Vec::new();
    weeks.push(first);
    let mut k: u32 = 0;
    while k < n
        invariant
            k <= n,
            monday.valid(),
            weeks_from_spec(*d, n as nat) == (match weeks_forward(monday, (n - k) as nat) {
                Some(rest) => Some(weeks@ + rest),
                None => None::<Seq<IsoWeek>>,
            }),
            weeks@.len() == k + 1,
            weeks@[0] == first,
            first == week_of_date(*d),
            consecutive_weeks(weeks@),
            is_iso_monday(monday.year as int, monday.month as int, monday.day as int),
            iso_week_of(monday.year as int, monday.month as int, monday.day as int) == (
                weeks@.last().year as int,
                weeks@.last().week as int,
            ),
            MIN_YEAR - 1 <= weeks@.last().year <= MAX_YEAR + 1,
            1 <= weeks@.last().week <= 53,
        decreases n - k,
    {
        let next = match add_days(&monday, 7) {
            Some(x) => x,
            None => return None,
        };
        assert(date_of(next.triple()) == next);
        let w = iso_week(&next);
        let ghost l = weeks@.last();
        assert((w.year as int, w.week as int) == next_iso_week(l.year as int, l.week as int));
        let ghost pre = weeks@;
        weeks.push(w);
        proof {
            lemma_next_week_after(l);
            assert(weeks@.last() == w);
            assert(pre.last() == l);
            assert forall|i: int| 0 <= i < weeks@.len() - 1 implies (weeks@[i + 1].year as int,
                weeks@[i + 1].week as int) == next_iso_week(
                (#[trigger] weeks@[i]).year as int,
                weeks@[i].week as int,
            ) && weeks@[i + 1].after(weeks@[i]) by {
                if i < pre.len() - 1 {
                    assert(weeks@[i] == pre[i] && weeks@[i + 1] == pre[i + 1]);
                } else {
                    assert(weeks@[i] == l);
                }
            }
            match weeks_forward(next, (n - k - 1) as nat) {
                Some(rest) => {
                    assert(pre + (seq![w] + rest) =~= weeks@ + rest);
                },
                None => {},
            }
        }
        monday = next;
        k = k + 1;
    }
    assert(weeks@ + Seq::<IsoWeek>::empty() =~= weeks@);
    Some(weeks)
}

/// The weeks a calendar request covers, and whether the cached calendar may answer it.
pub struct CalendarPlan {
    pub weeks: Vec<IsoWeek>,
    /// Only requests without a custom date range use the cache.
    pub use_cache: bool,
}

/// A `YYYY-MM-DD` date parameter: `Ok(None)` when absent, the date when it parses, and
/// otherwise the message of the bad request.
pub open spec fn date_param(p: Option<Seq<char>>, name: Seq<char>) -> Result<Option<CalDate>, Seq<char>> {
    match p {
        None => Ok(None),
        Some(s) => match parsed_date(s, "%Y-%m-%d"@) {
            Some(t) => Ok(Some(date_of(t))),
            None => Err("Invalid '"@ + name + "' date: "@ + s + ". Expected YYYY-MM-DD"@),
        },
    }
}

/// The weeks of a calendar by its range: both ends, only a start (the start's week and
/// `ahead` weeks after), only an end (the `ahead` weeks before the end's week, and that
/// week), or neither (the current week and `ahead` weeks after). `Err(m)` for a start after
/// the end; `Ok(None)` when a date lies beyond chrono's range.
pub open spec fn range_weeks(
    from: Option<CalDate>,
    to: Option<CalDate>,
    ahead: nat,
    today: CalDate,
) -> Result<Option<Seq<IsoWeek>>, Seq<char>> {
    match (from, to) {
        (Some(f), Some(t)) => if t.before(f) {
            Err("'from' must be before or equal to 'to'"@)
        } else {
            Ok(weeks_between_spec(f, t))
        },
        (Some(f), None) => Ok(weeks_from_spec(f, ahead)),
        (None, Some(t)) => {
            let last = week_of_date(t);
            match iso_date(last.year as int, last.week as int, 0) {
                None => Ok(None),
                Some(m) => match date_minus_days(m.0, m.1, m.2, 7 * (ahead as int)) {
                    None => Ok(None),
                    Some(s) => Ok(weeks_between_spec(date_of(s), date_of(m))),
                },
            }
        },
        (None, None) => Ok(weeks_from_spec(today, ahead)),
    }
}

/// What a calendar request decides before anything is fetched: `Err(None)` when the token
/// is not the API key (unauthorized), `Err(Some(m))` for a bad request with message `m`,
/// `Ok(None)` when a date lies beyond chrono's range, and otherwise the weeks to fetch and
/// whether the cache may answer (only when neither `from` nor `to` is given).
pub open spec fn calendar_plan_spec(
    token: Option<Seq<char>>,
    from: Option<Seq<char>>,
    to: Option<Seq<char>>,
    api_key: Seq<char>,
    ahead: nat,
    today: CalDate,
) -> Result<Option<(Seq<IsoWeek>, bool)>, Option<Seq<char>>> {
    if token != Some(api_key) {
        Err(None)
    } else {
        match date_param(from, "from"@) {
            Err(m) => Err(Some(m)),
            Ok(f) => match date_param(to, "to"@) {
                Err(m) => Err(Some(m)),
                Ok(t) => match range_weeks(f, t, ahead, today) {
                    Err(m) => Err(Some(m)),
                    Ok(None) => Ok(None),
                    Ok(Some(ws)) => Ok(Some((ws, from is None && to is None))),
                },
            },
        }
    }
}

/// The characters of an optional string.
pub open spec fn opt_text(s: Option<String>) -> Option<Seq<char>> {
    match s {
        Some(x) => Some(x@),
        None => None,
    }
}

/// The request's error as the plan states it: `None` for unauthorized, the message of a
/// bad request.
pub open spec fn plan_error(e: AppError) -> Option<Option<Seq<char>>> {
    match e {
        AppError::Unauthorized => Some(None),
        AppError::BadRequest(m) => Some(Some(m@)),
        _ => None,
    }
}

/// Reads a `YYYY-MM-DD` date parameter named `name`.
fn read_date_param(p: &Option<String>, name: &str) -> (r: Result<Option<CalDate>, AppError>)
    ensures
        r matches Ok(d) ==> date_param(opt_text(*p), name@) == Ok::<Option<CalDate>, Seq<char>>(d),
        r matches Ok(Some(d)) ==> d.valid(),
        r matches Err(e) ==> e matches AppError::BadRequest(m) && date_param(opt_text(*p), name@)
            == Err::<Option<CalDate>, Seq<char>>(m@),
{
    match p {
        None => Ok(None),
        Some(s) => match parse_date(s.as_str(), "%Y-%m-%d") {
            Some(d) => {
                assert(date_of(d.triple()) == d);
                Ok(Some(d))
            },
            None => {
                let mut m = String::from_str("Invalid '");
                m.append(name);
                m.append("' date: ");
                m.append(s.as_str());
                m.append(". Expected YYYY-MM-DD");
                Err(AppError::BadRequest(m))
            },
        },
    }
}

/// Decides a calendar request for the given current date (see [`calendar_plan_spec`]).
pub fn calendar_plan_on(params: &CalendarParams, config: &Config, today: &CalDate) -> (r: Result<
    Option<CalendarPlan>,
    AppError,
>)
    requires
        today.valid(),
    ensures
        r matches Ok(Some(p)) ==> calendar_plan_spec(
            opt_text(params.token),
            opt_text(params.from),
            opt_text(params.to),
            config.api_key@,
            config.weeks_ahead as nat,
            *today,
        ) == Ok::<Option<(Seq<IsoWeek>, bool)>, Option<Seq<char>>>(Some((p.weeks@, p.use_cache))),
        r matches Ok(None) ==> calendar_plan_spec(
            opt_text(params.token),
            opt_text(params.from),
            opt_text(params.to),
            config.api_key@,
            config.weeks_ahead as nat,
            *today,
        ) == Ok::<Option<(Seq<IsoWeek>, bool)>, Option<Seq<char>>>(None),
        r matches Err(e) ==> plan_error(e) matches Some(pe) && calendar_plan_spec(
            opt_text(params.token),
            opt_text(params.from),
            opt_text(params.to),
            config.api_key@,
            config.weeks_ahead as nat,
            *today,
        ) == Err::<Option<(Seq<IsoWeek>, bool)>, Option<Seq<char>>>(pe),
{
    let authorized = match &params.token {
        Some(t) => same_text(t.as_str(), config.api_key.as_str()),
        None => false,
    };
    if !authorized {
        return Err(AppError::Unauthorized);
    }
    let from = read_date_param(&params.from, "from")?;
    let to = read_date_param(&params.to, "to")?;
    let use_cache = params.from.is_none() && params.to.is_none();
    let weeks = match (from, to) {
        (Some(f), Some(t)) => {
            if f.is_after(&t) {
                return Err(
                    AppError::BadRequest(
                        String::from_str("'from' must be before or equal to 'to'"),
                    ),
                );
            }
            weeks_between(&f, &t)
        },
        (Some(f), None) => weeks_from(&f, config.weeks_ahead),
        (None, Some(t)) => {
            let last = iso_week(&t);
            match iso_week_day(last.year, last.week, 0) {
                None => None,
                Some(end) => {
                    assert(date_of(end.triple()) == end);
                    match sub_days(&end, 7 * (config.weeks_ahead as u64)) {
                        None => None,
                        Some(start) => {
                            assert(date_of(start.triple()) == start);
                            weeks_between(&start, &end)
                        },
                    }
                },
            }
        },
        (None, None) => weeks_from(today, config.weeks_ahead),
    };
    match weeks {
        Some(w) => Ok(Some(CalendarPlan { weeks: w, use_cache })),
        None => Ok(None),
    }
}

/// Decides a calendar request (see [`calendar_plan_spec`]), taking the current date from the
/// local clock.
pub fn calendar_plan(params: &CalendarParams, config: &Config) -> (r: Result<
    Option<CalendarPlan>,
    AppError,
>)
    ensures
        exists|today: CalDate|
            today.valid() && {
                let spec = calendar_plan_spec(
                    opt_text(params.token),
                    opt_text(params.from),
                    opt_text(params.to),
                    config.api_key@,
                    config.weeks_ahead as nat,
                    today,
                );
                &&& r matches Ok(Some(p)) ==> spec == Ok::<
                    Option<(Seq<IsoWeek>, bool)>,
                    Option<Seq<char>>,
                >(Some((p.weeks@, p.use_cache)))
                &&& r matches Ok(None) ==> spec == Ok::<
                    Option<(Seq<IsoWeek>, bool)>,
                    Option<Seq<char>>,
                >(None)
                &&& r matches Err(e) ==> plan_error(e) matches Some(pe) && spec == Err::<
                    Option<(Seq<IsoWeek>, bool)>,
                    Option<Seq<char>>,
                >(pe)
            },
{
    let today = local_today();
    calendar_plan_on(params, config, &today)
}

/// Whether the cached calendar answers a request: only a request that may use the cache,
/// with a cached calendar younger than the cache lifetime.
pub fn serve_from_cache(use_cache: bool, cached_age_secs: Option<u64>, ttl_secs: u64) -> (b: bool)
    ensures
        b == (use_cache && (cached_age_secs matches Some(age) && age < ttl_secs)),
{
    match cached_age_secs {
        Some(age) => use_cache && age < ttl_secs,
        None => false,
    }
}

proof fn lemma_first_w(s: Seq<char>, i: int, p: int)
    requires
        0 <= i <= p < s.len(),
        s[p] == 'W',
        forall|k: int| i <= k < p ==> s[k] != 'W',
    ensures
        find_from(s, seq!['W'], i) == Some(p),
    decreases p - i,
{
    if i < p {
        if occurs_at(s, seq!['W'], i) {
            assert(s.subrange(i, i + 1)[0] == s[i]);
        }
        lemma_first_w(s, i + 1, p);
    } else {
        assert(s.subrange(p, p + 1) =~= seq!['W']);
    }
}

/// The text of a week (`YYYY-Www`) of a non-negative year reads back as that week when
/// the week exists, and upper-casing leaves it as it is.
pub proof fn lemma_week_text_reads_back(w: IsoWeek)
    requires
        0 <= w.year,
        iso_date(w.year as int, w.week as int, 0) is Some,
    ensures
        upper_stable(w.text()),
        week_from_upper(w.text()) == Ok::<IsoWeek, Seq<char>>(w),
{
    let dy = decimal(w.year as nat);
    let dw = two_digits(w.week as nat);
    lemma_decimal_reads_back(w.year as nat);
    lemma_zero_pad_reads_back(w.week as nat, 2);
    let t = w.text();
    let p = dy.len() as int;
    assert(t =~= dy + seq!['-', 'W'] + dw);
    assert forall|i: int| 0 <= i < t.len() implies ('0' <= #[trigger] t[i] <= '9' || t[i] == '-'
        || 'A' <= t[i] <= 'Z') by {
        if i < p {
            assert(t[i] == dy[i] && is_digit(dy[i]));
        } else if i >= p + 2 {
            assert(t[i] == dw[i - p - 2] && is_digit(dw[i - p - 2]));
        }
    }
    assert(is_digit(dy[0]) && t[0] == dy[0]);
    assert(strip_non_digits(t) == t);
    assert(t[p] == '-' && t[p + 1] == 'W');
    assert forall|k: int| 0 <= k < p + 1 implies t[k] != 'W' by {
        if k < p {
            assert(t[k] == dy[k] && is_digit(dy[k]));
        }
    }
    lemma_first_w(t, 0, p + 1);
    assert(week_separator(t) == Some(p + 1));
    assert(t.take(p + 1) =~= dy.push('-'));
    assert(dy.push('-').drop_last() =~= dy);
    assert(is_digit(dy.last()));
    assert(strip_dashes_end(dy) == dy);
    assert(dy.push('-').last() == '-');
    assert(strip_dashes_end(dy.push('-')) == strip_dashes_end(dy.push('-').drop_last()));
    assert(strip_dashes_end(t.take(p + 1)) == dy);
    assert(parsed_integer(dy, true) == Some(w.year as int));
    assert(t.skip(p + 2) =~= dw);
    assert(is_digit(dw[0]));
    assert(parsed_integer(dw, false) == Some(w.week as int));
}

proof fn lemma_weeks_after_bounded(monday: CalDate, last: IsoWeek)
    ensures
        weeks_after(monday, last) matches Some(rest) ==> forall|i: int|
            0 <= i < rest.len() ==> !(#[trigger] rest[i]).after(last),
    decreases rank_bound() - monday.rank(),
{
    if monday.valid() {
        match date_plus_days(monday.year as int, monday.month as int, monday.day as int, 7) {
            None => {},
            Some(t) => {
                let next = date_of(t);
                if next.valid() && monday.before(next) {
                    lemma_before_rank(monday, next);
                    let w = week_of(iso_week_of(t.0, t.1, t.2));
                    if !w.after(last) {
                        lemma_weeks_after_bounded(next, last);
                        if let Some(rest) = weeks_after(next, last) {
                            let all = seq![w] + rest;
                            assert forall|i: int| 0 <= i < all.len() implies !(
                            #[trigger] all[i]).after(last) by {
                                if i > 0 {
                                    assert(all[i] == rest[i - 1]);
                                }
                            }
                        }
                    }
                }
            },
        }
    }
}

/// The weeks between two dates start with the week of the first date and never pass the
/// week of the second.
pub proof fn lemma_weeks_between_bounds(from: CalDate, to: CalDate)
    ensures
        weeks_between_spec(from, to) matches Some(ws) ==> {
            &&& ws.len() >= 1
            &&& ws[0] == week_of_date(from)
            &&& forall|i: int| 1 <= i < ws.len() ==> !(#[trigger] ws[i]).after(week_of_date(to))
        },
{
    let first = week_of_date(from);
    if let Some(m) = iso_date(first.year as int, first.week as int, 0) {
        lemma_weeks_after_bounded(date_of(m), week_of_date(to));
        if let Some(rest) = weeks_after(date_of(m), week_of_date(to)) {
            let ws = seq![first] + rest;
            assert forall|i: int| 1 <= i < ws.len() implies !(#[trigger] ws[i]).after(
                week_of_date(to),
            ) by {
                assert(ws[i] == rest[i - 1]);
            }
        }
    }
}

proof fn lemma_weeks_forward_len(monday: CalDate, n: nat)
    ensures
        weeks_forward(monday, n) matches Some(rest) ==> rest.len() == n,
    decreases n,
{
    if n > 0 && monday.valid() {
        if let Some(t) = date_plus_days(
            monday.year as int,
            monday.month as int,
            monday.day as int,
            7,
        ) {
            lemma_weeks_forward_len(date_of(t), (n - 1) as nat);
        }
    }
}

/// A forward range covers the week of its start and exactly `n` weeks after it.
pub proof fn lemma_weeks_from_count(d: CalDate, n: nat)
    ensures
        weeks_from_spec(d, n) matches Some(ws) ==> ws.len() == n + 1 && ws[0] == week_of_date(d),
{
    let first = week_of_date(d);
    if let Some(m) = iso_date(first.year as int, first.week as int, 0) {
        lemma_weeks_forward_len(date_of(m), n);
    }
}

/// A calendar is refused as unauthorized exactly when the token is not the API key, and
/// the cache may answer exactly the requests without a date range.
pub proof fn lemma_calendar_access(
    token: Option<Seq<char>>,
    from: Option<Seq<char>>,
    to: Option<Seq<char>>,
    api_key: Seq<char>,
    ahead: nat,
    today: CalDate,
)
    ensures
        (calendar_plan_spec(token, from, to, api_key, ahead, today) == Err::<
            Option<(Seq<IsoWeek>, bool)>,
            Option<Seq<char>>,
        >(None)) <==> token != Some(api_key),
        calendar_plan_spec(token, from, to, api_key, ahead, today) matches Ok(Some(p)) ==> p.1 == (
        from is None && to is None),
{
}

} // verus!
