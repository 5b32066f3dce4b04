//! Calendar dates, ISO weeks and clock times as plain values, with the chrono
//! calls that compute on them and the text forms that chrono's formats produce.
use vstd::prelude::*;
use crate::num::{int_text, push_int, push_padded, push_year, two_digits, year_text};
use crate::text::push_char;

verus! {

/// The earliest year that `chrono::NaiveDate` represents.
pub const MIN_YEAR: i32 = -262143;

/// The latest year that `chrono::NaiveDate` represents.
pub const MAX_YEAR: i32 = 262142;

/// A proleptic Gregorian calendar date.
#[derive(Clone, Copy, Debug, PartialEq, Eq, Structural)]
pub struct CalDate {
    pub year: i32,
    pub month: u32,
    pub day: u32,
}

/// An ISO 8601 week: ISO year and week number.
#[derive(Clone, Copy, Debug, PartialEq, Eq, Structural)]
pub struct IsoWeek {
    pub year: i32,
    pub week: u32,
}

/// A time of day; `nanosecond` of one second or more marks a leap second.
#[derive(Clone, Copy, Debug, PartialEq, Eq, Structural)]
pub struct ClockTime {
    pub hour: u32,
    pub minute: u32,
    pub second: u32,
    pub nanosecond: u32,
}

/// A day of the week.
#[derive(Clone, Copy, Debug, PartialEq, Eq, Structural)]
pub enum Weekday {
    Mon,
    Tue,
    Wed,
    Thu,
    Fri,
    Sat,
    Sun,
}

/// Leap years of the proleptic Gregorian calendar.
pub open spec fn is_leap_year(y: int) -> bool {
    (y % 4 == 0 && y % 100 != 0) || y % 400 == 0
}

/// The number of days in month `m` of year `y`.
pub open spec fn days_in_month(y: int, m: int) -> int {
    if m == 2 {
        if is_leap_year(y) {
            29
        } else {
            28
        }
    } else if m == 4 || m == 6 || m == 9 || m == 11 {
        30
    } else {
        31
    }
}

impl CalDate {
    /// The date exists and lies in the range that `chrono::NaiveDate` represents.
    pub open spec fn valid(self) -> bool {
        &&& MIN_YEAR <= self.year <= MAX_YEAR
        &&& 1 <= self.month <= 12
        &&& 1 <= self.day <= days_in_month(self.year as int, self.month as int)
    }

    /// The date as a `(year, month, day)` triple.
    pub open spec fn triple(self) -> (int, int, int) {
        (self.year as int, self.month as int, self.day as int)
    }

    /// Chronological order: `self` comes strictly before `other`.
    pub open spec fn before(self, other: CalDate) -> bool {
        ||| self.year < other.year
        ||| (self.year == other.year && self.month < other.month)
        ||| (self.year == other.year && self.month == other.month && self.day < other.day)
    }

    /// A number that grows with the date, for measuring progress through the calendar.
    pub open spec fn rank(self) -> int {
        (self.year as int) * 512 + (self.month as int) * 32 + (self.day as int)
    }

    /// `chrono`'s `%d.%m.%Y` rendering.
    pub open spec fn dmy_text(self) -> Seq<char> {
        two_digits(self.day as nat) + seq!['.'] + two_digits(self.month as nat) + seq!['.']
            + year_text(self.year as int)
    }

    /// `chrono`'s `%Y%m%d` rendering.
    pub open spec fn ymd_compact_text(self) -> Seq<char> {
        year_text(self.year as int) + two_digits(self.month as nat) + two_digits(
            self.day as nat,
        )
    }

    /// Whether `self` comes strictly after `other` (as `NaiveDate` compares).
    pub fn is_after(&self, other: &CalDate) -> (b: bool)
        ensures
            b == other.before(*self),
    {
        self.year > other.year || (self.year == other.year && self.month > other.month) || (
        self.year == other.year && self.month == other.month && self.day > other.day)
    }
}

/// For valid dates, coming strictly later means a larger rank.
pub proof fn lemma_before_rank(a: CalDate, b: CalDate)
    requires
        a.valid(),
        b.valid(),
        a.before(b),
    ensures
        a.rank() < b.rank(),
{
}

impl IsoWeek {
    /// `format!("{}-W{:02}", year, week)`.
    pub open spec fn text(self) -> Seq<char> {
        int_text(self.year as int) + seq!['-', 'W'] + two_digits(self.week as nat)
    }

    /// Strictly later week, comparing year then week number.
    pub open spec fn after(self, other: IsoWeek) -> bool {
        self.year > other.year || (self.year == other.year && self.week > other.week)
    }

    /// Renders the week as `YYYY-Www`.
    pub fn to_text(&self) -> (s: String)
        ensures
            s@ == self.text(),
    {
        let mut s = String::new();
        push_int(&mut s, self.year as i64);
        push_char(&mut s, '-');
        push_char(&mut s, 'W');
        push_padded(&mut s, self.week as u64, 2);
        assert(s@ =~= self.text());
        s
    }

    /// Whether `self` is a strictly later week than `other`.
    pub fn is_after(&self, other: &IsoWeek) -> (b: bool)
        ensures
            b == self.after(*other),
    {
        self.year > other.year || (self.year == other.year && self.week > other.week)
    }
}

impl ClockTime {
    /// `chrono`'s `%H%M%S` rendering (a leap second shows as second 60).
    pub open spec fn hms_compact_text(self) -> Seq<char> {
        two_digits(self.hour as nat) + two_digits(self.minute as nat) + two_digits(
            (self.second + self.nanosecond / 1_000_000_000) as nat,
        )
    }

    /// The time as reported by `chrono::NaiveTime`: hour, minute, second and nanosecond
    /// in their documented ranges.
    pub open spec fn valid(self) -> bool {
        self.hour < 24 && self.minute < 60 && self.second < 60 && self.nanosecond < 2_000_000_000
    }
}

impl Weekday {
    /// Days since Monday.
    pub open spec fn index(self) -> int {
        match self {
            Weekday::Mon => 0,
            Weekday::Tue => 1,
            Weekday::Wed => 2,
            Weekday::Thu => 3,
            Weekday::Fri => 4,
            Weekday::Sat => 5,
            Weekday::Sun => 6,
        }
    }

    /// Days since Monday.
    pub fn days_from_monday(&self) -> (n: u8)
        ensures
            n as int == self.index(),
    {
        match self {
            Weekday::Mon => 0,
            Weekday::Tue => 1,
            Weekday::Wed => 2,
            Weekday::Thu => 3,
            Weekday::Fri => 4,
            Weekday::Sat => 5,
            Weekday::Sun => 6,
        }
    }
}

/// Appends the `%d.%m.%Y` rendering of `d` to `out`.
pub fn push_dmy(out: &mut String, d: &CalDate)
    ensures
        final(out)@ == old(out)@ + d.dmy_text(),
{
    push_padded(out, d.day as u64, 2);
    push_char(out, '.');
    push_padded(out, d.month as u64, 2);
    push_char(out, '.');
    push_year(out, d.year);
    assert(out@ =~= old(out)@ + d.dmy_text());
}

/// The `%d.%m.%Y` rendering of `d`.
pub fn format_dmy(d: &CalDate) -> (s: String)
    ensures
        s@ == d.dmy_text(),
{
    let mut s = String::new();
    push_dmy(&mut s, d);
    assert(s@ =~= d.dmy_text());
    s
}

/// Appends the `%Y%m%d` rendering of `d` to `out`.
pub fn push_ymd_compact(out: &mut String, d: &CalDate)
    ensures
        final(out)@ == old(out)@ + d.ymd_compact_text(),
{
    push_year(out, d.year);
    push_padded(out, d.month as u64, 2);
    push_padded(out, d.day as u64, 2);
    assert(out@ =~= old(out)@ + d.ymd_compact_text());
}

/// Appends the `%H%M%S` rendering of `t` to `out`.
pub fn push_hms_compact(out: &mut String, t: &ClockTime)
    requires
        t.valid(),
    ensures
        final(out)@ == old(out)@ + t.hms_compact_text(),
{
    push_padded(out, t.hour as u64, 2);
    push_padded(out, t.minute as u64, 2);
    push_padded(out, (t.second + t.nanosecond / 1_000_000_000) as u64, 2);
    assert(out@ =~= old(out)@ + t.hms_compact_text());
}

/// What `NaiveDate::from_isoywd_opt(year, week, weekday)` returns, as
/// `(year, month, day)`; `weekday` counts days since Monday.
pub uninterp spec fn iso_week_date(year: int, week: int, weekday: int) -> Option<(int, int, int)>;

/// What `NaiveDate::iso_week` returns for the date `(year, month, day)`, as `(year, week)`.
pub uninterp spec fn iso_week_of(year: int, month: int, day: int) -> (int, int);

/// What `NaiveDate::checked_add_days(Days::new(n))` returns for the date `(year, month, day)`.
pub uninterp spec fn date_plus_days(year: int, month: int, day: int, n: int) -> Option<(int, int, int)>;

/// What `NaiveDate::checked_sub_days(Days::new(n))` returns for the date `(year, month, day)`.
pub uninterp spec fn date_minus_days(year: int, month: int, day: int, n: int) -> Option<(int, int, int)>;

/// What `NaiveDate::parse_from_str(s, fmt)` yields on success, as `(year, month, day)`.
pub uninterp spec fn parsed_date(s: Seq<char>, fmt: Seq<char>) -> Option<(int, int, int)>;

/// What `NaiveTime::parse_from_str(s, fmt)` yields on success, as
/// `(hour, minute, second, nanosecond)`.
pub uninterp spec fn parsed_time(s: Seq<char>, fmt: Seq<char>) -> Option<(int, int, int, int)>;

/// The date `(year, month, day)` is the Monday of its ISO week, as chrono computes both.
pub open spec fn is_iso_monday(year: int, month: int, day: int) -> bool {
    let w = iso_week_of(year, month, day);
    iso_week_date(w.0, w.1, 0) == Some((year, month, day))
}

/// The ISO week after week `week` of ISO year `year`: the next week number when chrono
/// can date that week's Monday, otherwise the first week of the next ISO year.
pub open spec fn next_iso_week(year: int, week: int) -> (int, int) {
    if iso_week_date(year, week + 1, 0) is Some {
        (year, week + 1)
    } else {
        (year + 1, 1)
    }
}

/// The optional date as an optional triple.
pub open spec fn opt_triple(d: Option<CalDate>) -> Option<(int, int, int)> {
    match d {
        Some(d) => Some(d.triple()),
        None => None,
    }
}

/// `chrono::NaiveDate::from_isoywd_opt`: the date of the given weekday in ISO week `week`
/// of ISO year `year`. Named by `iso_week_date`. chrono documents `None` for week 0 and for
/// weeks past the last one of the year (52 or 53); every date it returns is valid, and its
/// ISO week date is the one it was made from, so its ISO week is `(year, week)`. The year
/// is kept next to chrono's range: chrono computes `year - 1` and `year + 1`, which
/// overflow at the ends of `i32`.
#[verifier::external_body]
pub(crate) fn date_of_iso_week(year: i32, week: u32, weekday: u8) -> (r: Option<CalDate>)
    requires
        weekday < 7,
        datable_iso_year(year as int),
    ensures
        opt_triple(r) == iso_week_date(year as int, week as int, weekday as int),
        week == 0 || week > 53 ==> r is None,
        r matches Some(d) ==> d.valid(),
        r matches Some(d) ==> iso_week_of(d.year as int, d.month as int, d.day as int) == (
            year as int,
            week as int,
        ),
{
    let wd = chrono::Weekday::try_from(weekday).ok()?;
    chrono::NaiveDate::from_isoywd_opt(year, week, wd).map(
        |d| CalDate { year: chrono::Datelike::year(&d), month: chrono::Datelike::month(&d), day: chrono::Datelike::day(&d) },
    )
}

/// The ISO years next to chrono's range of dates, the only ones in which it can date a
/// day: a week of an ISO year further out lies wholly outside the range.
pub open spec fn datable_iso_year(y: int) -> bool {
    MIN_YEAR - 1 <= y <= MAX_YEAR + 1
}

/// The date of weekday `weekday` (days since Monday) in ISO week `week` of ISO year
/// `year`, as chrono computes it; `None` in ISO years that chrono cannot date.
pub open spec fn iso_date(year: int, week: int, weekday: int) -> Option<(int, int, int)> {
    if datable_iso_year(year) {
        iso_week_date(year, week, weekday)
    } else {
        None
    }
}

/// The date of weekday `weekday` (days since Monday, below 7) in ISO week `week` of ISO
/// year `year`; `None` when there is no such week or chrono cannot date the day. Its ISO
/// week is `(year, week)`.
pub fn iso_week_day(year: i32, week: u32, weekday: u8) -> (r: Option<CalDate>)
    requires
        weekday < 7,
    ensures
        opt_triple(r) == iso_date(year as int, week as int, weekday as int),
        week == 0 || week > 53 ==> r is None,
        r matches Some(d) ==> d.valid(),
        r matches Some(d) ==> iso_week_of(d.year as int, d.month as int, d.day as int) == (
            year as int,
            week as int,
        ),
{
    if year < MIN_YEAR - 1 || year > MAX_YEAR + 1 {
        None
    } else {
        date_of_iso_week(year, week, weekday)
    }
}

/// `chrono::NaiveDate::iso_week` of the valid date `d`. Named by `iso_week_of`; chrono
/// documents week numbers from 1 to 53, and the ISO year is the date's year, the one
/// before or the one after. ISO weeks are numbered from 1 without gaps, so every week of
/// the ISO year up to the date's own has a Monday no later than the date; unless the date
/// lies in chrono's first two years, those Mondays are in its range and chrono dates them.
#[verifier::external_body]
pub(crate) fn iso_week(d: &CalDate) -> (w: IsoWeek)
    requires
        d.valid(),
    ensures
        (w.year as int, w.week as int) == iso_week_of(d.year as int, d.month as int, d.day as int),
        1 <= w.week <= 53,
        d.year - 1 <= w.year <= d.year + 1,
        d.year > MIN_YEAR + 1 ==> forall|k: int|
            1 <= k <= w.week ==> (#[trigger] iso_week_date(w.year as int, k, 0)) is Some,
{
    let n = chrono::NaiveDate::from_ymd_opt(d.year, d.month, d.day).unwrap();
    let w = chrono::Datelike::iso_week(&n);
    IsoWeek { year: w.year(), week: w.week() }
}

/// `chrono::NaiveDate::checked_add_days(Days::new(n))` on the valid date `d`: the date `n`
/// days later, `None` past chrono's range. Named by `date_plus_days`; a date `n > 0` days
/// later comes after `d`. Seven days after the Monday of an ISO week is the Monday of the
/// ISO week after it.
#[verifier::external_body]
pub(crate) fn add_days(d: &CalDate, n: u64) -> (r: Option<CalDate>)
    requires
        d.valid(),
    ensures
        opt_triple(r) == date_plus_days(d.year as int, d.month as int, d.day as int, n as int),
        r matches Some(e) ==> e.valid() && (n > 0 ==> d.before(e)),
        r matches Some(e) ==> (n == 7 && is_iso_monday(d.year as int, d.month as int, d.day as int)
            ==> is_iso_monday(e.year as int, e.month as int, e.day as int) && iso_week_of(
            e.year as int,
            e.month as int,
            e.day as int,
        ) == next_iso_week(
            iso_week_of(d.year as int, d.month as int, d.day as int).0,
            iso_week_of(d.year as int, d.month as int, d.day as int).1,
        )),
{
    let nd = chrono::NaiveDate::from_ymd_opt(d.year, d.month, d.day).unwrap();
    nd.checked_add_days(chrono::Days::new(n)).map(
        |e| CalDate { year: chrono::Datelike::year(&e), month: chrono::Datelike::month(&e), day: chrono::Datelike::day(&e) },
    )
}

/// `chrono::NaiveDate::checked_sub_days(Days::new(n))` on the valid date `d`: the date `n`
/// days earlier, `None` past chrono's range. Named by `date_minus_days`; a date `n > 0`
/// days earlier comes before `d`. Seven days before the Monday of an ISO week is the Monday
/// of the ISO week before it.
#[verifier::external_body]
pub(crate) fn sub_days(d: &CalDate, n: u64) -> (r: Option<CalDate>)
    requires
        d.valid(),
    ensures
        opt_triple(r) == date_minus_days(d.year as int, d.month as int, d.day as int, n as int),
        r matches Some(e) ==> e.valid() && (n > 0 ==> e.before(*d)),
        r matches Some(e) ==> (n == 7 && is_iso_monday(d.year as int, d.month as int, d.day as int)
            ==> is_iso_monday(e.year as int, e.month as int, e.day as int) && next_iso_week(
            iso_week_of(e.year as int, e.month as int, e.day as int).0,
            iso_week_of(e.year as int, e.month as int, e.day as int).1,
        ) == iso_week_of(d.year as int, d.month as int, d.day as int)),
{
    let nd = chrono::NaiveDate::from_ymd_opt(d.year, d.month, d.day).unwrap();
    nd.checked_sub_days(chrono::Days::new(n)).map(
        |e| CalDate { year: chrono::Datelike::year(&e), month: chrono::Datelike::month(&e), day: chrono::Datelike::day(&e) },
    )
}

/// `chrono::NaiveDate::parse_from_str(s, fmt)`, `None` on a parse error. Named by
/// `parsed_date`; every date it returns is valid.
#[verifier::external_body]
pub(crate) fn parse_date(s: &str, fmt: &str) -> (r: Option<CalDate>)
    ensures
        opt_triple(r) == parsed_date(s@, fmt@),
        r matches Some(d) ==> d.valid(),
{
    chrono::NaiveDate::parse_from_str(s, fmt).ok().map(
        |e| CalDate { year: chrono::Datelike::year(&e), month: chrono::Datelike::month(&e), day: chrono::Datelike::day(&e) },
    )
}

/// The optional time as an optional quadruple.
pub open spec fn opt_quad(t: Option<ClockTime>) -> Option<(int, int, int, int)> {
    match t {
        Some(t) => Some((t.hour as int, t.minute as int, t.second as int, t.nanosecond as int)),
        None => None,
    }
}

/// `chrono::NaiveTime::parse_from_str(s, fmt)`, `None` on a parse error. Named by
/// `parsed_time`; chrono documents the ranges of hour, minute, second and nanosecond.
#[verifier::external_body]
pub(crate) fn parse_time(s: &str, fmt: &str) -> (r: Option<ClockTime>)
    ensures
        opt_quad(r) == parsed_time(s@, fmt@),
        r matches Some(t) ==> t.valid(),
{
    chrono::NaiveTime::parse_from_str(s, fmt).ok().map(
        |t| ClockTime { hour: chrono::Timelike::hour(&t), minute: chrono::Timelike::minute(&t), second: chrono::Timelike::second(&t), nanosecond: chrono::Timelike::nanosecond(&t) },
    )
}

/// Today's date on the local clock (`chrono::Local::now().date_naive()`). It depends on the
/// clock and the time zone, so only its validity is stated.
#[verifier::external_body]
pub(crate) fn local_today() -> (d: CalDate)
    ensures
        d.valid(),
{
    let n = chrono::Local::now().date_naive();
    CalDate { year: chrono::Datelike::year(&n), month: chrono::Datelike::month(&n), day: chrono::Datelike::day(&n) }
}

/// The current date and time in UTC (`chrono::Utc::now()`). It depends on the clock, so only
/// the documented ranges of its fields are stated.
#[verifier::external_body]
pub(crate) fn utc_now() -> (r: (CalDate, ClockTime))
    ensures
        r.0.valid(),
        r.1.valid(),
{
    let n = chrono::Utc::now().naive_utc();
    let d = CalDate { year: chrono::Datelike::year(&n), month: chrono::Datelike::month(&n), day: chrono::Datelike::day(&n) };
    let t = ClockTime { hour: chrono::Timelike::hour(&n), minute: chrono::Timelike::minute(&n), second: chrono::Timelike::second(&n), nanosecond: chrono::Timelike::nanosecond(&n) };
    (d, t)
}
} // verus!
