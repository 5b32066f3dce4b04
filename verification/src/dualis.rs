//! Dualis / CampusNet: the timetable model, the reading of Dualis pages and URLs, and
//! the decisions of the login and timetable-fetching steps.
//!
//! The system embeds the session token directly in `ARGUMENTS` URL parameters, so the
//! token is taken from the redirect after login.
//!
//! URL pattern:
//!   `/scripts/mgrqispi.dll?APPNAME=CampusNet&PRGNAME=<page>&ARGUMENTS=-N<session>,...`
use vstd::prelude::*;
use crate::date::{
    add_days, date_minus_days, iso_week_day, date_plus_days, format_dmy, iso_week, iso_date,
    is_iso_monday, next_iso_week, iso_week_date,
    iso_week_of, sub_days, CalDate, IsoWeek, Weekday,
};
use crate::error::AppError;
use crate::html::{select_elements, selected_elements, ElementView, ScrapedElement};
use crate::text::{
    chars_of, find_from, find_pattern, is_prefix, lowercase, occurs_at, split_char, split_on,
    starts_with, string_from, strip_prefixes, to_lowercase, to_uppercase, trim, trim_chars,
    trim_start_matches, uppercase, views, copy_range, second_piece, second_piece_of, after_first,
    after_first_of,
};

verus! {

/// One lecture or exam in a timetable.
#[derive(Debug)]
pub struct Event {
    pub time: String,
    pub title: String,
    pub room: Option<String>,
    pub lecturer: Option<String>,
    pub event_type: Option<String>,
    pub is_exam: bool,
}

/// One day of a timetable with its events.
#[derive(Debug)]
pub struct Day {
    pub date: String,
    pub weekday: String,
    pub events: Vec<Event>,
}

/// The timetable of one ISO week.
#[derive(Debug)]
pub struct Timetable {
    pub week: String,
    pub prev_week: String,
    pub next_week: String,
    pub days: Vec<Day>,
}

/// An [`Event`] as mathematical values.
pub struct EventView {
    pub time: Seq<char>,
    pub title: Seq<char>,
    pub room: Option<Seq<char>>,
    pub lecturer: Option<Seq<char>>,
    pub event_type: Option<Seq<char>>,
    pub is_exam: bool,
}

/// A [`Day`] as mathematical values.
pub struct DayView {
    pub date: Seq<char>,
    pub weekday: Seq<char>,
    pub events: Seq<EventView>,
}

/// A [`Timetable`] as mathematical values.
pub struct TimetableView {
    pub week: Seq<char>,
    pub prev_week: Seq<char>,
    pub next_week: Seq<char>,
    pub days: Seq<DayView>,
}

/// The characters of an optional string.
pub open spec fn opt_chars(s: Option<String>) -> Option<Seq<char>> {
    match s {
        Some(s) => Some(s@),
        None => None,
    }
}

impl View for Event {
    type V = EventView;

    open spec fn view(&self) -> EventView {
        EventView {
            time: self.time@,
            title: self.title@,
            room: opt_chars(self.room),
            lecturer: opt_chars(self.lecturer),
            event_type: opt_chars(self.event_type),
            is_exam: self.is_exam,
        }
    }
}

impl View for Day {
    type V = DayView;

    open spec fn view(&self) -> DayView {
        DayView {
            date: self.date@,
            weekday: self.weekday@,
            events: self.events@.map_values(|e: Event| e@),
        }
    }
}

impl View for Timetable {
    type V = TimetableView;

    open spec fn view(&self) -> TimetableView {
        TimetableView {
            week: self.week@,
            prev_week: self.prev_week@,
            next_week: self.next_week@,
            days: self.days@.map_values(|d: Day| d@),
        }
    }
}

/// The English name of a weekday.
pub open spec fn weekday_text(w: Weekday) -> Seq<char> {
    match w {
        Weekday::Mon => "Monday"@,
        Weekday::Tue => "Tuesday"@,
        Weekday::Wed => "Wednesday"@,
        Weekday::Thu => "Thursday"@,
        Weekday::Fri => "Friday"@,
        Weekday::Sat => "Saturday"@,
        Weekday::Sun => "Sunday"@,
    }
}

/// The English name of a weekday.
pub fn weekday_name(w: Weekday) -> (s: &'static str)
    ensures
        s@ == weekday_text(w),
{
    match w {
        Weekday::Mon => "Monday",
        Weekday::Tue => "Tuesday",
        Weekday::Wed => "Wednesday",
        Weekday::Thu => "Thursday",
        Weekday::Fri => "Friday",
        Weekday::Sat => "Saturday",
        Weekday::Sun => "Sunday",
    }
}

/// The weekday index (Monday = 0) that the German day name at the start of an `abbr`
/// attribute denotes, compared after lower-casing.
pub open spec fn german_weekday(abbr: Seq<char>) -> Option<int> {
    let l = lowercase(abbr);
    if is_prefix("montag"@, l) {
        Some(0)
    } else if is_prefix("dienstag"@, l) {
        Some(1)
    } else if is_prefix("mittwoch"@, l) {
        Some(2)
    } else if is_prefix("donnerstag"@, l) {
        Some(3)
    } else if is_prefix("freitag"@, l) {
        Some(4)
    } else if is_prefix("samstag"@, l) {
        Some(5)
    } else if is_prefix("sonntag"@, l) {
        Some(6)
    } else {
        None
    }
}

/// Map the German weekday prefix in an `abbr` attribute to a 0-based index (Mon=0).
/// e.g. "Dienstag Spalte 1" → Some(1)
pub fn german_weekday_index(abbr: &str) -> (r: Option<usize>)
    ensures
        r matches Some(i) ==> german_weekday(abbr@) == Some(i as int),
        r is None ==> german_weekday(abbr@) is None,
{
    let lower = to_lowercase(abbr);
    let l = chars_of(lower.as_str());
    if starts_with(&l, &chars_of("montag")) {
        Some(0)
    } else if starts_with(&l, &chars_of("dienstag")) {
        Some(1)
    } else if starts_with(&l, &chars_of("mittwoch")) {
        Some(2)
    } else if starts_with(&l, &chars_of("donnerstag")) {
        Some(3)
    } else if starts_with(&l, &chars_of("freitag")) {
        Some(4)
    } else if starts_with(&l, &chars_of("samstag")) {
        Some(5)
    } else if starts_with(&l, &chars_of("sonntag")) {
        Some(6)
    } else {
        None
    }
}

/// A `;`-separated part of a `Refresh` header that carries the URL: after trimming and
/// upper-casing it starts with `URL=`.
pub open spec fn is_url_part(p: Seq<char>) -> bool {
    is_prefix("URL="@, uppercase(trim(p)))
}

/// The first part that carries the URL.
pub open spec fn first_url_part(parts: Seq<Seq<char>>) -> Option<Seq<char>>
    decreases parts.len(),
{
    if parts.len() == 0 {
        None
    } else if is_url_part(parts[0]) {
        Some(parts[0])
    } else {
        first_url_part(parts.drop_first())
    }
}

/// The URL in a `Refresh` header value such as `0; URL=/path`: the trimmed text after
/// the first `=` of the first part that carries `URL=`, when that text is not empty.
pub open spec fn refresh_url(refresh: Seq<char>) -> Option<Seq<char>> {
    match first_url_part(split_char(refresh, ';')) {
        None => None,
        Some(p) => match after_first(trim(p), '=') {
            None => None,
            Some(u) => if trim(u).len() == 0 {
                None
            } else {
                Some(trim(u))
            },
        },
    }
}

/// Parse the URL out of a `Refresh` header value.
/// Format: "0; URL=/path/to/page" or "0;URL=..."
pub fn parse_refresh_url(refresh: &str) -> (r: Option<String>)
    ensures
        r matches Some(u) ==> refresh_url(refresh@) == Some(u@),
        r is None ==> refresh_url(refresh@) is None,
{
    let parts = split_on(&chars_of(refresh), ';');
    let ghost all = views(parts@);
    let marker = chars_of("URL=");
    let mut i: usize = 0;
    let mut found: Option<usize> = None;
    assert(all.skip(0) =~= all);
    while i < parts.len() && found.is_none()
        invariant
            i <= parts@.len(),
            all == views(parts@),
            all.len() == parts@.len(),
            marker@ == "URL="@,
            found is None ==> first_url_part(all) == first_url_part(all.skip(i as int)),
            found matches Some(k) ==> k < parts@.len() && first_url_part(all) == Some(all[k as int]),
        decreases parts@.len() - i + (if found is None { 1int } else { 0int }),
    {
        let t = trim_chars(&parts[i]);
        let up = to_uppercase(string_from(&t).as_str());
        assert(all[i as int] == parts@[i as int]@);
        assert(all.skip(i as int).drop_first() =~= all.skip(i + 1));
        assert(all.skip(i as int)[0] == all[i as int]);
        if starts_with(&chars_of(up.as_str()), &marker) {
            assert(is_url_part(all[i as int]));
            found = Some(i);
        } else {
            i = i + 1;
        }
    }
    let k = match found {
        Some(k) => k,
        None => {
            assert(all.skip(i as int).len() == 0);
            return None;
        },
    };
    let part = trim_chars(&parts[k]);
    assert(all[k as int] == parts@[k as int]@);
    match after_first_of(&part, '=') {
        None => None,
        Some(u) => {
            let url = trim_chars(&u);
            if url.len() == 0 {
                None
            } else {
                Some(string_from(&url))
            }
        },
    }
}

/// The session token in a URL: the text after `ARGUMENTS=` up to the first `,`, with
/// leading `-N` markers removed, when that is not empty.
pub open spec fn first_argument(url: Seq<char>) -> Option<Seq<char>> {
    match second_piece(url, "ARGUMENTS="@) {
        None => None,
        Some(args) => {
            let token = strip_prefixes(split_char(args, ',')[0], "-N"@);
            if token.len() == 0 {
                None
            } else {
                Some(token)
            }
        },
    }
}

/// Extract the first -N<token> value from an ARGUMENTS parameter.
/// e.g. "ARGUMENTS=-N441417119100802,-N000019," → "441417119100802"
pub fn extract_first_argument(url: &str) -> (r: Option<String>)
    ensures
        r matches Some(t) ==> first_argument(url@) == Some(t@),
        r is None ==> first_argument(url@) is None,
{
    let marker = chars_of("ARGUMENTS=");
    proof {
        reveal_strlit("ARGUMENTS=");
    }
    let args = match second_piece_of(&chars_of(url), &marker) {
        Some(a) => a,
        None => return None,
    };
    let parts = split_on(&args, ',');
    assert(views(parts@)[0] == parts@[0]@);
    let token = trim_start_matches(&parts[0], &chars_of("-N"));
    if token.len() == 0 {
        None
    } else {
        Some(string_from(&token))
    }
}

/// The CSS selector of navigation links to the scheduler.
pub open spec fn scheduler_link_selector() -> Seq<char> {
    "a[href*='SCHEDULER']"@
}

/// The menu number in a link's `href`, when the link carries the session token: the
/// second `,`-separated argument after `ARGUMENTS=`, with leading `-N` markers removed,
/// when that is not empty.
pub open spec fn menu_in_href(href: Seq<char>, token: Seq<char>) -> Option<Seq<char>> {
    if find_from(href, token, 0) is None {
        None
    } else {
        match second_piece(href, "ARGUMENTS="@) {
            None => None,
            Some(args) => {
                let parts = split_char(args, ',');
                if parts.len() >= 2 {
                    let menu = strip_prefixes(parts[1], "-N"@);
                    if menu.len() > 0 {
                        Some(menu)
                    } else {
                        None
                    }
                } else {
                    None
                }
            },
        }
    }
}

/// The `href` of a scraped link, empty when it has none.
pub open spec fn href_of(e: ElementView) -> Seq<char> {
    match e.0[0] {
        Some(h) => h,
        None => Seq::empty(),
    }
}

/// The menu number of the first link, in document order, that yields one.
pub open spec fn first_menu(links: Seq<ElementView>, token: Seq<char>) -> Option<Seq<char>>
    decreases links.len(),
{
    if links.len() == 0 {
        None
    } else {
        match menu_in_href(href_of(links[0]), token) {
            Some(m) => Some(m),
            None => first_menu(links.drop_first(), token),
        }
    }
}

/// The scheduler's menu number in the dashboard page `html`; a selector that scraper
/// rejects matches no link.
pub open spec fn scheduler_menu(html: Seq<char>, token: Seq<char>) -> Option<Seq<char>> {
    match selected_elements(html, scheduler_link_selector(), seq!["href"@], Seq::empty()) {
        None => None,
        Some(links) => first_menu(links, token),
    }
}

/// The menu number in one link's `href` (see [`menu_in_href`]).
fn menu_number(href: &Vec<char>, token: &Vec<char>) -> (r: Option<Vec<char>>)
    ensures
        r matches Some(m) ==> menu_in_href(href@, token@) == Some(m@),
        r is None ==> menu_in_href(href@, token@) is None,
{
    if find_pattern(href, token, 0).is_none() {
        return None;
    }
    let marker = chars_of("ARGUMENTS=");
    proof {
        reveal_strlit("ARGUMENTS=");
    }
    let args = match second_piece_of(href, &marker) {
        Some(a) => a,
        None => return None,
    };
    let parts = split_on(&args, ',');
    if parts.len() >= 2 {
        assert(views(parts@)[1] == parts@[1]@);
        let menu = trim_start_matches(&parts[1], &chars_of("-N"));
        if menu.len() > 0 {
            Some(menu)
        } else {
            None
        }
    } else {
        None
    }
}

/// Extract the Stundenplan menu number from the dashboard nav.
/// e.g. href="...PRGNAME=SCHEDULER&ARGUMENTS=-N<session>,-N000028,..." → "000028"
pub fn extract_scheduler_menu_no(html: &str, session_token: &str) -> (r: Option<String>)
    ensures
        r matches Some(m) ==> scheduler_menu(html@, session_token@) == Some(m@),
        r is None ==> scheduler_menu(html@, session_token@) is None,
{
    let attrs = vec![String::from_str("href")];
    let inner: Vec<String> = Vec::new();
    assert(attrs.deep_view() =~= seq!["href"@]);
    assert(inner.deep_view() =~= Seq::<Seq<char>>::empty());
    let links = match select_elements(html, "a[href*='SCHEDULER']", &attrs, &inner) {
        Some(v) => v,
        None => return None,
    };
    let ghost all = crate::html::element_views(links@);
    assert(scheduler_menu(html@, session_token@) == first_menu(all, session_token@));
    let token = chars_of(session_token);
    let mut i: usize = 0;
    assert(all.skip(0) =~= all);
    while i < links.len()
        invariant
            i <= links@.len(),
            all == crate::html::element_views(links@),
            forall|j: int| 0 <= j < links@.len() ==> #[trigger] links@[j].attrs@.len() == 1,
            token@ == session_token@,
            scheduler_menu(html@, session_token@) == first_menu(all, session_token@),
            first_menu(all, token@) == first_menu(all.skip(i as int), token@),
        decreases links@.len() - i,
    {
        assert(links@[i as int].attrs@.len() == 1);
        let href = match &links[i].attrs[0] {
            Some(h) => chars_of(h.as_str()),
            None => Vec::new(),
        };
        assert(href@ =~= href_of(all[i as int]));
        assert(all.skip(i as int).drop_first() =~= all.skip(i + 1));
        assert(all.skip(i as int)[0] == all[i as int]);
        match menu_number(&href, &token) {
            Some(m) => return Some(string_from(&m)),
            None => {},
        }
        i = i + 1;
    }
    assert(all.skip(i as int).len() == 0);
    None
}

/// The selectors tried, in order, for Dualis's own login error message.
pub open spec fn login_error_selectors() -> Seq<Seq<char>> {
    seq![".errors"@, ".errormessage"@, ".errorMessage"@, "p.error"@, "div.error"@, "span.error"@]
}

/// The text of the first element that a selector matched.
pub open spec fn first_text(found: Option<Seq<ElementView>>) -> Option<Seq<char>> {
    match found {
        Some(es) => if es.len() > 0 {
            Some(es[0].1)
        } else {
            None
        },
        None => None,
    }
}

/// `Dualis says: "<text>"`.
pub open spec fn dualis_says(text: Seq<char>) -> Seq<char> {
    "Dualis says: \""@ + text + "\""@
}

/// Dualis's message on a failed login page: for the first selector in `sels` whose first
/// match has non-blank text, that trimmed text quoted; selectors that scraper rejects or
/// that match nothing are skipped.
pub open spec fn login_error_in(html: Seq<char>, sels: Seq<Seq<char>>) -> Option<Seq<char>>
    decreases sels.len(),
{
    if sels.len() == 0 {
        None
    } else {
        match first_text(selected_elements(html, sels[0], Seq::empty(), Seq::empty())) {
            Some(t) => if trim(t).len() > 0 {
                Some(dualis_says(trim(t)))
            } else {
                login_error_in(html, sels.drop_first())
            },
            None => login_error_in(html, sels.drop_first()),
        }
    }
}

/// Try to extract Dualis's own error message from a failed login page.
pub fn extract_login_error(html: &str) -> (r: Option<String>)
    ensures
        r matches Some(m) ==> login_error_in(html@, login_error_selectors()) == Some(m@),
        r is None ==> login_error_in(html@, login_error_selectors()) is None,
{
    let sels: Vec<&str> = vec![".errors", ".errormessage", ".errorMessage", "p.error", "div.error", "span.error"];
    let ghost all = sels@.map_values(|s: &str| s@);
    assert(all =~= login_error_selectors());
    let none: Vec<String> = Vec::new();
    assert(none.deep_view() =~= Seq::<Seq<char>>::empty());
    let mut i: usize = 0;
    assert(all.skip(0) =~= all);
    while i < sels.len()
        invariant
            i <= sels@.len(),
            all == sels@.map_values(|s: &str| s@),
            none.deep_view() =~= Seq::<Seq<char>>::empty(),
            login_error_in(html@, login_error_selectors()) == login_error_in(html@, all.skip(i as int)),
        decreases sels@.len() - i,
    {
        assert(all.skip(i as int).drop_first() =~= all.skip(i + 1));
        assert(all.skip(i as int)[0] == sels@[i as int]@);
        let found = select_elements(html, sels[i], &none, &none);
        match found {
            Some(es) => {
                if es.len() > 0 {
                    let t = trim_chars(&chars_of(es[0].text.as_str()));
                    if t.len() > 0 {
                        let mut m = String::from_str("Dualis says: \"");
                        m.append(string_from(&t).as_str());
                        m.append("\"");
                        return Some(m);
                    }
                }
            },
            None => {},
        }
        i = i + 1;
    }
    assert(all.skip(i as int).len() == 0);
    None
}

/// The weekday `k` days after Monday.
pub open spec fn weekday_at(k: int) -> Weekday {
    if k == 0 {
        Weekday::Mon
    } else if k == 1 {
        Weekday::Tue
    } else if k == 2 {
        Weekday::Wed
    } else if k == 3 {
        Weekday::Thu
    } else if k == 4 {
        Weekday::Fri
    } else if k == 5 {
        Weekday::Sat
    } else {
        Weekday::Sun
    }
}

/// The weekday `k` days after Monday.
pub fn weekday_from_index(k: u8) -> (w: Weekday)
    ensures
        w == weekday_at(k as int),
{
    if k == 0 {
        Weekday::Mon
    } else if k == 1 {
        Weekday::Tue
    } else if k == 2 {
        Weekday::Wed
    } else if k == 3 {
        Weekday::Thu
    } else if k == 4 {
        Weekday::Fri
    } else if k == 5 {
        Weekday::Sat
    } else {
        Weekday::Sun
    }
}

/// The date with fields `(year, month, day)`.
pub open spec fn date_of(t: (int, int, int)) -> CalDate {
    CalDate { year: t.0 as i32, month: t.1 as u32, day: t.2 as u32 }
}

/// The ISO week with fields `(year, week)`.
pub open spec fn week_of(t: (int, int)) -> IsoWeek {
    IsoWeek { year: t.0 as i32, week: t.1 as u32 }
}

/// The first `n` weekdays of ISO week `week` (Monday first) that chrono can date, with
/// their dates.
pub open spec fn week_slots_upto(week: IsoWeek, n: int) -> Seq<(CalDate, Weekday)>
    decreases n,
{
    if n <= 0 {
        Seq::empty()
    } else {
        let prev = week_slots_upto(week, n - 1);
        match iso_date(week.year as int, week.week as int, n - 1) {
            Some(t) => prev.push((date_of(t), weekday_at(n - 1))),
            None => prev,
        }
    }
}

/// The days of ISO week `week`, Monday to Sunday, that chrono can date.
pub open spec fn week_slots(week: IsoWeek) -> Seq<(CalDate, Weekday)> {
    week_slots_upto(week, 7)
}

/// The CSS selector of event cells in the week view.
pub open spec fn cell_selector() -> Seq<char> {
    "td.appointment[abbr]"@
}

/// The attributes read from an event cell: its day and its style.
pub open spec fn cell_attrs() -> Seq<Seq<char>> {
    seq!["abbr"@, "style"@]
}

/// The parts read from an event cell: the time span and the course link.
pub open spec fn cell_inner() -> Seq<Seq<char>> {
    seq!["span.timePeriod"@, "a.link"@]
}

/// The trimmed, non-blank pieces, in order.
pub open spec fn nonblank_lines(pieces: Seq<Seq<char>>) -> Seq<Seq<char>>
    decreases pieces.len(),
{
    if pieces.len() == 0 {
        Seq::empty()
    } else {
        let prev = nonblank_lines(pieces.drop_last());
        if trim(pieces.last()).len() > 0 {
            prev.push(trim(pieces.last()))
        } else {
            prev
        }
    }
}

/// The time and room in a cell's time span: its first and second non-blank lines.
pub open spec fn time_and_room(span: Option<Seq<char>>) -> (Seq<char>, Option<Seq<char>>) {
    match span {
        None => (Seq::empty(), None),
        Some(raw) => {
            let ps = nonblank_lines(split_char(raw, '\n'));
            (
                if ps.len() > 0 {
                    ps[0]
                } else {
                    Seq::empty()
                },
                if ps.len() > 1 {
                    Some(ps[1])
                } else {
                    None
                },
            )
        },
    }
}

/// The background colour that marks an exam.
pub open spec fn exam_marker() -> Seq<char> {
    "background-color:#ff6666"@
}

/// A cell is an exam when its lower-cased style contains the exam colour.
pub open spec fn is_exam_style(style: Option<Seq<char>>) -> bool {
    match style {
        Some(s) => find_from(lowercase(s), exam_marker(), 0) is Some,
        None => false,
    }
}

/// The event in one cell with the index of its day, when the cell names one of the first
/// `ndays` days and has a non-blank title.
pub open spec fn cell_event(cell: ElementView, ndays: int) -> Option<(int, EventView)> {
    let abbr = match cell.0[0] {
        Some(a) => a,
        None => Seq::empty(),
    };
    match german_weekday(abbr) {
        None => None,
        Some(idx) => if idx >= ndays {
            None
        } else {
            let tr = time_and_room(cell.2[0]);
            let title = match cell.2[1] {
                Some(t) => trim(t),
                None => Seq::empty(),
            };
            if title.len() == 0 {
                None
            } else {
                Some(
                    (
                        idx,
                        EventView {
                            time: tr.0,
                            title: title,
                            room: tr.1,
                            lecturer: None,
                            event_type: None,
                            is_exam: is_exam_style(cell.0[1]),
                        },
                    ),
                )
            }
        },
    }
}

/// The events of the cells, in document order, with the index of their day.
pub open spec fn cell_events(cells: Seq<ElementView>, ndays: int) -> Seq<(int, EventView)>
    decreases cells.len(),
{
    if cells.len() == 0 {
        Seq::empty()
    } else {
        let prev = cell_events(cells.drop_last(), ndays);
        match cell_event(cells.last(), ndays) {
            Some(e) => prev.push(e),
            None => prev,
        }
    }
}

/// The events of day `k`, in document order.
pub open spec fn events_on(evs: Seq<(int, EventView)>, k: int) -> Seq<EventView>
    decreases evs.len(),
{
    if evs.len() == 0 {
        Seq::empty()
    } else {
        let prev = events_on(evs.drop_last(), k);
        if evs.last().0 == k {
            prev.push(evs.last().1)
        } else {
            prev
        }
    }
}

/// Weekdays are always listed; Saturday and Sunday only when they have events.
pub open spec fn keeps_day(wd: Weekday, events: Seq<EventView>) -> bool {
    (wd != Weekday::Sat && wd != Weekday::Sun) || events.len() > 0
}

/// The listed days among the first `n` slots, with their events.
pub open spec fn filled_days(slots: Seq<(CalDate, Weekday)>, evs: Seq<(int, EventView)>, n: int) -> Seq<
    DayView,
>
    decreases n,
{
    if n <= 0 {
        Seq::empty()
    } else {
        let prev = filled_days(slots, evs, n - 1);
        let es = events_on(evs, n - 1);
        if keeps_day(slots[n - 1].1, es) {
            prev.push(
                DayView {
                    date: slots[n - 1].0.dmy_text(),
                    weekday: weekday_text(slots[n - 1].1),
                    events: es,
                },
            )
        } else {
            prev
        }
    }
}

/// The event cells of a week view; a selector that scraper rejects matches no cell.
pub open spec fn scraped_cells(html: Seq<char>) -> Seq<ElementView> {
    match selected_elements(html, cell_selector(), cell_attrs(), cell_inner()) {
        Some(c) => c,
        None => Seq::empty(),
    }
}

/// The text of the ISO week of an optional date; empty when there is no date.
pub open spec fn week_text_of(d: Option<(int, int, int)>) -> Seq<char> {
    match d {
        Some(t) => week_of(iso_week_of(t.0, t.1, t.2)).text(),
        None => Seq::empty(),
    }
}

/// The timetable that the week view `html` of ISO week `week` shows; `None` when chrono
/// cannot date the Monday of the week.
pub open spec fn timetable_of(html: Seq<char>, week: IsoWeek) -> Option<TimetableView> {
    match iso_date(week.year as int, week.week as int, 0) {
        None => None,
        Some(m) => {
            let slots = week_slots(week);
            let evs = cell_events(scraped_cells(html), slots.len() as int);
            Some(
                TimetableView {
                    week: week.text(),
                    prev_week: week_text_of(date_minus_days(m.0, m.1, m.2, 7)),
                    next_week: week_text_of(date_plus_days(m.0, m.1, m.2, 7)),
                    days: filled_days(slots, evs, slots.len() as int),
                },
            )
        },
    }
}

/// The message of the error for a week whose Monday cannot be dated.
pub open spec fn invalid_week_text() -> Seq<char> {
    "Invalid ISO week"@
}

/// The days of `week` that chrono can date.
fn week_day_slots(week: IsoWeek) -> (r: Vec<(CalDate, Weekday)>)
    ensures
        r@ == week_slots(week),
        forall|i: int| 0 <= i < r@.len() ==> (#[trigger] r@[i]).0.valid(),
{
    let mut r: Vec<(CalDate, Weekday)> = Vec::new();
    let mut k: u8 = 0;
    while k < 7
        invariant
            k <= 7,
            r@ == week_slots_upto(week, k as int),
            forall|i: int| 0 <= i < r@.len() ==> (#[trigger] r@[i]).0.valid(),
        decreases 7 - k,
    {
        match iso_week_day(week.year, week.week, k) {
            Some(d) => {
                assert(date_of(d.triple()) == d);
                r.push((d, weekday_from_index(k)));
            },
            None => {},
        }
        k = k + 1;
    }
    r
}

/// The trimmed non-blank lines of `raw`.
fn nonblank_lines_of(raw: &Vec<char>) -> (r: Vec<Vec<char>>)
    ensures
        views(r@) == nonblank_lines(split_char(raw@, '\n')),
{
    let pieces = split_on(raw, '\n');
    let ghost ps = views(pieces@);
    let mut r: Vec<Vec<char>> = Vec::new();
    let mut i: usize = 0;
    while i < pieces.len()
        invariant
            i <= pieces@.len(),
            ps == views(pieces@),
            ps.len() == pieces@.len(),
            views(r@) == nonblank_lines(ps.take(i as int)),
        decreases pieces@.len() - i,
    {
        let t = trim_chars(&pieces[i]);
        assert(ps.take(i + 1).drop_last() =~= ps.take(i as int));
        assert(ps.take(i + 1).last() == pieces@[i as int]@);
        if t.len() > 0 {
            let ghost pre = views(r@);
            r.push(t);
            assert(views(r@) =~= pre.push(t@));
        }
        i = i + 1;
    }
    assert(ps.take(pieces@.len() as int) =~= ps);
    r
}

/// The time and room in a cell's time span.
fn time_room(span: &Option<String>) -> (r: (String, Option<String>))
    ensures
        (r.0@, opt_chars(r.1)) == time_and_room(opt_chars(*span)),
{
    match span {
        None => (String::new(), None),
        Some(raw) => {
            let ps = nonblank_lines_of(&chars_of(raw.as_str()));
            assert(views(ps@).len() == ps@.len());
            let time = if ps.len() > 0 {
                assert(views(ps@)[0] == ps@[0]@);
                string_from(&ps[0])
            } else {
                String::new()
            };
            let room = if ps.len() > 1 {
                assert(views(ps@)[1] == ps@[1]@);
                Some(string_from(&ps[1]))
            } else {
                None
            };
            (time, room)
        },
    }
}

/// Whether a cell's style marks an exam.
fn exam_style(style: &Option<String>) -> (b: bool)
    ensures
        b == is_exam_style(opt_chars(*style)),
{
    match style {
        Some(s) => {
            let lower = to_lowercase(s.as_str());
            find_pattern(&chars_of(lower.as_str()), &chars_of("background-color:#ff6666"), 0).is_some()
        },
        None => false,
    }
}

/// The event in one scraped cell, with the index of its day.
fn event_of_cell(cell: &ScrapedElement, ndays: usize) -> (r: Option<(usize, Event)>)
    requires
        cell.attrs@.len() == 2,
        cell.inner_texts@.len() == 2,
    ensures
        r matches Some((i, e)) ==> cell_event(cell.view(), ndays as int) == Some((i as int, e@)),
        r is None ==> cell_event(cell.view(), ndays as int) is None,
{
    let ghost cv = cell.view();
    assert(cv.0[0] == opt_chars(cell.attrs@[0]));
    assert(cv.0[1] == opt_chars(cell.attrs@[1]));
    assert(cv.2[0] == opt_chars(cell.inner_texts@[0]));
    assert(cv.2[1] == opt_chars(cell.inner_texts@[1]));
    let abbr = match &cell.attrs[0] {
        Some(a) => a.clone(),
        None => String::new(),
    };
    let idx = match german_weekday_index(abbr.as_str()) {
        Some(i) => i,
        None => return None,
    };
    if idx >= ndays {
        return None;
    }
    let tr = time_room(&cell.inner_texts[0]);
    let title = match &cell.inner_texts[1] {
        Some(t) => trim_chars(&chars_of(t.as_str())),
        None => Vec::new(),
    };
    if title.len() == 0 {
        return None;
    }
    let is_exam = exam_style(&cell.attrs[1]);
    let (time, room) = tr;
    let ev = Event {
        time: time,
        title: string_from(&title),
        room: room,
        lecturer: None,
        event_type: None,
        is_exam: is_exam,
    };
    Some((idx, ev))
}

/// A copy of an optional string.
fn copy_opt(s: &Option<String>) -> (r: Option<String>)
    ensures
        opt_chars(r) == opt_chars(*s),
{
    match s {
        Some(x) => Some(x.clone()),
        None => None,
    }
}

/// A copy of an event.
fn copy_event(e: &Event) -> (r: Event)
    ensures
        r@ == e@,
{
    Event {
        time: e.time.clone(),
        title: e.title.clone(),
        room: copy_opt(&e.room),
        lecturer: copy_opt(&e.lecturer),
        event_type: copy_opt(&e.event_type),
        is_exam: e.is_exam,
    }
}

/// The views of indexed events.
pub open spec fn indexed_views(v: Seq<(usize, Event)>) -> Seq<(int, EventView)> {
    v.map_values(|p: (usize, Event)| (p.0 as int, p.1@))
}

/// The events of day `k`, copied in order.
fn events_of_day(evs: &Vec<(usize, Event)>, k: usize) -> (r: Vec<Event>)
    ensures
        r@.map_values(|e: Event| e@) == events_on(indexed_views(evs@), k as int),
{
    let ghost all = indexed_views(evs@);
    let mut r: Vec<Event> = Vec::new();
    let mut i: usize = 0;
    while i < evs.len()
        invariant
            i <= evs@.len(),
            all == indexed_views(evs@),
            all.len() == evs@.len(),
            r@.map_values(|e: Event| e@) == events_on(all.take(i as int), k as int),
        decreases evs@.len() - i,
    {
        assert(all.take(i + 1).drop_last() =~= all.take(i as int));
        assert(all.take(i + 1).last() == all[i as int]);
        if evs[i].0 == k {
            let ghost pre = r@.map_values(|e: Event| e@);
            r.push(copy_event(&evs[i].1));
            assert(r@.map_values(|e: Event| e@) =~= pre.push(all[i as int].1));
        }
        i = i + 1;
    }
    assert(all.take(evs@.len() as int) =~= all);
    r
}

/// The text of the ISO week of an optional date, as the timetable shows it.
fn week_text_of_date(d: Option<CalDate>) -> (s: String)
    requires
        d matches Some(x) ==> x.valid(),
    ensures
        s@ == week_text_of(crate::date::opt_triple(d)),
        d matches Some(x) ==> iso_week_of(x.year as int, x.month as int, x.day as int) == (
            week_of(iso_week_of(x.year as int, x.month as int, x.day as int)).year as int,
            week_of(iso_week_of(x.year as int, x.month as int, x.day as int)).week as int,
        ),
{
    match d {
        Some(x) => {
            let w = iso_week(&x);
            assert(week_of(iso_week_of(x.year as int, x.month as int, x.day as int)) == w);
            w.to_text()
        },
        None => String::new(),
    }
}

/// `text` names an ISO week whose Monday chrono can date and whose next week is week
/// `week` of ISO year `year`.
pub open spec fn names_week_before(text: Seq<char>, year: int, week: int) -> bool {
    exists|p: IsoWeek|
        #![trigger p.text()]
        text == p.text() && iso_week_date(p.year as int, p.week as int, 0) is Some
            && next_iso_week(p.year as int, p.week as int) == (year, week)
}

/// `text` names the ISO week after week `week` of ISO year `year`, and chrono can date
/// its Monday.
pub open spec fn names_week_after(text: Seq<char>, year: int, week: int) -> bool {
    exists|n: IsoWeek|
        #![trigger n.text()]
        text == n.text() && iso_week_date(n.year as int, n.week as int, 0) is Some
            && (n.year as int, n.week as int) == next_iso_week(year, week)
}

/// Parse the week view timetable HTML.
///
/// Dualis week view structure:
///   <table>
///     <tr>
///       <th class="tbtime.. time">HH:MM</th>          ← time label
///       <td abbr="Montag Spalte 1"> ... </td>         ← empty cell
///       <td abbr="Dienstag Spalte 1" rowspan="N">     ← event cell (spans N×15 min)
///         HH:MM - HH:MM ROOM\nCourse Title
///       </td>
///     </tr>
///     ...
///   </table>
///
/// Because rowspan cells don't reappear in subsequent rows, all event cells
/// (`td.appointment[abbr]`) are scanned and their day is read from the `abbr`
/// attribute instead of tracking row/column position. Saturday and Sunday are
/// dropped when they have no events.
pub fn parse_timetable(html: &str, week: IsoWeek) -> (r: Result<Timetable, AppError>)
    ensures
        r matches Ok(t) ==> timetable_of(html@, week) == Some(t@),
        r is Err ==> timetable_of(html@, week) is None,
        r matches Err(e) ==> e matches AppError::Parse(m) && m@ == invalid_week_text(),
        r matches Ok(t) ==> (iso_date(week.year as int, week.week as int, 0) matches Some(m) && (
        date_minus_days(m.0, m.1, m.2, 7) is Some ==> names_week_before(
            t.prev_week@,
            week.year as int,
            week.week as int,
        )) && (date_plus_days(m.0, m.1, m.2, 7) is Some ==> names_week_after(
            t.next_week@,
            week.year as int,
            week.week as int,
        ))),
{
    let slots = week_day_slots(week);
    let attrs = vec![String::from_str("abbr"), String::from_str("style")];
    let inner = vec![String::from_str("span.timePeriod"), String::from_str("a.link")];
    assert(attrs.deep_view() =~= cell_attrs());
    assert(inner.deep_view() =~= cell_inner());
    let cells = match select_elements(html, "td.appointment[abbr]", &attrs, &inner) {
        Some(c) => c,
        None => Vec::new(),
    };
    let ghost cv = crate::html::element_views(cells@);
    assert(cv == scraped_cells(html@));
    let mut evs: Vec<(usize, Event)> = Vec::new();
    let mut i: usize = 0;
    while i < cells.len()
        invariant
            i <= cells@.len(),
            cv == crate::html::element_views(cells@),
            cv.len() == cells@.len(),
            forall|j: int|
                0 <= j < cells@.len() ==> #[trigger] cells@[j].attrs@.len() == 2
                    && cells@[j].inner_texts@.len() == 2,
            indexed_views(evs@) == cell_events(cv.take(i as int), slots@.len() as int),
        decreases cells@.len() - i,
    {
        assert(cv.take(i + 1).drop_last() =~= cv.take(i as int));
        assert(cv.take(i + 1).last() == cells@[i as int].view());
        assert(cells@[i as int].attrs@.len() == 2);
        match event_of_cell(&cells[i], slots.len()) {
            Some(e) => {
                let ghost pre = indexed_views(evs@);
                let ghost ev = (e.0 as int, e.1@);
                evs.push(e);
                assert(indexed_views(evs@) =~= pre.push(ev));
            },
            None => {},
        }
        i = i + 1;
    }
    assert(cv.take(cells@.len() as int) =~= cv);
    let ghost ev_views = indexed_views(evs@);
    let mut days: Vec<Day> = Vec::new();
    let mut k: usize = 0;
    while k < slots.len()
        invariant
            k <= slots@.len(),
            slots@ == week_slots(week),
            ev_views == indexed_views(evs@),
            days@.map_values(|d: Day| d@) == filled_days(slots@, ev_views, k as int),
        decreases slots@.len() - k,
    {
        let es = events_of_day(&evs, k);
        let (date, wd) = slots[k];
        let keep = (wd != Weekday::Sat && wd != Weekday::Sun) || es.len() > 0;
        assert(es@.map_values(|e: Event| e@).len() == es@.len());
        if keep {
            let ghost pre = days@.map_values(|d: Day| d@);
            let day = Day {
                date: format_dmy(&date),
                weekday: String::from_str(weekday_name(wd)),
                events: es,
            };
            days.push(day);
            assert(days@.map_values(|d: Day| d@) =~= pre.push(
                DayView {
                    date: slots@[k as int].0.dmy_text(),
                    weekday: weekday_text(slots@[k as int].1),
                    events: events_on(ev_views, k as int),
                },
            ));
        }
        k = k + 1;
    }
    let monday = match iso_week_day(week.year, week.week, 0) {
        Some(m) => m,
        None => {
            let msg = String::from_str("Invalid ISO week");
            return Err(AppError::Parse(msg));
        },
    };
    assert(is_iso_monday(monday.year as int, monday.month as int, monday.day as int));
    let prev_day = sub_days(&monday, 7);
    let next_day = add_days(&monday, 7);
    let prev = week_text_of_date(prev_day);
    let next = week_text_of_date(next_day);
    proof {
        if let Some(p) = prev_day {
            let pw = week_of(iso_week_of(p.year as int, p.month as int, p.day as int));
            assert(prev@ == pw.text());
            assert(names_week_before(prev@, week.year as int, week.week as int));
        }
        if let Some(n) = next_day {
            let nw = week_of(iso_week_of(n.year as int, n.month as int, n.day as int));
            assert(next@ == nw.text());
            assert(names_week_after(next@, week.year as int, week.week as int));
        }
    }
    Ok(Timetable { week: week.to_text(), prev_week: prev, next_week: next, days: days })
}

/// A logged-in Dualis session.
pub struct Session {
    /// The session token that Dualis embeds in `ARGUMENTS` URL parameters.
    pub token: String,
}

/// The Dualis login page, fetched first so that session cookies are set before the login.
pub open spec fn login_page_url_text() -> Seq<char> {
    "https://dualis.dhbw.de/scripts/mgrqispi.dll?APPNAME=CampusNet&PRGNAME=EXTERNALPAGES&ARGUMENTS=-N000000000000001,-N000324,-Awelcome"@
}

/// The URL that the login form is posted to.
pub open spec fn login_post_url_text() -> Seq<char> {
    "https://dualis.dhbw.de/scripts/mgrqispi.dll"@
}

/// The Dualis login page URL.
pub fn login_page_url() -> (s: String)
    ensures
        s@ == login_page_url_text(),
{
    String::from_str(
        "https://dualis.dhbw.de/scripts/mgrqispi.dll?APPNAME=CampusNet&PRGNAME=EXTERNALPAGES&ARGUMENTS=-N000000000000001,-N000324,-Awelcome",
    )
}

/// The URL that the login form is posted to.
pub fn login_post_url() -> (s: String)
    ensures
        s@ == login_post_url_text(),
{
    String::from_str("https://dualis.dhbw.de/scripts/mgrqispi.dll")
}

/// The origin sent with the login request.
pub fn dualis_origin() -> (s: String)
    ensures
        s@ == "https://dualis.dhbw.de"@,
{
    String::from_str("https://dualis.dhbw.de")
}

/// The fields of the login form, in order.
pub open spec fn login_form_fields(username: Seq<char>, password: Seq<char>) -> Seq<
    (Seq<char>, Seq<char>),
> {
    seq![
        ("usrname"@, username),
        ("pass"@, password),
        ("APPNAME"@, "CampusNet"@),
        ("PRGNAME"@, "LOGINCHECK"@),
        ("ARGUMENTS"@, "clino,usrname,pass,menuno,menu_type,browser,platform"@),
        ("clino"@, "000000000000001"@),
        ("menuno"@, "000324"@),
        ("menu_type"@, "classic"@),
        ("browser"@, ""@),
        ("platform"@, ""@),
    ]
}

/// The views of name/value pairs.
pub open spec fn pair_views(v: Seq<(String, String)>) -> Seq<(Seq<char>, Seq<char>)> {
    v.map_values(|p: (String, String)| (p.0@, p.1@))
}

fn field(name: &str, value: &str) -> (r: (String, String))
    ensures
        r.0@ == name@,
        r.1@ == value@,
{
    (String::from_str(name), String::from_str(value))
}

/// The login form for the given credentials.
pub fn login_form(username: &str, password: &str) -> (r: Vec<(String, String)>)
    ensures
        pair_views(r@) == login_form_fields(username@, password@),
{
    let r = vec![
        field("usrname", username),
        field("pass", password),
        field("APPNAME", "CampusNet"),
        field("PRGNAME", "LOGINCHECK"),
        field("ARGUMENTS", "clino,usrname,pass,menuno,menu_type,browser,platform"),
        field("clino", "000000000000001"),
        field("menuno", "000324"),
        field("menu_type", "classic"),
        field("browser", ""),
        field("platform", ""),
    ];
    assert(pair_views(r@) =~= login_form_fields(username@, password@));
    r
}

/// What the login response decides.
pub enum LoginStep {
    /// The login succeeded with this session.
    LoggedIn(Session),
    /// There is no usable `Refresh` URL: the response body must be read for Dualis's own
    /// error message.
    ReadErrorPage,
    /// The login failed.
    Failed(AppError),
}

/// The placeholder prefix of a session token that Dualis hands out when not logged in.
pub open spec fn placeholder_prefix() -> Seq<char> {
    "00000000000000"@
}

/// `Could not extract session token from Refresh URL: <url>`.
pub open spec fn no_token_text(url: Seq<char>) -> Seq<char> {
    "Could not extract session token from Refresh URL: "@ + url
}

/// `Session token looks like a placeholder (<token>). Check credentials and try again.`
pub open spec fn placeholder_text(token: Seq<char>) -> Seq<char> {
    "Session token looks like a placeholder ("@ + token
        + "). Check credentials and try again."@
}

/// What the login step decides from the `Refresh` header of the login response.
pub open spec fn login_step_of(refresh: Option<Seq<char>>) -> Result<Seq<char>, Option<Seq<char>>> {
    let url = match refresh {
        Some(r) => refresh_url(r),
        None => None,
    };
    match url {
        None => Err(None),
        Some(u) => match first_argument(u) {
            None => Err(Some(no_token_text(u))),
            Some(t) => if is_prefix(placeholder_prefix(), t) {
                Err(Some(placeholder_text(t)))
            } else {
                Ok(t)
            },
        },
    }
}

/// Decides the login from the `Refresh` header of the login response (Dualis answers a
/// successful login with `200` and `Refresh: 0; URL=...&ARGUMENTS=-N<token>,...`): the
/// session when the URL carries a real token, a login failure when it carries none or the
/// zero-padded placeholder, and `ReadErrorPage` when there is no usable URL.
pub fn session_from_refresh(refresh: Option<&str>) -> (r: LoginStep)
    ensures
        r matches LoginStep::LoggedIn(s) ==> login_step_of(opt_str(refresh)) == Ok::<
            Seq<char>,
            Option<Seq<char>>,
        >(s.token@),
        r is ReadErrorPage ==> login_step_of(opt_str(refresh)) == Err::<
            Seq<char>,
            Option<Seq<char>>,
        >(None),
        r matches LoginStep::Failed(e) ==> e matches AppError::LoginFailed(m) && login_step_of(
            opt_str(refresh),
        ) == Err::<Seq<char>, Option<Seq<char>>>(Some(m@)),
{
    let url = match refresh {
        Some(h) => parse_refresh_url(h),
        None => None,
    };
    let url = match url {
        Some(u) => u,
        None => return LoginStep::ReadErrorPage,
    };
    let token = match extract_first_argument(url.as_str()) {
        Some(t) => t,
        None => {
            let mut m = String::from_str("Could not extract session token from Refresh URL: ");
            m.append(url.as_str());
            return LoginStep::Failed(AppError::LoginFailed(m));
        },
    };
    if starts_with(&chars_of(token.as_str()), &chars_of("00000000000000")) {
        let mut m = String::from_str("Session token looks like a placeholder (");
        m.append(token.as_str());
        m.append("). Check credentials and try again.");
        return LoginStep::Failed(AppError::LoginFailed(m));
    }
    LoginStep::LoggedIn(Session { token })
}

/// The characters of an optional string slice.
pub open spec fn opt_str(s: Option<&str>) -> Option<Seq<char>> {
    match s {
        Some(s) => Some(s@),
        None => None,
    }
}

/// The advice given when Dualis shows no message of its own.
pub open spec fn credentials_hint() -> Seq<char> {
    "Check DUALIS_USERNAME and DUALIS_PASSWORD in .env"@
}

/// `No Refresh header after login (status <status>). <detail>`.
pub open spec fn no_refresh_text(status: Seq<char>, detail: Seq<char>) -> Seq<char> {
    "No Refresh header after login (status "@ + status + "). "@ + detail
}

/// The login failure when the response carries no usable `Refresh` URL: it names the
/// response status and Dualis's own message from the page `body`, or a hint to check the
/// credentials when the page has none.
pub fn login_failure(status: &str, body: &str) -> (e: AppError)
    ensures
        e matches AppError::LoginFailed(m) && m@ == no_refresh_text(
            status@,
            match login_error_in(body@, login_error_selectors()) {
                Some(d) => d,
                None => credentials_hint(),
            },
        ),
{
    let detail = match extract_login_error(body) {
        Some(d) => d,
        None => String::from_str("Check DUALIS_USERNAME and DUALIS_PASSWORD in .env"),
    };
    let mut m = String::from_str("No Refresh header after login (status ");
    m.append(status);
    m.append("). ");
    m.append(detail.as_str());
    AppError::LoginFailed(m)
}

/// The Dualis start page of a session, which registers the session as active.
pub open spec fn main_page_url_text(token: Seq<char>) -> Seq<char> {
    "https://dualis.dhbw.de/scripts/mgrqispi.dll?APPNAME=CampusNet&PRGNAME=MLSSTART&ARGUMENTS=-N"@
        + token + ",-N000019,"@
}

/// The Dualis start page of a session.
pub fn main_page_url(session: &Session) -> (s: String)
    ensures
        s@ == main_page_url_text(session.token@),
{
    let mut s = String::from_str(
        "https://dualis.dhbw.de/scripts/mgrqispi.dll?APPNAME=CampusNet&PRGNAME=MLSSTART&ARGUMENTS=-N",
    );
    s.append(session.token.as_str());
    s.append(",-N000019,");
    s
}

/// The full-week view of the scheduler:
/// `ARGUMENTS=-N<session>,-N<menuno>,-A<DD.MM.YYYY>,-A,-N1,-N000000000000000`.
pub open spec fn scheduler_url_text(token: Seq<char>, menu: Seq<char>, date: Seq<char>) -> Seq<
    char,
> {
    "https://dualis.dhbw.de/scripts/mgrqispi.dll?APPNAME=CampusNet&PRGNAME=SCHEDULER&ARGUMENTS=-N"@
        + token + ",-N"@ + menu + ",-A"@ + date + ",-A,-N1,-N000000000000000"@
}

/// The scheduler's usual menu number, used when the dashboard names none.
pub open spec fn default_menu() -> Seq<char> {
    "000028"@
}

/// The URL of the week view of ISO week `week`, given the session's dashboard page:
/// `None` when the Monday of the week cannot be dated.
pub open spec fn week_view_url(dashboard: Seq<char>, token: Seq<char>, week: IsoWeek) -> Option<
    Seq<char>,
> {
    let menu = match scheduler_menu(dashboard, token) {
        Some(m) => m,
        None => default_menu(),
    };
    match iso_date(week.year as int, week.week as int, 0) {
        None => None,
        Some(m) => Some(scheduler_url_text(token, menu, date_of(m).dmy_text())),
    }
}

/// The week view URL for `week`: the scheduler's menu number is read from the dashboard
/// page (usually `000028`, the default when the page names none), the date is the
/// Monday of the week.
pub fn week_view_url_for(dashboard: &str, session: &Session, week: IsoWeek) -> (r: Result<
    String,
    AppError,
>)
    ensures
        r matches Ok(u) ==> week_view_url(dashboard@, session.token@, week) == Some(u@),
        r is Err ==> week_view_url(dashboard@, session.token@, week) is None,
        r matches Err(e) ==> e matches AppError::Parse(m) && m@ == invalid_week_text(),
{
    let menu = match extract_scheduler_menu_no(dashboard, session.token.as_str()) {
        Some(m) => m,
        None => String::from_str("000028"),
    };
    let monday = match iso_week_day(week.year, week.week, 0) {
        Some(m) => m,
        None => return Err(AppError::Parse(String::from_str("Invalid ISO week"))),
    };
    assert(date_of(monday.triple()) == monday);
    let date = format_dmy(&monday);
    let mut s = String::from_str(
        "https://dualis.dhbw.de/scripts/mgrqispi.dll?APPNAME=CampusNet&PRGNAME=SCHEDULER&ARGUMENTS=-N",
    );
    s.append(session.token.as_str());
    s.append(",-N");
    s.append(menu.as_str());
    s.append(",-A");
    s.append(date.as_str());
    s.append(",-A,-N1,-N000000000000000");
    Ok(s)
}

/// Every indexed event names one of the first `ndays` days and has a non-empty title.
pub open spec fn events_well_formed(evs: Seq<(int, EventView)>, ndays: int) -> bool {
    forall|i: int|
        0 <= i < evs.len() ==> 0 <= (#[trigger] evs[i]).0 < ndays && evs[i].1.title.len() > 0
}

proof fn lemma_cell_events_well_formed(cells: Seq<ElementView>, ndays: int)
    ensures
        events_well_formed(cell_events(cells, ndays), ndays),
    decreases cells.len(),
{
    if cells.len() > 0 {
        lemma_cell_events_well_formed(cells.drop_last(), ndays);
        let prev = cell_events(cells.drop_last(), ndays);
        match cell_event(cells.last(), ndays) {
            Some(e) => {
                let abbr = match cells.last().0[0] {
                    Some(a) => a,
                    None => Seq::empty(),
                };
                assert(german_weekday(abbr) matches Some(idx) && 0 <= idx);
                assert forall|i: int| 0 <= i < prev.push(e).len() implies 0 <= (
                #[trigger] prev.push(e)[i]).0 < ndays && prev.push(e)[i].1.title.len() > 0 by {
                    if i < prev.len() {
                        assert(prev.push(e)[i] == prev[i]);
                    }
                }
            },
            None => {},
        }
    }
}

proof fn lemma_events_on_titles(evs: Seq<(int, EventView)>, ndays: int, k: int)
    requires
        events_well_formed(evs, ndays),
    ensures
        forall|j: int|
            0 <= j < events_on(evs, k).len() ==> (#[trigger] events_on(evs, k)[j]).title.len() > 0,
    decreases evs.len(),
{
    if evs.len() > 0 {
        let p = evs.drop_last();
        assert forall|i: int| 0 <= i < p.len() implies 0 <= (#[trigger] p[i]).0 < ndays
            && p[i].1.title.len() > 0 by {
            assert(p[i] == evs[i]);
        }
        lemma_events_on_titles(p, ndays, k);
        let prev = events_on(p, k);
        if evs.last().0 == k {
            assert(evs.last() == evs[evs.len() - 1]);
            assert forall|j: int| 0 <= j < prev.push(evs.last().1).len() implies (
            #[trigger] prev.push(evs.last().1)[j]).title.len() > 0 by {
                if j < prev.len() {
                    assert(prev.push(evs.last().1)[j] == prev[j]);
                }
            }
        }
    }
}

/// A listed day: a weekday, or a Saturday or Sunday with events; all its events have titles.
pub open spec fn listed_day(d: DayView) -> bool {
    &&& (d.weekday != "Saturday"@ && d.weekday != "Sunday"@) || d.events.len() > 0
    &&& forall|j: int| 0 <= j < d.events.len() ==> (#[trigger] d.events[j]).title.len() > 0
}

proof fn lemma_weekday_names(w: Weekday)
    ensures
        weekday_text(w) == "Saturday"@ <==> w == Weekday::Sat,
        weekday_text(w) == "Sunday"@ <==> w == Weekday::Sun,
{
    reveal_strlit("Monday");
    reveal_strlit("Tuesday");
    reveal_strlit("Wednesday");
    reveal_strlit("Thursday");
    reveal_strlit("Friday");
    reveal_strlit("Saturday");
    reveal_strlit("Sunday");
    let t = weekday_text(w);
    let sat = "Saturday"@;
    let sun = "Sunday"@;
    assert(sat.len() == 8 && sun.len() == 6);
    assert(sat[0] == 'S' && sat[1] == 'a' && sun[0] == 'S' && sun[1] == 'u');
    if w != Weekday::Sat {
        assert(t.len() != 8 || t[0] != 'S' || t[1] != 'a');
    }
    if w != Weekday::Sun {
        assert(t.len() != 6 || t[0] != 'S' || t[1] != 'u');
    }
}

proof fn lemma_filled_days_listed(
    slots: Seq<(CalDate, Weekday)>,
    evs: Seq<(int, EventView)>,
    ndays: int,
    n: int,
)
    requires
        events_well_formed(evs, ndays),
        n <= slots.len(),
    ensures
        forall|i: int|
            0 <= i < filled_days(slots, evs, n).len() ==> listed_day(
                #[trigger] filled_days(slots, evs, n)[i],
            ),
    decreases n,
{
    if n > 0 {
        lemma_filled_days_listed(slots, evs, ndays, n - 1);
        let prev = filled_days(slots, evs, n - 1);
        let es = events_on(evs, n - 1);
        if keeps_day(slots[n - 1].1, es) {
            let d = DayView {
                date: slots[n - 1].0.dmy_text(),
                weekday: weekday_text(slots[n - 1].1),
                events: es,
            };
            lemma_weekday_names(slots[n - 1].1);
            lemma_events_on_titles(evs, ndays, n - 1);
            assert(listed_day(d));
            assert forall|i: int| 0 <= i < prev.push(d).len() implies listed_day(
                #[trigger] prev.push(d)[i],
            ) by {
                if i < prev.len() {
                    assert(prev.push(d)[i] == prev[i]);
                }
            }
        }
    }
}

/// The shape of a parsed timetable: Saturday and Sunday appear only with events, and every
/// event has a non-empty title.
pub proof fn lemma_timetable_days_listed(html: Seq<char>, week: IsoWeek)
    ensures
        timetable_of(html, week) matches Some(t) ==> forall|i: int|
            0 <= i < t.days.len() ==> listed_day(#[trigger] t.days[i]),
{
    let slots = week_slots(week);
    let evs = cell_events(scraped_cells(html), slots.len() as int);
    lemma_cell_events_well_formed(scraped_cells(html), slots.len() as int);
    lemma_filled_days_listed(slots, evs, slots.len() as int, slots.len() as int);
}

/// A session token read from a URL is never empty and never starts with a `-N` marker.
pub proof fn lemma_first_argument_clean(url: Seq<char>)
    ensures
        first_argument(url) matches Some(t) ==> t.len() > 0 && !is_prefix("-N"@, t),
{
    reveal_strlit("-N");
    if let Some(args) = second_piece(url, "ARGUMENTS="@) {
        crate::text::lemma_split_char_nonempty(args, ',');
        lemma_strip_prefixes_clean(split_char(args, ',')[0], "-N"@);
    }
}

proof fn lemma_strip_prefixes_clean(s: Seq<char>, pat: Seq<char>)
    requires
        pat.len() > 0,
    ensures
        !is_prefix(pat, strip_prefixes(s, pat)),
    decreases s.len(),
{
    if is_prefix(pat, s) {
        lemma_strip_prefixes_clean(s.skip(pat.len() as int), pat);
    }
}

/// A login succeeds with every token that the `Refresh` URL carries unless the token starts
/// with the zero-padded placeholder `00000000000000`; without a usable URL the error page is
/// read, and otherwise the login fails.
pub proof fn lemma_login_accepts_real_tokens(refresh: Seq<char>)
    ensures
        refresh_url(refresh) matches Some(u) ==> (first_argument(u) matches Some(t) ==> (
        !is_prefix("00000000000000"@, t) ==> login_step_of(Some(refresh)) == Ok::<
            Seq<char>,
            Option<Seq<char>>,
        >(t))),
        refresh_url(refresh) matches Some(u) ==> (first_argument(u) matches Some(t) ==> (
        is_prefix("00000000000000"@, t) ==> login_step_of(Some(refresh)) is Err)),
        refresh_url(refresh) matches Some(u) ==> (first_argument(u) is None ==> login_step_of(
            Some(refresh),
        ) is Err),
        refresh_url(refresh) is None ==> login_step_of(Some(refresh)) == Err::<
            Seq<char>,
            Option<Seq<char>>,
        >(None),
        login_step_of(None) == Err::<Seq<char>, Option<Seq<char>>>(None),
{
}

/// A login succeeds only with a real session token: never empty and never the zero-padded
/// placeholder.
pub proof fn lemma_login_token_real(refresh: Option<Seq<char>>)
    ensures
        login_step_of(refresh) matches Ok(t) ==> t.len() > 0 && !is_prefix(placeholder_prefix(), t),
{
}

} // verus!
