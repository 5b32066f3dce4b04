//! iCalendar (RFC 5545) text generation.
use vstd::prelude::*;
use crate::text::{
    alphanumeric, chars_of, copy_range, find_from, find_pattern, is_alphanumeric, lowercase, push_char,
    string_from, to_lowercase, trim, trim_chars,
};
use crate::num::{int_text, push_padded};
use crate::config::Config;
use crate::date::{utc_now, parse_date, parse_time, parsed_date, parsed_time, push_hms_compact, push_ymd_compact, CalDate, ClockTime};
use crate::dualis::{date_of, DayView, Event, EventView, Timetable, TimetableView};
use vstd::utf8::{char_is_scalar, encode_scalar, encode_utf8};

verus! {

/// The escaped form of one character in an iCalendar text value.
pub open spec fn escape_char(c: char) -> Seq<char> {
    if c == '\\' {
        seq!['\\', '\\']
    } else if c == ';' {
        seq!['\\', ';']
    } else if c == ',' {
        seq!['\\', ',']
    } else if c == '\n' {
        seq!['\\', 'n']
    } else {
        seq![c]
    }
}

/// Escapes backslash, semicolon, comma and newline, character by character.
pub open spec fn escape_text(s: Seq<char>) -> Seq<char>
    decreases s.len(),
{
    if s.len() == 0 {
        Seq::empty()
    } else {
        escape_text(s.drop_last()) + escape_char(s.last())
    }
}

/// Escape text per RFC 5545.
pub fn escape_ical(s: &str) -> (res: String)
    ensures
        res@ == escape_text(s@),
{
    let cs = chars_of(s);
    let mut out = String::new();
    let mut i: usize = 0;
    while i < cs.len()
        invariant
            i <= cs@.len(),
            out@ == escape_text(cs@.take(i as int)),
        decreases cs@.len() - i,
    {
        let c = cs[i];
        if c == '\\' {
            push_char(&mut out, '\\');
            push_char(&mut out, '\\');
        } else if c == ';' {
            push_char(&mut out, '\\');
            push_char(&mut out, ';');
        } else if c == ',' {
            push_char(&mut out, '\\');
            push_char(&mut out, ',');
        } else if c == '\n' {
            push_char(&mut out, '\\');
            push_char(&mut out, 'n');
        } else {
            push_char(&mut out, c);
        }
        assert(cs@.take(i + 1).drop_last() =~= cs@.take(i as int));
        i = i + 1;
    }
    assert(cs@.take(cs@.len() as int) =~= cs@);
    out
}

/// The number of UTF-8 octets of `c`.
pub open spec fn char_width(c: char) -> nat {
    encode_scalar(c as u32).len()
}

/// The number of UTF-8 octets of `s`.
pub open spec fn octets(s: Seq<char>) -> nat {
    encode_utf8(s).len()
}

/// Carriage return and line feed, which end every content line.
pub open spec fn crlf() -> Seq<char> {
    seq!['\r', '\n']
}

/// The number of leading whole characters of `s` that fit in `max` octets.
pub open spec fn fit_count(s: Seq<char>, max: int) -> nat
    decreases s.len(),
{
    if s.len() == 0 || char_width(s[0]) > max {
        0
    } else {
        1 + fit_count(s.drop_first(), max - char_width(s[0]))
    }
}

/// Every character takes one to four octets.
pub proof fn lemma_char_width(c: char)
    ensures
        1 <= char_width(c) <= 4,
{
}

/// The remaining characters `s` of a long line, split into physical lines: the first of at
/// most 75 octets, each continuation of at most 74 octets after a leading space, never
/// splitting a character, each ended by CRLF.
pub open spec fn fold_rest(s: Seq<char>, first: bool) -> Seq<char>
    decreases s.len(),
{
    if s.len() == 0 {
        Seq::empty()
    } else {
        let max: int = if first {
            75
        } else {
            74
        };
        let n = fit_count(s, max);
        proof {
            lemma_fit_count_le(s, max);
        }
        if n == 0 {
            Seq::empty()
        } else {
            (if first {
                Seq::empty()
            } else {
                seq![' ']
            }) + s.take(n as int) + crlf() + fold_rest(s.skip(n as int), false)
        }
    }
}

/// A content line folded at 75 octets (RFC 5545, 3.1), ending in CRLF.
pub open spec fn folded(line: Seq<char>) -> Seq<char> {
    if octets(line) <= 75 {
        line + crlf()
    } else {
        fold_rest(line, true)
    }
}

/// The number of UTF-8 octets of `c`.
fn width_of(c: char) -> (w: usize)
    ensures
        w == char_width(c),
{
    proof {
        char_is_scalar(c);
    }
    let u = c as u32;
    if u < 0x80 {
        1
    } else if u < 0x800 {
        2
    } else if u < 0x10000 {
        3
    } else {
        4
    }
}

/// At most all characters fit.
pub proof fn lemma_fit_count_le(s: Seq<char>, max: int)
    ensures
        fit_count(s, max) <= s.len(),
    decreases s.len(),
{
    if s.len() > 0 && char_width(s[0]) <= max {
        lemma_fit_count_le(s.drop_first(), max - char_width(s[0]));
    }
}

/// Appends the characters `cs[lo..hi]` to `out`.
fn push_range(out: &mut String, cs: &Vec<char>, lo: usize, hi: usize)
    requires
        lo <= hi <= cs@.len(),
    ensures
        final(out)@ == old(out)@ + cs@.subrange(lo as int, hi as int),
{
    let ghost start = out@;
    let mut i: usize = lo;
    while i < hi
        invariant
            lo <= i <= hi <= cs@.len(),
            out@ == start + cs@.subrange(lo as int, i as int),
        decreases hi - i,
    {
        push_char(out, cs[i]);
        assert(start + cs@.subrange(lo as int, i + 1) =~= start + cs@.subrange(lo as int, i as int)
            + seq![cs@[i as int]]);
        i = i + 1;
    }
}

/// Whether the UTF-8 encoding of `cs` takes at most `limit` octets.
fn fits_in(cs: &Vec<char>, limit: usize) -> (b: bool)
    ensures
        b == (octets(cs@) <= limit),
{
    let n = cs.len();
    let mut used: usize = 0;
    let mut i: usize = 0;
    assert(cs@.skip(0) =~= cs@);
    while i < n
        invariant
            n == cs@.len(),
            i <= n,
            used <= limit,
            octets(cs@) == used + octets(cs@.skip(i as int)),
        decreases n - i,
    {
        let w = width_of(cs[i]);
        assert(cs@.skip(i as int)[0] == cs@[i as int]);
        assert(cs@.skip(i as int).drop_first() =~= cs@.skip(i + 1));
        assert(octets(cs@.skip(i as int)) == w + octets(cs@.skip(i + 1)));
        if w > limit - used {
            return false;
        }
        used = used + w;
        i = i + 1;
    }
    assert(cs@.skip(n as int).len() == 0);
    true
}

/// Fold a content line at 75 octets and append to output with CRLF.
pub fn fold_and_push(out: &mut String, line: &str)
    ensures
        final(out)@ == old(out)@ + folded(line@),
{
    let cs = chars_of(line);
    if fits_in(&cs, 75) {
        out.append(line);
        out.append("\r\n");
        proof {
            reveal_strlit("\r\n");
        }
        assert("\r\n"@ =~= crlf());
        assert(out@ =~= old(out)@ + folded(line@));
        return;
    }
    let n = cs.len();
    let ghost start = out@;
    let mut pos: usize = 0;
    let mut first = true;
    assert(cs@.skip(0) =~= cs@);
    while pos < n
        invariant
            n == cs@.len(),
            pos <= n,
            cs@ == line@,
            octets(line@) > 75,
            start + folded(line@) == out@ + fold_rest(cs@.skip(pos as int), first),
        decreases n - pos,
    {
        let max: usize = if first {
            75
        } else {
            74
        };
        let ghost rest = cs@.skip(pos as int);
        let mut k: usize = pos;
        let mut used: usize = 0;
        assert(cs@.skip(k as int) =~= rest);
        while k < n && used + width_of(cs[k]) <= max
            invariant
                n == cs@.len(),
                pos <= k <= n,
                used <= max,
                max == 75 || max == 74,
                rest == cs@.skip(pos as int),
                fit_count(rest, max as int) == (k - pos) + fit_count(
                    cs@.skip(k as int),
                    max - used,
                ),
            decreases n - k,
        {
            let w = width_of(cs[k]);
            assert(cs@.skip(k as int)[0] == cs@[k as int]);
            assert(cs@.skip(k as int).drop_first() =~= cs@.skip(k + 1));
            used = used + w;
            k = k + 1;
        }
        proof {
            if k < n {
                assert(cs@.skip(k as int)[0] == cs@[k as int]);
            }
            lemma_char_width(cs@[pos as int]);
            assert(rest[0] == cs@[pos as int]);
        }
        assert(fit_count(rest, max as int) == k - pos);
        assert(k > pos);
        let ghost before = out@;
        if !first {
            push_char(out, ' ');
        }
        let ghost lead = if first {
            Seq::<char>::empty()
        } else {
            seq![' ']
        };
        assert(out@ == before + lead);
        push_range(out, &cs, pos, k);
        push_char(out, '\r');
        push_char(out, '\n');
        assert(rest.take((k - pos) as int) =~= cs@.subrange(pos as int, k as int));
        assert(rest.skip((k - pos) as int) =~= cs@.skip(k as int));
        assert(fold_rest(rest, first) == lead + rest.take((k - pos) as int) + crlf() + fold_rest(
            cs@.skip(k as int),
            false,
        ));
        assert(out@ =~= before + (lead + rest.take((k - pos) as int) + crlf()));
        pos = k;
        first = false;
    }
}

/// `s` without any `c` (`str::replace(c, "")`).
pub open spec fn without_char(s: Seq<char>, c: char) -> Seq<char>
    decreases s.len(),
{
    if s.len() == 0 {
        Seq::empty()
    } else if s.last() == c {
        without_char(s.drop_last(), c)
    } else {
        without_char(s.drop_last(), c).push(s.last())
    }
}

/// Every character that is not alphanumeric replaced by `-`.
pub open spec fn slug_chars(s: Seq<char>) -> Seq<char> {
    s.map_values(|c: char| if alphanumeric(c) { c } else { '-' })
}

/// `s` without leading copies of `c`.
pub open spec fn strip_leading(s: Seq<char>, c: char) -> Seq<char>
    decreases s.len(),
{
    if s.len() > 0 && s[0] == c {
        strip_leading(s.drop_first(), c)
    } else {
        s
    }
}

/// `s` without trailing copies of `c`.
pub open spec fn strip_trailing(s: Seq<char>, c: char) -> Seq<char>
    decreases s.len(),
{
    if s.len() > 0 && s.last() == c {
        strip_trailing(s.drop_last(), c)
    } else {
        s
    }
}

/// `str::trim_matches(c)`: `s` without leading and trailing copies of `c`.
pub open spec fn strip_both(s: Seq<char>, c: char) -> Seq<char> {
    strip_trailing(strip_leading(s, c), c)
}

/// The stable UID of an event: `<date without dots>-<title slug>-<index>@<domain>`, where
/// the slug is the lower-cased title with every non-alphanumeric character replaced by `-`
/// and leading and trailing `-` removed.
pub open spec fn uid_text(date: Seq<char>, title: Seq<char>, index: int, domain: Seq<char>) -> Seq<
    char,
> {
    without_char(date, '.') + seq!['-'] + strip_both(slug_chars(lowercase(title)), '-') + seq![
        '-',
    ] + int_text(index) + seq!['@'] + domain
}

/// The stable UID of an event (see [`uid_text`]): the same day, title, index and domain
/// always give the same UID.
pub fn make_uid(date_str: &str, title: &str, index: usize, domain: &str) -> (s: String)
    ensures
        s@ == uid_text(date_str@, title@, index as int, domain@),
{
    let d = chars_of(date_str);
    let mut out = String::new();
    let mut i: usize = 0;
    while i < d.len()
        invariant
            i <= d@.len(),
            out@ == without_char(d@.take(i as int), '.'),
        decreases d@.len() - i,
    {
        assert(d@.take(i + 1).drop_last() =~= d@.take(i as int));
        if d[i] != '.' {
            push_char(&mut out, d[i]);
        }
        i = i + 1;
    }
    assert(d@.take(d@.len() as int) =~= d@);
    push_char(&mut out, '-');
    let lower = chars_of(to_lowercase(title).as_str());
    let mut slug: Vec<char> = Vec::new();
    let mut j: usize = 0;
    while j < lower.len()
        invariant
            j <= lower@.len(),
            slug@ == slug_chars(lower@.take(j as int)),
        decreases lower@.len() - j,
    {
        let c = lower[j];
        if is_alphanumeric(c) {
            slug.push(c);
        } else {
            slug.push('-');
        }
        assert(slug@ =~= slug_chars(lower@.take(j + 1)));
        j = j + 1;
    }
    assert(lower@.take(lower@.len() as int) =~= lower@);
    let n = slug.len();
    let mut lo: usize = 0;
    assert(slug@.skip(0) =~= slug@);
    while lo < n && slug[lo] == '-'
        invariant
            n == slug@.len(),
            lo <= n,
            strip_leading(slug@, '-') == strip_leading(slug@.skip(lo as int), '-'),
        decreases n - lo,
    {
        assert(slug@.skip(lo as int).drop_first() =~= slug@.skip(lo + 1));
        lo = lo + 1;
    }
    let ghost t = slug@.skip(lo as int);
    let mut hi: usize = n;
    assert(slug@.subrange(lo as int, hi as int) =~= t);
    while hi > lo && slug[hi - 1] == '-'
        invariant
            n == slug@.len(),
            lo <= hi <= n,
            strip_trailing(t, '-') == strip_trailing(slug@.subrange(lo as int, hi as int), '-'),
        decreases hi,
    {
        assert(slug@.subrange(lo as int, hi as int).drop_last() =~= slug@.subrange(
            lo as int,
            hi - 1,
        ));
        hi = hi - 1;
    }
    let core = copy_range(&slug, lo, hi);
    out.append(string_from(&core).as_str());
    push_char(&mut out, '-');
    push_padded(&mut out, index as u64, 0);
    push_char(&mut out, '@');
    out.append(domain);
    assert(out@ =~= uid_text(date_str@, title@, index as int, domain@));
    out
}

/// The time with fields `(hour, minute, second, nanosecond)`.
pub open spec fn time_of(t: (int, int, int, int)) -> ClockTime {
    ClockTime { hour: t.0 as u32, minute: t.1 as u32, second: t.2 as u32, nanosecond: t.3 as u32 }
}

/// A local date-time value `YYYYMMDDTHHMMSS`.
pub open spec fn date_time_text(d: CalDate, t: ClockTime) -> Seq<char> {
    d.ymd_compact_text() + seq!['T'] + t.hms_compact_text()
}

/// The event's title as shown: escaped, and marked as an exam (`PRÜFUNG: `) when it is one.
pub open spec fn summary_text(ev: EventView) -> Seq<char> {
    if ev.is_exam {
        "PRÜFUNG: "@ + escape_text(ev.title)
    } else {
        escape_text(ev.title)
    }
}

/// The `LOCATION` line: the room, followed by ` -- <type>` when the event has a type.
pub open spec fn location_lines(ev: EventView) -> Seq<char> {
    match ev.room {
        Some(r) => folded(
            "LOCATION:"@ + escape_text(
                match ev.event_type {
                    Some(t) => r + " -- "@ + t,
                    None => r,
                },
            ),
        ),
        None => Seq::empty(),
    }
}

/// The parts of the description: the lecturer and the type, where known.
pub open spec fn description_parts(ev: EventView) -> Seq<Seq<char>> {
    (match ev.lecturer {
        Some(l) => seq!["Lecturer: "@ + l],
        None => Seq::empty(),
    }) + (match ev.event_type {
        Some(t) => seq!["Type: "@ + t],
        None => Seq::empty(),
    })
}

/// The parts joined by a literal backslash-n.
pub open spec fn join_lines(parts: Seq<Seq<char>>) -> Seq<char>
    decreases parts.len(),
{
    if parts.len() == 0 {
        Seq::empty()
    } else if parts.len() == 1 {
        parts[0]
    } else {
        join_lines(parts.drop_last()) + seq!['\\', 'n'] + parts.last()
    }
}

/// The `DESCRIPTION` line, when there is anything to describe.
pub open spec fn description_lines(ev: EventView) -> Seq<char> {
    let parts = description_parts(ev);
    if parts.len() > 0 {
        folded("DESCRIPTION:"@ + escape_text(join_lines(parts)))
    } else {
        Seq::empty()
    }
}

/// The `VEVENT` for one event on the day `date_str` (`DD.MM.YYYY`) whose time reads
/// `HH:MM - HH:MM`; `None` when the date or either time does not parse.
pub open spec fn vevent_text(
    date_str: Seq<char>,
    ev: EventView,
    index: int,
    uid_domain: Seq<char>,
    tz: Seq<char>,
    stamp: Seq<char>,
) -> Option<Seq<char>> {
    match parsed_date(date_str, "%d.%m.%Y"@) {
        None => None,
        Some(d) => match find_from(ev.time, " - "@, 0) {
            None => None,
            Some(i) => {
                let start = parsed_time(trim(ev.time.take(i)), "%H:%M"@);
                let end = parsed_time(trim(ev.time.skip(i + " - "@.len())), "%H:%M"@);
                match (start, end) {
                    (Some(st), Some(en)) => Some(
                        "BEGIN:VEVENT\r\n"@ + folded(
                            "UID:"@ + uid_text(date_str, ev.title, index, uid_domain),
                        ) + folded("DTSTAMP:"@ + stamp) + folded(
                            "DTSTART;TZID="@ + tz + ":"@ + date_time_text(date_of(d), time_of(st)),
                        ) + folded(
                            "DTEND;TZID="@ + tz + ":"@ + date_time_text(date_of(d), time_of(en)),
                        ) + folded("SUMMARY:"@ + summary_text(ev)) + location_lines(ev)
                            + description_lines(ev) + "SEQUENCE:0\r\n"@ + "END:VEVENT\r\n"@,
                    ),
                    _ => None,
                }
            },
        },
    }
}

/// `prefix` followed by `s`.
fn prefixed(prefix: &str, s: &str) -> (r: String)
    ensures
        r@ == prefix@ + s@,
{
    let mut r = String::from_str(prefix);
    r.append(s);
    r
}

/// The description text (before escaping) of an event with some description part.
fn description_of(event: &Event) -> (r: Option<String>)
    ensures
        r matches Some(d) ==> description_parts(event@).len() > 0 && d@ == join_lines(
            description_parts(event@),
        ),
        r is None ==> description_parts(event@).len() == 0,
{
    let lect = match &event.lecturer {
        Some(l) => Some(prefixed("Lecturer: ", l.as_str())),
        None => None,
    };
    let kind = match &event.event_type {
        Some(t) => Some(prefixed("Type: ", t.as_str())),
        None => None,
    };
    let ghost parts = description_parts(event@);
    match (lect, kind) {
        (Some(l), Some(k)) => {
            assert(parts.len() == 2);
            assert(parts.drop_last() =~= seq![parts[0]]);
            let mut d = l;
            d.append("\\n");
            proof {
                reveal_strlit("\\n");
            }
            d.append(k.as_str());
            assert(join_lines(parts.drop_last()) == parts[0]);
            assert(d@ =~= join_lines(parts));
            Some(d)
        },
        (Some(l), None) => {
            assert(parts =~= seq![l@]);
            Some(l)
        },
        (None, Some(k)) => {
            assert(parts =~= seq![k@]);
            Some(k)
        },
        (None, None) => {
            assert(parts.len() == 0);
            None
        },
    }
}

/// Format one event as a `VEVENT` block; `None` when its date or times do not parse.
pub fn format_vevent(date_str: &str, event: &Event, index: usize, config: &Config, dtstamp: &str) -> (r:
    Option<String>)
    ensures
        r matches Some(s) ==> vevent_text(
            date_str@,
            event@,
            index as int,
            config.uid_domain@,
            config.timezone@,
            dtstamp@,
        ) == Some(s@),
        r is None ==> vevent_text(
            date_str@,
            event@,
            index as int,
            config.uid_domain@,
            config.timezone@,
            dtstamp@,
        ) is None,
{
    let date = match parse_date(date_str, "%d.%m.%Y") {
        Some(d) => d,
        None => return None,
    };
    assert(date_of(date.triple()) == date);
    let tc = chars_of(event.time.as_str());
    let sep = chars_of(" - ");
    proof {
        reveal_strlit(" - ");
    }
    let i = match find_pattern(&tc, &sep, 0) {
        Some(i) => i,
        None => return None,
    };
    proof {
        crate::text::lemma_find_from_bounds(tc@, sep@, 0);
    }
    let n = tc.len();
    let p0 = trim_chars(&copy_range(&tc, 0, i));
    let p1 = trim_chars(&copy_range(&tc, i + sep.len(), n));
    assert(tc@.subrange(0, i as int) =~= tc@.take(i as int));
    assert(tc@.subrange(i + sep@.len(), n as int) =~= tc@.skip(i + sep@.len()));
    let start = match parse_time(string_from(&p0).as_str(), "%H:%M") {
        Some(t) => t,
        None => return None,
    };
    let end = match parse_time(string_from(&p1).as_str(), "%H:%M") {
        Some(t) => t,
        None => return None,
    };
    let ghost dst = date_of(date.triple());
    assert(time_of((start.hour as int, start.minute as int, start.second as int, start.nanosecond as int)) == start);
    assert(time_of((end.hour as int, end.minute as int, end.second as int, end.nanosecond as int)) == end);
    let mut dtstart = String::new();
    push_ymd_compact(&mut dtstart, &date);
    push_char(&mut dtstart, 'T');
    push_hms_compact(&mut dtstart, &start);
    let mut dtend = String::new();
    push_ymd_compact(&mut dtend, &date);
    push_char(&mut dtend, 'T');
    push_hms_compact(&mut dtend, &end);
    assert(dtstart@ =~= date_time_text(date, start));
    assert(dtend@ =~= date_time_text(date, end));
    let uid = make_uid(date_str, event.title.as_str(), index, config.uid_domain.as_str());
    let mut out = String::from_str("BEGIN:VEVENT\r\n");
    let ghost s0 = out@;
    fold_and_push(&mut out, prefixed("UID:", uid.as_str()).as_str());
    let ghost s1 = out@;
    fold_and_push(&mut out, prefixed("DTSTAMP:", dtstamp).as_str());
    let ghost s2 = out@;
    let mut l = prefixed("DTSTART;TZID=", config.timezone.as_str());
    l.append(":");
    l.append(dtstart.as_str());
    fold_and_push(&mut out, l.as_str());
    let ghost s3 = out@;
    let mut l = prefixed("DTEND;TZID=", config.timezone.as_str());
    l.append(":");
    l.append(dtend.as_str());
    fold_and_push(&mut out, l.as_str());
    let ghost s4 = out@;
    let title = escape_ical(event.title.as_str());
    let summary = if event.is_exam {
        prefixed("PRÜFUNG: ", title.as_str())
    } else {
        title
    };
    fold_and_push(&mut out, prefixed("SUMMARY:", summary.as_str()).as_str());
    let ghost s5 = out@;
    match &event.room {
        Some(room) => {
            let mut location = room.clone();
            match &event.event_type {
                Some(t) => {
                    location.append(" -- ");
                    location.append(t.as_str());
                },
                None => {},
            }
            let esc = escape_ical(location.as_str());
            fold_and_push(&mut out, prefixed("LOCATION:", esc.as_str()).as_str());
        },
        None => {},
    }
    assert(out@ =~= s5 + location_lines(event@));
    let ghost s6 = out@;
    match description_of(event) {
        Some(d) => {
            let esc = escape_ical(d.as_str());
            fold_and_push(&mut out, prefixed("DESCRIPTION:", esc.as_str()).as_str());
        },
        None => {},
    }
    assert(out@ =~= s6 + description_lines(event@));
    out.append("SEQUENCE:0\r\n");
    out.append("END:VEVENT\r\n");
    Some(out)
}

/// The time zone definition of Europe/Berlin (CET/CEST).
pub open spec fn vtimezone_europe_berlin_text() -> Seq<char> {
    "BEGIN:VTIMEZONE\r\nTZID:Europe/Berlin\r\nBEGIN:DAYLIGHT\r\nTZOFFSETFROM:+0100\r\nTZOFFSETTO:+0200\r\nTZNAME:CEST\r\nDTSTART:19700329T020000\r\nRRULE:FREQ=YEARLY;BYDAY=-1SU;BYMONTH=3\r\nEND:DAYLIGHT\r\nBEGIN:STANDARD\r\nTZOFFSETFROM:+0200\r\nTZOFFSETTO:+0100\r\nTZNAME:CET\r\nDTSTART:19701025T030000\r\nRRULE:FREQ=YEARLY;BYDAY=-1SU;BYMONTH=10\r\nEND:STANDARD\r\nEND:VTIMEZONE\r\n"@
}

/// The time zone definition of Europe/Berlin (CET/CEST).
pub fn vtimezone_europe_berlin() -> (s: &'static str)
    ensures
        s@ == vtimezone_europe_berlin_text(),
{
    "BEGIN:VTIMEZONE\r\nTZID:Europe/Berlin\r\nBEGIN:DAYLIGHT\r\nTZOFFSETFROM:+0100\r\nTZOFFSETTO:+0200\r\nTZNAME:CEST\r\nDTSTART:19700329T020000\r\nRRULE:FREQ=YEARLY;BYDAY=-1SU;BYMONTH=3\r\nEND:DAYLIGHT\r\nBEGIN:STANDARD\r\nTZOFFSETFROM:+0200\r\nTZOFFSETTO:+0100\r\nTZNAME:CET\r\nDTSTART:19701025T030000\r\nRRULE:FREQ=YEARLY;BYDAY=-1SU;BYMONTH=10\r\nEND:STANDARD\r\nEND:VTIMEZONE\r\n"
}

/// The text of an optional block, empty when there is none.
pub open spec fn or_empty(s: Option<Seq<char>>) -> Seq<char> {
    match s {
        Some(t) => t,
        None => Seq::empty(),
    }
}

/// The `VEVENT`s of the first `n` events of a day, numbered from 0 within the day.
pub open spec fn day_vevents(
    date: Seq<char>,
    evs: Seq<EventView>,
    n: int,
    dom: Seq<char>,
    tz: Seq<char>,
    stamp: Seq<char>,
) -> Seq<char>
    decreases n,
{
    if n <= 0 {
        Seq::empty()
    } else {
        day_vevents(date, evs, n - 1, dom, tz, stamp) + or_empty(
            vevent_text(date, evs[n - 1], n - 1, dom, tz, stamp),
        )
    }
}

/// The `VEVENT`s of the first `n` days.
pub open spec fn days_vevents(days: Seq<DayView>, n: int, dom: Seq<char>, tz: Seq<char>, stamp: Seq<char>) -> Seq<char>
    decreases n,
{
    if n <= 0 {
        Seq::empty()
    } else {
        days_vevents(days, n - 1, dom, tz, stamp) + day_vevents(
            days[n - 1].date,
            days[n - 1].events,
            days[n - 1].events.len() as int,
            dom,
            tz,
            stamp,
        )
    }
}

/// The `VEVENT`s of the first `n` timetables.
pub open spec fn timetables_vevents(
    tts: Seq<TimetableView>,
    n: int,
    dom: Seq<char>,
    tz: Seq<char>,
    stamp: Seq<char>,
) -> Seq<char>
    decreases n,
{
    if n <= 0 {
        Seq::empty()
    } else {
        timetables_vevents(tts, n - 1, dom, tz, stamp) + days_vevents(
            tts[n - 1].days,
            tts[n - 1].days.len() as int,
            dom,
            tz,
            stamp,
        )
    }
}

/// The calendar header: fixed properties, the calendar's name and time zone, and the
/// Europe/Berlin time zone definition when that is the configured zone.
pub open spec fn calendar_header(name: Seq<char>, tz: Seq<char>) -> Seq<char> {
    "BEGIN:VCALENDAR\r\n"@ + "VERSION:2.0\r\n"@ + "PRODID:-//dualis-scraper//EN\r\n"@
        + "CALSCALE:GREGORIAN\r\n"@ + "METHOD:PUBLISH\r\n"@ + folded("X-WR-CALNAME:"@ + name)
        + folded("X-WR-TIMEZONE:"@ + tz) + (if tz == "Europe/Berlin"@ {
        vtimezone_europe_berlin_text()
    } else {
        Seq::empty()
    })
}

/// The whole calendar of the timetables, every event stamped with `stamp`.
pub open spec fn calendar_text(tts: Seq<TimetableView>, name: Seq<char>, dom: Seq<char>, tz: Seq<char>, stamp: Seq<char>) -> Seq<char> {
    calendar_header(name, tz) + timetables_vevents(tts, tts.len() as int, dom, tz, stamp)
        + "END:VCALENDAR\r\n"@
}

/// The views of timetables.
pub open spec fn timetable_views(tts: Seq<Timetable>) -> Seq<TimetableView> {
    tts.map_values(|t: Timetable| t@)
}

/// Whether two character vectors are equal.
fn same_chars(a: &Vec<char>, b: &Vec<char>) -> (r: bool)
    ensures
        r == (a@ == b@),
{
    if a.len() != b.len() {
        return false;
    }
    let r = crate::text::starts_with(a, b);
    assert(a@.take(b@.len() as int) =~= a@);
    r
}

/// Build a complete iCalendar document from a list of timetables, stamped with `dtstamp`.
pub fn build_calendar_at(timetables: &[Timetable], config: &Config, dtstamp: &str) -> (s: String)
    ensures
        s@ == calendar_text(
            timetable_views(timetables@),
            config.calendar_name@,
            config.uid_domain@,
            config.timezone@,
            dtstamp@,
        ),
{
    let ghost dom = config.uid_domain@;
    let ghost tz = config.timezone@;
    let ghost stamp = dtstamp@;
    let mut out = String::from_str("BEGIN:VCALENDAR\r\n");
    out.append("VERSION:2.0\r\n");
    out.append("PRODID:-//dualis-scraper//EN\r\n");
    out.append("CALSCALE:GREGORIAN\r\n");
    out.append("METHOD:PUBLISH\r\n");
    let mut l = String::from_str("X-WR-CALNAME:");
    l.append(config.calendar_name.as_str());
    fold_and_push(&mut out, l.as_str());
    let mut l = String::from_str("X-WR-TIMEZONE:");
    l.append(config.timezone.as_str());
    fold_and_push(&mut out, l.as_str());
    if same_chars(&chars_of(config.timezone.as_str()), &chars_of("Europe/Berlin")) {
        out.append(vtimezone_europe_berlin());
    }
    assert(out@ =~= calendar_header(config.calendar_name@, tz));
    let ghost header = out@;
    let ghost tts = timetable_views(timetables@);
    let mut t: usize = 0;
    while t < timetables.len()
        invariant
            t <= timetables@.len(),
            tts == timetable_views(timetables@),
            dom == config.uid_domain@,
            tz == config.timezone@,
            stamp == dtstamp@,
            out@ == header + timetables_vevents(tts, t as int, dom, tz, stamp),
        decreases timetables@.len() - t,
    {
        let days = &timetables[t].days;
        let ghost dv = days@.map_values(|d: crate::dualis::Day| d@);
        assert(dv == tts[t as int].days);
        let ghost before_t = out@;
        let mut d: usize = 0;
        while d < days.len()
            invariant
                d <= days@.len(),
                dv == days@.map_values(|x: crate::dualis::Day| x@),
                dom == config.uid_domain@,
                tz == config.timezone@,
                stamp == dtstamp@,
                out@ == before_t + days_vevents(dv, d as int, dom, tz, stamp),
            decreases days@.len() - d,
        {
            let day = &days[d];
            let ghost ev = day.events@.map_values(|e: Event| e@);
            assert(dv[d as int] == day@);
            let ghost before_d = out@;
            let mut i: usize = 0;
            while i < day.events.len()
                invariant
                    i <= day.events@.len(),
                    ev == day.events@.map_values(|e: Event| e@),
                    dom == config.uid_domain@,
                    tz == config.timezone@,
                    stamp == dtstamp@,
                    out@ == before_d + day_vevents(day.date@, ev, i as int, dom, tz, stamp),
                decreases day.events@.len() - i,
            {
                assert(ev[i as int] == day.events@[i as int]@);
                match format_vevent(day.date.as_str(), &day.events[i], i, config, dtstamp) {
                    Some(v) => {
                        out.append(v.as_str());
                    },
                    None => {},
                }
                assert(out@ =~= before_d + day_vevents(day.date@, ev, i + 1, dom, tz, stamp));
                i = i + 1;
            }
            assert(out@ =~= before_t + days_vevents(dv, d + 1, dom, tz, stamp));
            d = d + 1;
        }
        assert(out@ =~= header + timetables_vevents(tts, t + 1, dom, tz, stamp));
        t = t + 1;
    }
    out.append("END:VCALENDAR\r\n");
    out
}

/// Build a complete iCalendar document from a list of timetables, stamped with the
/// current UTC time (`YYYYMMDDTHHMMSSZ`).
pub fn build_calendar(timetables: &[Timetable], config: &Config) -> (s: String)
    ensures
        exists|d: CalDate, t: ClockTime|
            d.valid() && t.valid() && s@ == calendar_text(
                timetable_views(timetables@),
                config.calendar_name@,
                config.uid_domain@,
                config.timezone@,
                date_time_text(d, t) + seq!['Z'],
            ),
{
    let (d, t) = utc_now();
    let mut stamp = String::new();
    push_ymd_compact(&mut stamp, &d);
    push_char(&mut stamp, 'T');
    push_hms_compact(&mut stamp, &t);
    push_char(&mut stamp, 'Z');
    assert(stamp@ =~= date_time_text(d, t) + seq!['Z']);
    build_calendar_at(timetables, config, stamp.as_str())
}

/// `s` contains neither a carriage return nor a line feed.
pub open spec fn no_line_breaks(s: Seq<char>) -> bool {
    forall|i: int| 0 <= i < s.len() ==> #[trigger] s[i] != '\r' && s[i] != '\n'
}

/// Unfolding (RFC 5545, 3.1): every CRLF followed by a single space is removed.
pub open spec fn unfold(s: Seq<char>) -> Seq<char>
    decreases s.len(),
{
    if s.len() >= 3 && s[0] == '\r' && s[1] == '\n' && s[2] == ' ' {
        unfold(s.skip(3))
    } else if s.len() == 0 {
        Seq::empty()
    } else {
        seq![s[0]] + unfold(s.drop_first())
    }
}

/// Each content line of `s` (up to its CRLF) takes at most 75 octets, counting from
/// `used` octets already on the current line.
pub open spec fn lines_fit(s: Seq<char>, used: int) -> bool
    decreases s.len(),
{
    if s.len() == 0 {
        true
    } else if s.len() >= 2 && s[0] == '\r' && s[1] == '\n' {
        lines_fit(s.skip(2), 0)
    } else {
        used + char_width(s[0]) <= 75 && lines_fit(s.drop_first(), used + char_width(s[0]))
    }
}

proof fn lemma_unfold_prefix(a: Seq<char>, b: Seq<char>)
    requires
        no_line_breaks(a),
    ensures
        unfold(a + b) == a + unfold(b),
    decreases a.len(),
{
    if a.len() > 0 {
        assert((a + b)[0] == a[0]);
        assert((a + b).drop_first() =~= a.drop_first() + b);
        lemma_unfold_prefix(a.drop_first(), b);
        assert(seq![a[0]] + (a.drop_first() + unfold(b)) =~= a + unfold(b));
    } else {
        assert(a + b =~= b);
        assert(a + unfold(b) =~= unfold(b));
    }
}

proof fn lemma_unfold_crlf()
    ensures
        unfold(crlf()) == crlf(),
{
    let c = crlf();
    assert(unfold(Seq::<char>::empty()) =~= Seq::<char>::empty());
    assert(c.drop_first() =~= seq!['\n']);
    assert(seq!['\n'].drop_first() =~= Seq::<char>::empty());
    assert(unfold(seq!['\n']) =~= seq!['\n']);
    assert(seq!['\r'] + seq!['\n'] =~= c);
}

proof fn lemma_fit_count_pos(s: Seq<char>, max: int)
    requires
        s.len() > 0,
        max >= 4,
    ensures
        fit_count(s, max) >= 1,
{
    lemma_char_width(s[0]);
}

proof fn lemma_no_breaks_sub(s: Seq<char>, lo: int, hi: int)
    requires
        no_line_breaks(s),
        0 <= lo <= hi <= s.len(),
    ensures
        no_line_breaks(s.subrange(lo, hi)),
{
    assert forall|i: int| 0 <= i < s.subrange(lo, hi).len() implies #[trigger] s.subrange(lo, hi)[i]
        != '\r' && s.subrange(lo, hi)[i] != '\n' by {
        assert(s.subrange(lo, hi)[i] == s[lo + i]);
    }
}

proof fn lemma_unfold_chunks(s: Seq<char>, max: int)
    requires
        s.len() > 0,
        no_line_breaks(s),
        max == 75 || max == 74,
    ensures
        unfold(
            s.take(fit_count(s, max) as int) + crlf() + fold_rest(
                s.skip(fit_count(s, max) as int),
                false,
            ),
        ) == s + crlf(),
    decreases s.len(),
{
    let n = fit_count(s, max) as int;
    lemma_fit_count_pos(s, max);
    lemma_fit_count_le(s, max);
    let chunk = s.take(n);
    let r = s.skip(n);
    let rest = fold_rest(r, false);
    lemma_no_breaks_sub(s, 0, n);
    assert(chunk =~= s.subrange(0, n));
    assert(chunk + crlf() + rest =~= chunk + (crlf() + rest));
    lemma_unfold_prefix(chunk, crlf() + rest);
    if r.len() == 0 {
        assert(rest =~= Seq::<char>::empty());
        assert(crlf() + rest =~= crlf());
        lemma_unfold_crlf();
        assert(chunk =~= s);
    } else {
        lemma_no_breaks_sub(s, n, s.len() as int);
        assert(r =~= s.subrange(n, s.len() as int));
        let m = fit_count(r, 74) as int;
        lemma_fit_count_pos(r, 74);
        let inner = r.take(m) + crlf() + fold_rest(r.skip(m), false);
        assert(rest == seq![' '] + r.take(m) + crlf() + fold_rest(r.skip(m), false));
        assert((crlf() + rest).skip(3) =~= inner);
        lemma_unfold_chunks(r, 74);
        assert(chunk + r =~= s);
        assert(chunk + (r + crlf()) =~= s + crlf());
    }
}

/// Folding loses nothing: unfolding a folded line that holds no line break gives back the
/// line, ended by CRLF.
pub proof fn lemma_unfold_folded(line: Seq<char>)
    requires
        no_line_breaks(line),
    ensures
        unfold(folded(line)) == line + crlf(),
{
    if octets(line) <= 75 {
        lemma_unfold_prefix(line, crlf());
        lemma_unfold_crlf();
    } else {
        assert(line.len() > 0) by {
            if line.len() == 0 {
                assert(encode_utf8(line) =~= Seq::<u8>::empty());
            }
        }
        lemma_fit_count_pos(line, 75);
        lemma_unfold_chunks(line, 75);
    }
}

proof fn lemma_octets_first(s: Seq<char>)
    requires
        s.len() > 0,
    ensures
        octets(s) == char_width(s[0]) + octets(s.drop_first()),
{
}

proof fn lemma_lines_fit_prefix(a: Seq<char>, b: Seq<char>, used: int)
    requires
        no_line_breaks(a),
        used + octets(a) <= 75,
        used >= 0,
        lines_fit(b, used + octets(a)),
    ensures
        lines_fit(a + b, used),
    decreases a.len(),
{
    if a.len() == 0 {
        assert(a + b =~= b);
        assert(encode_utf8(a) =~= Seq::<u8>::empty());
    } else {
        lemma_octets_first(a);
        assert((a + b)[0] == a[0]);
        assert((a + b).drop_first() =~= a.drop_first() + b);
        assert(!((a + b).len() >= 2 && (a + b)[0] == '\r'));
        lemma_lines_fit_prefix(a.drop_first(), b, used + char_width(a[0]));
    }
}

proof fn lemma_octets_take_fit(s: Seq<char>, max: int)
    ensures
        octets(s.take(fit_count(s, max) as int)) <= if max < 0 {
            0
        } else {
            max
        },
    decreases s.len(),
{
    let n = fit_count(s, max) as int;
    lemma_fit_count_le(s, max);
    if n == 0 {
        assert(s.take(0) =~= Seq::<char>::empty());
        assert(encode_utf8(s.take(0)) =~= Seq::<u8>::empty());
    } else {
        let w = char_width(s[0]);
        lemma_octets_take_fit(s.drop_first(), max - w);
        assert(s.take(n)[0] == s[0]);
        assert(s.take(n).drop_first() =~= s.drop_first().take(n - 1));
        lemma_octets_first(s.take(n));
    }
}

proof fn lemma_fold_rest_fits(s: Seq<char>, first: bool)
    requires
        no_line_breaks(s),
    ensures
        lines_fit(fold_rest(s, first), 0),
    decreases s.len(),
{
    if s.len() > 0 {
        let max: int = if first {
            75
        } else {
            74
        };
        let n = fit_count(s, max) as int;
        lemma_fit_count_pos(s, max);
        lemma_fit_count_le(s, max);
        let lead = if first {
            Seq::<char>::empty()
        } else {
            seq![' ']
        };
        let chunk = s.take(n);
        let r = s.skip(n);
        lemma_no_breaks_sub(s, n, s.len() as int);
        assert(r =~= s.subrange(n, s.len() as int));
        lemma_fold_rest_fits(r, false);
        let rest = fold_rest(r, false);
        assert(fold_rest(s, first) == lead + chunk + crlf() + rest);
        lemma_octets_take_fit(s, max);
        lemma_no_breaks_sub(s, 0, n);
        assert(chunk =~= s.subrange(0, n));
        let lead_octets: int = if first {
            0
        } else {
            1
        };
        assert(octets(lead) == lead_octets) by {
            if !first {
                lemma_octets_first(lead);
                assert(lead.drop_first() =~= Seq::<char>::empty());
                assert(encode_utf8(lead.drop_first()) =~= Seq::<u8>::empty());
            } else {
                assert(encode_utf8(lead) =~= Seq::<u8>::empty());
            }
        }
        assert((crlf() + rest).skip(2) =~= rest);
        assert(lines_fit(crlf() + rest, lead_octets + octets(chunk)));
        lemma_lines_fit_prefix(chunk, crlf() + rest, lead_octets);
        assert(no_line_breaks(lead));
        lemma_lines_fit_prefix(lead, chunk + (crlf() + rest), 0);
        assert(lead + (chunk + (crlf() + rest)) =~= lead + chunk + crlf() + rest);
    }
}

/// Folding keeps lines short: every content line of a folded line that holds no line
/// break takes at most 75 octets.
pub proof fn lemma_folded_lines_fit(line: Seq<char>)
    requires
        no_line_breaks(line),
    ensures
        lines_fit(folded(line), 0),
{
    if octets(line) <= 75 {
        assert(crlf().skip(2) =~= Seq::<char>::empty());
        assert(lines_fit(Seq::<char>::empty(), 0));
        assert(crlf()[0] == '\r' && crlf()[1] == '\n');
        assert(lines_fit(crlf(), octets(line) as int));
        lemma_lines_fit_prefix(line, crlf(), 0);
    } else {
        lemma_fold_rest_fits(line, true);
    }
}

/// Unescaping an iCalendar text value: a backslash followed by `n` is a newline, followed
/// by any other character is that character.
pub open spec fn unescape_text(s: Seq<char>) -> Seq<char>
    decreases s.len(),
{
    if s.len() >= 2 && s[0] == '\\' {
        seq![
            if s[1] == 'n' {
                '\n'
            } else {
                s[1]
            },
        ] + unescape_text(s.skip(2))
    } else if s.len() == 0 {
        Seq::empty()
    } else {
        seq![s[0]] + unescape_text(s.drop_first())
    }
}

proof fn lemma_escape_concat(a: Seq<char>, b: Seq<char>)
    ensures
        escape_text(a + b) == escape_text(a) + escape_text(b),
    decreases b.len(),
{
    if b.len() == 0 {
        assert(a + b =~= a);
        assert(escape_text(a) + escape_text(b) =~= escape_text(a));
    } else {
        assert((a + b).drop_last() =~= a + b.drop_last());
        assert((a + b).last() == b.last());
        lemma_escape_concat(a, b.drop_last());
        assert(escape_text(a) + escape_text(b.drop_last()) + escape_char(b.last()) =~= escape_text(a)
            + (escape_text(b.drop_last()) + escape_char(b.last())));
    }
}

proof fn lemma_unescape_char(c: char, x: Seq<char>)
    ensures
        unescape_text(escape_char(c) + x) == seq![c] + unescape_text(x),
{
    let e = escape_char(c) + x;
    if c == '\\' || c == ';' || c == ',' || c == '\n' {
        assert(e.skip(2) =~= x);
    } else {
        assert(e.drop_first() =~= x);
    }
}

/// Escaping loses nothing: unescaping the escaped text gives back the text.
pub proof fn lemma_unescape_escape(s: Seq<char>)
    ensures
        unescape_text(escape_text(s)) == s,
    decreases s.len(),
{
    if s.len() == 0 {
        assert(escape_text(s) =~= Seq::<char>::empty());
    } else {
        let rest = s.drop_first();
        assert(seq![s[0]] + rest =~= s);
        lemma_escape_concat(seq![s[0]], rest);
        let one = seq![s[0]];
        assert(one.drop_last() =~= Seq::<char>::empty());
        assert(escape_text(one.drop_last()) =~= Seq::<char>::empty());
        assert(one.last() == s[0]);
        assert(escape_text(one) == escape_text(one.drop_last()) + escape_char(s[0]));
        assert(escape_text(one) =~= escape_char(s[0]));
        lemma_unescape_char(s[0], escape_text(rest));
        lemma_unescape_escape(rest);
    }
}

/// Escaped text never holds a line feed, whatever the text.
pub proof fn lemma_escape_no_newline(s: Seq<char>)
    ensures
        forall|i: int| 0 <= i < escape_text(s).len() ==> #[trigger] escape_text(s)[i] != '\n',
    decreases s.len(),
{
    if s.len() > 0 {
        let p = s.drop_last();
        lemma_escape_no_newline(p);
        let e = escape_text(p);
        let c = escape_char(s.last());
        assert(escape_text(s) == e + c);
        assert forall|i: int| 0 <= i < (e + c).len() implies #[trigger] (e + c)[i] != '\n' by {
            if i < e.len() {
                assert((e + c)[i] == e[i]);
            } else {
                assert((e + c)[i] == c[i - e.len()]);
            }
        }
    }
}

/// Escaped text holds no line feed, and no carriage return unless the text had one.
pub proof fn lemma_escape_no_line_breaks(s: Seq<char>)
    requires
        forall|i: int| 0 <= i < s.len() ==> #[trigger] s[i] != '\r',
    ensures
        no_line_breaks(escape_text(s)),
    decreases s.len(),
{
    if s.len() > 0 {
        let p = s.drop_last();
        assert forall|i: int| 0 <= i < p.len() implies #[trigger] p[i] != '\r' by {
            assert(p[i] == s[i]);
        }
        lemma_escape_no_line_breaks(p);
        let e = escape_text(p);
        let c = escape_char(s.last());
        assert(s.last() == s[s.len() - 1]);
        assert forall|i: int| 0 <= i < (e + c).len() implies #[trigger] (e + c)[i] != '\r' && (e
            + c)[i] != '\n' by {
            if i < e.len() {
                assert((e + c)[i] == e[i]);
            } else {
                assert((e + c)[i] == c[i - e.len()]);
            }
        }
    }
}

/// The events of a calendar text: what lies between its header and its end line.
pub open spec fn calendar_events(c: Seq<char>, name: Seq<char>, tz: Seq<char>) -> Seq<char> {
    c.subrange(calendar_header(name, tz).len() as int, c.len() - "END:VCALENDAR\r\n"@.len())
}

/// The timetable `t` with the days `days`.
pub open spec fn with_days(t: TimetableView, days: Seq<DayView>) -> TimetableView {
    TimetableView { week: t.week, prev_week: t.prev_week, next_week: t.next_week, days: days }
}

proof fn lemma_events_are_vevents(
    tts: Seq<TimetableView>,
    name: Seq<char>,
    dom: Seq<char>,
    tz: Seq<char>,
    stamp: Seq<char>,
)
    ensures
        calendar_events(calendar_text(tts, name, dom, tz, stamp), name, tz) == timetables_vevents(
            tts,
            tts.len() as int,
            dom,
            tz,
            stamp,
        ),
        calendar_text(tts, name, dom, tz, stamp) == calendar_header(name, tz) + calendar_events(
            calendar_text(tts, name, dom, tz, stamp),
            name,
            tz,
        ) + "END:VCALENDAR\r\n"@,
{
    let h = calendar_header(name, tz);
    let v = timetables_vevents(tts, tts.len() as int, dom, tz, stamp);
    let e = "END:VCALENDAR\r\n"@;
    let c = h + v + e;
    assert(c.subrange(h.len() as int, c.len() - e.len()) =~= v);
}

proof fn lemma_timetables_prefix(
    a: Seq<TimetableView>,
    b: Seq<TimetableView>,
    k: int,
    dom: Seq<char>,
    tz: Seq<char>,
    stamp: Seq<char>,
)
    requires
        0 <= k <= a.len(),
    ensures
        timetables_vevents(a + b, k, dom, tz, stamp) == timetables_vevents(a, k, dom, tz, stamp),
    decreases k,
{
    if k > 0 {
        lemma_timetables_prefix(a, b, k - 1, dom, tz, stamp);
        assert((a + b)[k - 1] == a[k - 1]);
    }
}

proof fn lemma_timetables_concat(
    a: Seq<TimetableView>,
    b: Seq<TimetableView>,
    j: int,
    dom: Seq<char>,
    tz: Seq<char>,
    stamp: Seq<char>,
)
    requires
        0 <= j <= b.len(),
    ensures
        timetables_vevents(a + b, a.len() + j, dom, tz, stamp) == timetables_vevents(
            a,
            a.len() as int,
            dom,
            tz,
            stamp,
        ) + timetables_vevents(b, j, dom, tz, stamp),
    decreases j,
{
    if j == 0 {
        lemma_timetables_prefix(a, b, a.len() as int, dom, tz, stamp);
        assert(timetables_vevents(a, a.len() as int, dom, tz, stamp) + Seq::<char>::empty()
            =~= timetables_vevents(a, a.len() as int, dom, tz, stamp));
    } else {
        lemma_timetables_concat(a, b, j - 1, dom, tz, stamp);
        assert((a + b)[a.len() + j - 1] == b[j - 1]);
        let x = timetables_vevents(a, a.len() as int, dom, tz, stamp);
        let y = timetables_vevents(b, j - 1, dom, tz, stamp);
        let z = days_vevents(b[j - 1].days, b[j - 1].days.len() as int, dom, tz, stamp);
        assert(x + y + z =~= x + (y + z));
    }
}

proof fn lemma_days_prefix(
    a: Seq<DayView>,
    b: Seq<DayView>,
    k: int,
    dom: Seq<char>,
    tz: Seq<char>,
    stamp: Seq<char>,
)
    requires
        0 <= k <= a.len(),
    ensures
        days_vevents(a + b, k, dom, tz, stamp) == days_vevents(a, k, dom, tz, stamp),
    decreases k,
{
    if k > 0 {
        lemma_days_prefix(a, b, k - 1, dom, tz, stamp);
        assert((a + b)[k - 1] == a[k - 1]);
    }
}

proof fn lemma_days_concat(
    a: Seq<DayView>,
    b: Seq<DayView>,
    j: int,
    dom: Seq<char>,
    tz: Seq<char>,
    stamp: Seq<char>,
)
    requires
        0 <= j <= b.len(),
    ensures
        days_vevents(a + b, a.len() + j, dom, tz, stamp) == days_vevents(
            a,
            a.len() as int,
            dom,
            tz,
            stamp,
        ) + days_vevents(b, j, dom, tz, stamp),
    decreases j,
{
    if j == 0 {
        lemma_days_prefix(a, b, a.len() as int, dom, tz, stamp);
        assert(days_vevents(a, a.len() as int, dom, tz, stamp) + Seq::<char>::empty()
            =~= days_vevents(a, a.len() as int, dom, tz, stamp));
    } else {
        lemma_days_concat(a, b, j - 1, dom, tz, stamp);
        assert((a + b)[a.len() + j - 1] == b[j - 1]);
        let x = days_vevents(a, a.len() as int, dom, tz, stamp);
        let y = days_vevents(b, j - 1, dom, tz, stamp);
        let z = day_vevents(
            b[j - 1].date,
            b[j - 1].events,
            b[j - 1].events.len() as int,
            dom,
            tz,
            stamp,
        );
        assert(x + y + z =~= x + (y + z));
    }
}

proof fn lemma_day_prefix(
    date: Seq<char>,
    evs: Seq<EventView>,
    e: EventView,
    k: int,
    dom: Seq<char>,
    tz: Seq<char>,
    stamp: Seq<char>,
)
    requires
        0 <= k <= evs.len(),
    ensures
        day_vevents(date, evs.push(e), k, dom, tz, stamp) == day_vevents(date, evs, k, dom, tz, stamp),
    decreases k,
{
    if k > 0 {
        lemma_day_prefix(date, evs, e, k - 1, dom, tz, stamp);
        assert(evs.push(e)[k - 1] == evs[k - 1]);
    }
}

proof fn lemma_single_timetable(
    t: TimetableView,
    name: Seq<char>,
    dom: Seq<char>,
    tz: Seq<char>,
    stamp: Seq<char>,
)
    ensures
        calendar_events(calendar_text(seq![t], name, dom, tz, stamp), name, tz) == days_vevents(
            t.days,
            t.days.len() as int,
            dom,
            tz,
            stamp,
        ),
{
    lemma_events_are_vevents(seq![t], name, dom, tz, stamp);
    assert(seq![t][0] == t);
    assert(timetables_vevents(seq![t], 0, dom, tz, stamp) + days_vevents(
        t.days,
        t.days.len() as int,
        dom,
        tz,
        stamp,
    ) =~= days_vevents(t.days, t.days.len() as int, dom, tz, stamp));
}

proof fn lemma_single_day(d: DayView, dom: Seq<char>, tz: Seq<char>, stamp: Seq<char>)
    ensures
        days_vevents(seq![d], 1, dom, tz, stamp) == day_vevents(
            d.date,
            d.events,
            d.events.len() as int,
            dom,
            tz,
            stamp,
        ),
{
    assert(seq![d][0] == d);
    assert(days_vevents(seq![d], 0, dom, tz, stamp) + day_vevents(
        d.date,
        d.events,
        d.events.len() as int,
        dom,
        tz,
        stamp,
    ) =~= day_vevents(d.date, d.events, d.events.len() as int, dom, tz, stamp));
}

/// A calendar is its header, its events and the line `END:VCALENDAR`, and a calendar of
/// no timetables has no events.
pub proof fn lemma_calendar_frame(
    tts: Seq<TimetableView>,
    name: Seq<char>,
    dom: Seq<char>,
    tz: Seq<char>,
    stamp: Seq<char>,
)
    ensures
        calendar_text(tts, name, dom, tz, stamp) == calendar_header(name, tz) + calendar_events(
            calendar_text(tts, name, dom, tz, stamp),
            name,
            tz,
        ) + "END:VCALENDAR\r\n"@,
        calendar_events(calendar_text(Seq::empty(), name, dom, tz, stamp), name, tz).len() == 0,
{
    lemma_events_are_vevents(tts, name, dom, tz, stamp);
    lemma_events_are_vevents(Seq::empty(), name, dom, tz, stamp);
}

/// The events of a calendar of several timetables are the events of each timetable's own
/// calendar, one timetable after the other: no timetable is left out.
pub proof fn lemma_calendar_covers_all_timetables(
    a: Seq<TimetableView>,
    b: Seq<TimetableView>,
    name: Seq<char>,
    dom: Seq<char>,
    tz: Seq<char>,
    stamp: Seq<char>,
)
    ensures
        calendar_events(calendar_text(a + b, name, dom, tz, stamp), name, tz) == calendar_events(
            calendar_text(a, name, dom, tz, stamp),
            name,
            tz,
        ) + calendar_events(calendar_text(b, name, dom, tz, stamp), name, tz),
{
    lemma_events_are_vevents(a + b, name, dom, tz, stamp);
    lemma_events_are_vevents(a, name, dom, tz, stamp);
    lemma_events_are_vevents(b, name, dom, tz, stamp);
    lemma_timetables_concat(a, b, b.len() as int, dom, tz, stamp);
}

/// Within one timetable the events of its days come one day after the other: splitting the
/// days splits the events.
pub proof fn lemma_calendar_covers_all_days(
    t: TimetableView,
    a: Seq<DayView>,
    b: Seq<DayView>,
    name: Seq<char>,
    dom: Seq<char>,
    tz: Seq<char>,
    stamp: Seq<char>,
)
    ensures
        calendar_events(calendar_text(seq![with_days(t, a + b)], name, dom, tz, stamp), name, tz)
            == calendar_events(calendar_text(seq![with_days(t, a)], name, dom, tz, stamp), name, tz)
            + calendar_events(calendar_text(seq![with_days(t, b)], name, dom, tz, stamp), name, tz),
        calendar_events(
            calendar_text(seq![with_days(t, Seq::empty())], name, dom, tz, stamp),
            name,
            tz,
        ).len() == 0,
{
    lemma_single_timetable(with_days(t, a + b), name, dom, tz, stamp);
    lemma_single_timetable(with_days(t, a), name, dom, tz, stamp);
    lemma_single_timetable(with_days(t, b), name, dom, tz, stamp);
    lemma_single_timetable(with_days(t, Seq::empty()), name, dom, tz, stamp);
    lemma_days_concat(a, b, b.len() as int, dom, tz, stamp);
}

/// A day's events appear in order, each as its own `VEVENT` numbered by its place in the
/// day (an event whose date or times do not parse gives none): adding an event to the end
/// of a day adds its `VEVENT` to the end of the calendar's events, and a day without
/// events gives none.
pub proof fn lemma_calendar_covers_all_events(
    t: TimetableView,
    date: Seq<char>,
    weekday: Seq<char>,
    evs: Seq<EventView>,
    e: EventView,
    name: Seq<char>,
    dom: Seq<char>,
    tz: Seq<char>,
    stamp: Seq<char>,
)
    ensures
        calendar_events(
            calendar_text(
                seq![with_days(t, seq![DayView { date: date, weekday: weekday, events: evs.push(e) }])],
                name,
                dom,
                tz,
                stamp,
            ),
            name,
            tz,
        ) == calendar_events(
            calendar_text(
                seq![with_days(t, seq![DayView { date: date, weekday: weekday, events: evs }])],
                name,
                dom,
                tz,
                stamp,
            ),
            name,
            tz,
        ) + or_empty(vevent_text(date, e, evs.len() as int, dom, tz, stamp)),
        calendar_events(
            calendar_text(
                seq![with_days(t, seq![DayView { date: date, weekday: weekday, events: Seq::empty() }])],
                name,
                dom,
                tz,
                stamp,
            ),
            name,
            tz,
        ).len() == 0,
{
    let d1 = DayView { date: date, weekday: weekday, events: evs.push(e) };
    let d0 = DayView { date: date, weekday: weekday, events: evs };
    let de = DayView { date: date, weekday: weekday, events: Seq::<EventView>::empty() };
    lemma_single_timetable(with_days(t, seq![d1]), name, dom, tz, stamp);
    lemma_single_timetable(with_days(t, seq![d0]), name, dom, tz, stamp);
    lemma_single_timetable(with_days(t, seq![de]), name, dom, tz, stamp);
    lemma_single_day(d1, dom, tz, stamp);
    lemma_single_day(d0, dom, tz, stamp);
    lemma_single_day(de, dom, tz, stamp);
    lemma_day_prefix(date, evs, e, evs.len() as int, dom, tz, stamp);
    assert(evs.push(e)[evs.len() as int] == e);
}

} // verus!
