# dualis_timetable

A service that logs in to Dualis (CampusNet), scrapes the week view of the timetable,
and serves it as JSON and as an iCalendar feed for syncing to a CalDAV calendar.

The library under `src/` holds the logic, with contracts proved by Verus:

- `dualis`: the timetable model, reading the week view and the dashboard, the login
  decisions (form, `Refresh` header, error page) and the Dualis URLs;
- `ical`: RFC 5545 escaping, line folding, UIDs, events and whole calendars;
- `routes`: authorization, the week a request names, the weeks a calendar covers and
  when the cached calendar answers;
- `config`: the settings and their defaults;
- `date`, `num`, `text`, `html`: calendar values and chrono's calls and formats, decimal
  text, character-level string helpers, and scraper's element selection.

`app/` is the HTTP server around it (axum, reqwest, tokio): it reads the environment,
performs the requests to Dualis and answers the routes `/health`, `/timetable`,
`/debug/timetable` and `/calendar.ics`.
