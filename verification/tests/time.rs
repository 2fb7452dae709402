use chrono::{Datelike, NaiveDate};
use trmnl_display::calendar::{
    assemble_event, calendar_request, events_from_items, fetch_window, needs_managed_token,
    events_at, read_times, stated_day, times_at, EventTimes, GCalDateTime, GCalItem,
};
use trmnl_display::clock::{
    day_start, month_around, month_title, weekday_of, LocalTime, UtcTime, Zone, MAX_DAY, MIN_DAY,
};
use trmnl_display::config::{Config, Settings};
use trmnl_display::month;

fn day(y: i32, m: u32, d: u32) -> i32 {
    NaiveDate::from_ymd_opt(y, m, d).unwrap().num_days_from_ce()
}

fn utc(text: &str) -> UtcTime {
    let t = chrono::DateTime::parse_from_rfc3339(text).unwrap();
    UtcTime { secs: t.timestamp(), nanos: t.timestamp_subsec_nanos() }
}

fn reading(t: LocalTime) -> (i32, u32, u32, u32) {
    (t.day, t.hour, t.minute, t.second)
}

#[test]
fn the_calendar_reaches_as_far_as_chrono_does() {
    assert_eq!(NaiveDate::MIN.num_days_from_ce(), MIN_DAY);
    assert_eq!(NaiveDate::MAX.num_days_from_ce(), MAX_DAY);
}

#[test]
fn weekdays() {
    assert_eq!(weekday_of(1), 0);
    assert_eq!(weekday_of(day(2024, 11, 15)), 4);
    assert_eq!(weekday_of(0), 6);
    assert_eq!(weekday_of(MIN_DAY), NaiveDate::MIN.weekday().num_days_from_monday() as i32);
    assert_eq!(weekday_of(MAX_DAY), NaiveDate::MAX.weekday().num_days_from_monday() as i32);
}

#[test]
fn zones_read_points_in_time() {
    let brussels = Zone::from_setting(Some("Europe/Brussels"));
    let before = brussels.read(utc("2024-03-31T00:59:59Z")).unwrap();
    assert_eq!(reading(before), (day(2024, 3, 31), 1, 59, 59));
    let after = brussels.read(utc("2024-03-31T01:00:00Z")).unwrap();
    assert_eq!(reading(after), (day(2024, 3, 31), 3, 0, 0));
    let tokyo = Zone::from_setting(Some("Asia/Tokyo"));
    let evening = tokyo.read(utc("2023-12-31T15:04:05Z")).unwrap();
    assert_eq!(reading(evening), (day(2024, 1, 1), 0, 4, 5));
}

#[test]
fn unknown_zones_are_utc() {
    for setting in [None, Some("Mars/Olympus"), Some("UTC")] {
        let t = Zone::from_setting(setting).read(utc("2024-06-01T12:34:56Z")).unwrap();
        assert_eq!(reading(t), (day(2024, 6, 1), 12, 34, 56));
    }
}

#[test]
fn times_outside_the_calendar_have_no_reading() {
    let zone = Zone::from_setting(None);
    assert!(zone.read(UtcTime { secs: i64::MAX, nanos: 0 }).is_none());
    assert!(zone.read(UtcTime { secs: 0, nanos: 2_000_000_000 }).is_none());
    assert!(zone.read(UtcTime { secs: 0, nanos: 1_000_000_000 }).is_none());
    assert!(zone.read(UtcTime { secs: 59, nanos: 1_000_000_000 }).is_some());
    let last = day_start(MAX_DAY);
    assert!(zone.read(UtcTime { secs: last.secs + 86399, nanos: 0 }).is_some());
    assert!(zone.read(UtcTime { secs: last.secs + 86400, nanos: 0 }).is_none());
    let first = day_start(MIN_DAY);
    assert!(zone.read(first).is_some());
    assert!(zone.read(UtcTime { secs: first.secs - 1, nanos: 0 }).is_none());
    let west = Zone::from_setting(Some("America/New_York"));
    assert!(west.read(first).is_none());
}

#[test]
fn days_start_at_midnight() {
    let brussels = Zone::from_setting(Some("Europe/Brussels"));
    let start = brussels.midnight(day(2024, 7, 1)).unwrap();
    assert_eq!((start.secs, start.nanos), (utc("2024-06-30T22:00:00Z").secs, 0));
}

#[test]
fn midnights_that_are_skipped_or_doubled_do_not_count() {
    let sao_paulo = Zone::from_setting(Some("America/Sao_Paulo"));
    assert!(sao_paulo.midnight(day(2018, 11, 4)).is_none());
    assert!(sao_paulo.midnight(day(2018, 11, 5)).is_some());
    let havana = Zone::from_setting(Some("America/Havana"));
    assert!(havana.midnight(day(2023, 11, 5)).is_none());
}

#[test]
fn times_are_written() {
    let t = LocalTime { day: day(2024, 11, 5), hour: 9, minute: 5, second: 7 };
    assert_eq!(t.label_prefix(), "09:05 ");
    assert_eq!(t.time_of_day(), "09:05:07");
    assert_eq!(t.long_text(), "Tuesday, November 5  ·  09:05");
    let t = LocalTime { day: day(2026, 2, 28), hour: 23, minute: 59, second: 59 };
    assert_eq!(t.long_text(), "Saturday, February 28  ·  23:59");
}

#[test]
fn months_are_named() {
    assert_eq!(month_title(day(2024, 1, 31)), "January 2024");
    assert_eq!(month_title(day(987, 12, 1)), "December 0987");
    assert_eq!(month_title(day(12345, 6, 1)), "June +12345");
    assert_eq!(month_title(day(-44, 3, 15)), "March -0044");
}

#[test]
fn months_have_their_days() {
    let length = |y, m, d| {
        let (first, next) = month_around(day(y, m, d)).unwrap();
        assert_eq!(first, day(y, m, 1));
        next - first
    };
    assert_eq!(length(2024, 2, 29), 29);
    assert_eq!(length(2023, 2, 1), 28);
    assert_eq!(length(1900, 2, 10), 28);
    assert_eq!(length(2000, 2, 10), 29);
    assert_eq!(length(2024, 12, 31), 31);
    assert_eq!(length(2024, 4, 30), 30);
    assert!(month_around(MAX_DAY).is_none());
    assert!(month_around(MIN_DAY).is_some());
}

#[test]
fn points_in_time_have_a_day() {
    assert_eq!(utc("1970-01-01T00:00:00Z").utc_day(), Some(day(1970, 1, 1)));
    assert_eq!(utc("1969-12-31T23:59:59Z").utc_day(), Some(day(1969, 12, 31)));
    assert_eq!(utc("2024-02-29T23:59:59Z").utc_day(), Some(day(2024, 2, 29)));
    assert_eq!(UtcTime { secs: i64::MIN, nanos: 0 }.utc_day(), None);
    assert_eq!(UtcTime { secs: i64::MAX, nanos: 0 }.utc_day(), None);
}

#[test]
fn four_weeks_are_fetched() {
    let now = UtcTime { secs: 1_700_000_000, nanos: 5 };
    let (from, to) = fetch_window(now).unwrap();
    assert_eq!((from.secs, from.nanos), (1_700_000_000, 5));
    assert_eq!((to.secs, to.nanos), (1_702_419_200, 5));
    assert!(fetch_window(UtcTime { secs: i64::MAX, nanos: 0 }).is_none());
}

#[test]
fn the_whole_month_is_fetched() {
    let (from, to) = month::fetch_window(utc("2024-12-15T10:00:00Z")).unwrap();
    assert_eq!(from.secs, utc("2024-12-01T00:00:00Z").secs);
    assert_eq!(to.secs, utc("2025-01-01T00:00:00Z").secs);
    let (from, to) = month::fetch_window(utc("2024-02-29T23:59:59Z")).unwrap();
    assert_eq!(from.secs, utc("2024-02-01T00:00:00Z").secs);
    assert_eq!(to.secs, utc("2024-03-01T00:00:00Z").secs);
    assert!(month::fetch_window(UtcTime { secs: i64::MAX, nanos: 0 }).is_none());
}

fn item(summary: Option<&str>, start: (Option<&str>, Option<&str>), end: Option<&str>) -> GCalItem {
    let own = |s: Option<&str>| s.map(|s| s.to_string());
    GCalItem {
        summary: own(summary),
        start: GCalDateTime { date_time: own(start.0), date: own(start.1) },
        end: GCalDateTime { date_time: own(end), date: None },
    }
}

#[test]
fn timed_items_become_events() {
    let zone = Zone::from_setting(None);
    let items = vec![item(
        Some("Dentist"),
        (Some("2024-11-15T09:00:00+01:00"), Some("2024-11-16")),
        Some("2024-11-15T10:30:00Z"),
    )];
    let events = events_from_items(items, &zone);
    assert_eq!(events.len(), 1);
    assert_eq!(events[0].summary, "Dentist");
    assert_eq!(events[0].start.secs, utc("2024-11-15T08:00:00Z").secs);
    assert_eq!(events[0].end.secs, utc("2024-11-15T10:30:00Z").secs);
    assert!(!events[0].all_day);
}

#[test]
fn whole_days_become_events() {
    let zone = Zone::from_setting(Some("Europe/Brussels"));
    let events = events_from_items(vec![item(None, (None, Some("2024-07-01")), None)], &zone);
    assert_eq!(events[0].summary, "(No title)");
    assert_eq!(events[0].start.secs, utc("2024-06-30T22:00:00Z").secs);
    assert_eq!(events[0].end.secs, events[0].start.secs + 86400);
    assert!(events[0].all_day);
    let local = zone.read(events[0].start).unwrap();
    assert_eq!(reading(local), (day(2024, 7, 1), 0, 0, 0));
}

#[test]
fn unreadable_items_are_left_out() {
    let zone = Zone::from_setting(Some("America/Sao_Paulo"));
    let good = "2024-11-15T09:00:00Z";
    let items = vec![
        item(Some("no start"), (None, None), Some(good)),
        item(Some("bad start"), (Some("tomorrow"), None), Some(good)),
        item(Some("no end"), (Some(good), None), None),
        item(Some("bad end"), (Some(good), None), Some("later")),
        item(Some("bad day"), (None, Some("2024-13-01")), None),
        item(Some("no midnight"), (None, Some("2018-11-04")), None),
        item(Some("first"), (Some(good), None), Some(good)),
        item(Some("second"), (None, Some("2024-11-15")), None),
    ];
    let titles: Vec<String> =
        events_from_items(items, &zone).into_iter().map(|e| e.summary).collect();
    assert_eq!(titles, vec!["first".to_string(), "second".to_string()]);
}

#[test]
fn days_start_where_the_caller_says() {
    let whole = item(Some("x"), (None, Some("2024-07-01")), None);
    assert_eq!(stated_day(&whole), Some(day(2024, 7, 1)));
    let start = UtcTime { secs: 123, nanos: 0 };
    let times = times_at(&whole, Some(start));
    assert!(matches!(times, EventTimes::AllDay { start: Some(t) } if t.secs == 123));
    assert_eq!(assemble_event(None, times).unwrap().end.secs, 86523);
    assert!(assemble_event(None, times_at(&whole, None)).is_none());
    let timed = item(None, (Some("2024-11-15T09:00:00Z"), Some("2024-07-01")), None);
    assert_eq!(stated_day(&timed), None);
    assert!(matches!(times_at(&timed, None), EventTimes::Timed { start: Some(_), end: None }));
    let none = item(None, (None, None), None);
    assert_eq!(stated_day(&none), None);
    assert!(matches!(read_times(&none, &Zone::from_setting(None)), EventTimes::Missing));
}

#[test]
fn items_are_read_beside_their_midnights() {
    let good = "2024-11-15T09:00:00Z";
    let items = vec![
        item(Some("day"), (None, Some("2024-07-01")), None),
        item(Some("no midnight"), (None, Some("2024-07-02")), None),
        item(Some("no end"), (Some(good), None), None),
        item(None, (Some(good), None), Some(good)),
        item(Some("no start"), (None, None), Some(good)),
    ];
    let start = Some(UtcTime { secs: 7, nanos: 0 });
    let events = events_at(items, vec![start, None, start, None, start]);
    assert_eq!(events.len(), 2);
    assert_eq!(events[0].summary, "day");
    assert_eq!((events[0].start.secs, events[0].end.secs), (7, 86407));
    assert!(events[0].all_day);
    assert_eq!(events[1].summary, "(No title)");
    assert_eq!(events[1].start.secs, utc(good).secs);
}

fn config(key: Option<&str>, token: Option<&str>) -> Config {
    Config::from_settings(Settings {
        calendar_id: Some("me@example.com".to_string()),
        google_api_key: key.map(|s| s.to_string()),
        google_oauth_token: token.map(|s| s.to_string()),
        google_refresh_token: None,
        google_client_id: None,
        google_client_secret: None,
        trmnl_api_key: None,
        display_tz: None,
        base_url: None,
    })
}

#[test]
fn the_calendar_is_asked_for_a_span() {
    let (from, to) = (utc("2024-11-15T08:00:00Z"), utc("2024-12-13T08:00:00.5Z"));
    let r = calendar_request(&config(Some("k"), Some("t")), None, from, to).unwrap();
    assert_eq!(r.url, "https://www.googleapis.com/calendar/v3/calendars/me%40example.com/events");
    let query: Vec<(&str, &str)> = r.query.iter().map(|p| (p.0.as_str(), p.1.as_str())).collect();
    assert_eq!(
        query,
        vec![
            ("timeMin", "2024-11-15T08:00:00+00:00"),
            ("timeMax", "2024-12-13T08:00:00.500+00:00"),
            ("singleEvents", "true"),
            ("orderBy", "startTime"),
            ("maxResults", "100"),
            ("key", "k"),
        ]
    );
    assert!(r.bearer.is_none());
}

#[test]
fn points_in_time_are_written_by_rfc_3339() {
    let text = |secs: i64, nanos: u32| {
        let t = UtcTime { secs, nanos };
        let r = calendar_request(&config(None, None), None, t, t).unwrap();
        r.query[0].1.clone()
    };
    assert_eq!(text(0, 0), "1970-01-01T00:00:00+00:00");
    assert_eq!(text(-1, 7_000_000), "1969-12-31T23:59:59.007+00:00");
    assert_eq!(text(1_709_210_096, 12_000), "2024-02-29T12:34:56.000012+00:00");
    assert_eq!(text(1_709_210_096, 1), "2024-02-29T12:34:56.000000001+00:00");
    assert_eq!(text(1_483_228_799, 1_500_000_000), "2016-12-31T23:59:60.500+00:00");
    assert_eq!(text(day_start(day(12345, 6, 7)).secs, 0), "+12345-06-07T00:00:00+00:00");
    assert_eq!(text(day_start(day(-44, 3, 15)).secs, 0), "-0044-03-15T00:00:00+00:00");
    assert_eq!(text(day_start(day(987, 1, 1)).secs, 0), "0987-01-01T00:00:00+00:00");
}

#[test]
fn a_managed_token_goes_before_the_fixed_one() {
    let t = utc("2024-11-15T08:00:00Z");
    let r = calendar_request(&config(None, Some("fixed")), Some("new".to_string()), t, t).unwrap();
    assert_eq!(r.bearer.as_deref(), Some("new"));
    assert_eq!(r.query.len(), 5);
    let r = calendar_request(&config(None, Some("fixed")), None, t, t).unwrap();
    assert_eq!(r.bearer.as_deref(), Some("fixed"));
    let r = calendar_request(&config(None, None), None, t, t).unwrap();
    assert!(r.bearer.is_none());
    assert!(needs_managed_token(&config(None, None), true));
    assert!(!needs_managed_token(&config(Some("k"), None), true));
    assert!(!needs_managed_token(&config(None, None), false));
}

#[test]
fn no_request_reaches_out_of_the_calendar() {
    let t = utc("2024-11-15T08:00:00Z");
    let far = UtcTime { secs: i64::MAX, nanos: 0 };
    assert!(calendar_request(&config(None, None), None, t, far).is_none());
    assert!(calendar_request(&config(None, None), None, far, t).is_none());
}
