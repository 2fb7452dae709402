//! Reading a Google calendar: the request, and the events in its answer.

use crate::clock::{
    day_number, day_text, in_calendar, local_reading, parse_day, parse_rfc3339, parsed_day,
    plain_day, rfc3339_text, rfc3339_time, to_rfc3339, zone_midnight, zone_offset, LocalTime,
    Stamp, UtcTime, Zone, SECS_PER_DAY,
};
use crate::config::Config;
use crate::urlencoding::{encode, encoded};
use vstd::prelude::*;
use vstd::string::*;
use vstd::utf8::encode_utf8;

verus! {

/// When an event starts or ends: at a point in time, or on a day.
pub struct GCalDateTime {
    pub date_time: Option<String>,
    pub date: Option<String>,
}

/// An event as the calendar service states it.
pub struct GCalItem {
    pub summary: Option<String>,
    pub start: GCalDateTime,
    pub end: GCalDateTime,
}

pub struct CalendarEvent {
    pub summary: String,
    pub start: UtcTime,
    pub end: UtcTime,
    pub all_day: bool,
}

/// An event, with its title as characters.
pub struct EventView {
    pub summary: Seq<char>,
    pub start: UtcTime,
    pub end: UtcTime,
    pub all_day: bool,
}

impl View for CalendarEvent {
    type V = EventView;

    open spec fn view(&self) -> EventView {
        EventView {
            summary: self.summary@,
            start: self.start,
            end: self.end,
            all_day: self.all_day,
        }
    }
}

/// The events behind a row of events, with their titles as characters.
pub open spec fn event_views(events: Seq<CalendarEvent>) -> Seq<EventView> {
    events.map_values(|e: CalendarEvent| e@)
}

/// The times of an event, as far as they could be read.
pub enum EventTimes {
    /// It starts at a point in time and should end at one.
    Timed { start: Option<UtcTime>, end: Option<UtcTime> },
    /// It takes a day, which starts at this time.
    AllDay { start: Option<UtcTime> },
    /// It states no start.
    Missing,
}

/// The title of an event, or what stands in its place.
pub open spec fn title(summary: Option<String>) -> Seq<char> {
    match summary {
        Some(s) => s@,
        None => "(No title)"@,
    }
}

/// One day later.
pub open spec fn day_after(t: UtcTime) -> UtcTime {
    UtcTime { secs: (t.secs + SECS_PER_DAY) as i64, nanos: t.nanos }
}

/// The event with a title and these times: none unless all that it needs could be read.
pub open spec fn event_at(summary: Seq<char>, times: EventTimes) -> Option<EventView> {
    match times {
        EventTimes::Timed { start: Some(start), end: Some(end) } => Some(
            EventView { summary, start, end, all_day: false },
        ),
        EventTimes::AllDay { start: Some(start) } => Some(
            EventView { summary, start, end: day_after(start), all_day: true },
        ),
        _ => None,
    }
}

/// The point in time that a text states, where there is a text.
pub open spec fn time_in(text: Option<String>) -> Option<UtcTime> {
    match text {
        Some(s) => match rfc3339_time(s@) {
            Some((secs, nanos)) => Some(UtcTime { secs, nanos }),
            None => None,
        },
        None => None,
    }
}

/// The start of the day that a text states, in a zone.
pub open spec fn midnight_of(text: Seq<char>, zone: Seq<char>) -> Option<UtcTime> {
    match parsed_day(text, "%Y-%m-%d"@) {
        Some(day) => match zone_midnight(zone, day) {
            Some(secs) => Some(UtcTime { secs, nanos: 0 }),
            None => None,
        },
        None => None,
    }
}

/// What an item says of its times. A start at a point in time goes before one on a day.
pub open spec fn times_of(item: GCalItem, zone: Seq<char>) -> EventTimes {
    if item.start.date_time is Some {
        EventTimes::Timed {
            start: time_in(item.start.date_time),
            end: time_in(item.end.date_time),
        }
    } else {
        match item.start.date {
            Some(date) => EventTimes::AllDay { start: midnight_of(date@, zone) },
            None => EventTimes::Missing,
        }
    }
}

/// The event that an item stands for.
pub open spec fn event_of(item: GCalItem, zone: Seq<char>) -> Option<EventView> {
    event_at(title(item.summary), times_of(item, zone))
}

/// The events of those items that stand for one, in the same order.
pub open spec fn events_of(items: Seq<GCalItem>, zone: Seq<char>) -> Seq<EventView>
    decreases items.len(),
{
    if items.len() == 0 {
        Seq::empty()
    } else {
        match event_of(items.last(), zone) {
            Some(event) => events_of(items.drop_last(), zone).push(event),
            None => events_of(items.drop_last(), zone),
        }
    }
}

/// Makes the event of a title and times that have been read.
pub fn assemble_event(summary: Option<String>, times: EventTimes) -> (r: Option<CalendarEvent>)
    requires
        times matches EventTimes::AllDay { start: Some(start) } ==> start.secs <= i64::MAX
            - SECS_PER_DAY,
    ensures
        r is Some <==> event_at(title(summary), times) is Some,
        r matches Some(event) ==> Some(event@) == event_at(title(summary), times),
{
    let summary: String = match summary {
        Some(s) => s,
        None => "(No title)".to_owned(),
    };
    match times {
        EventTimes::Timed { start: Some(start), end: Some(end) } => Some(
            CalendarEvent { summary, start, end, all_day: false },
        ),
        EventTimes::AllDay { start: Some(start) } => {
            let end = UtcTime { secs: start.secs + SECS_PER_DAY, nanos: start.nanos };
            Some(CalendarEvent { summary, start, end, all_day: true })
        },
        _ => None,
    }
}

/// A stamp in this text is read as it is written.
pub open spec fn stamp_as_written(text: Option<String>) -> bool {
    text matches Some(s) ==> forall|stamp: Stamp|
        stamp.valid() && s@ == #[trigger] stamp.text() ==> time_in(text) == Some(stamp.time())
}

fn read_time(text: &Option<String>) -> (r: Option<UtcTime>)
    ensures
        r == time_in(*text),
        stamp_as_written(*text),
{
    match text {
        Some(s) => parse_rfc3339(s.as_str()),
        None => None,
    }
}

/// A whole day that an item states starts on that day: at its start the zone's clocks
/// show the midnight of the day that is written in the item.
pub open spec fn starts_on_its_day(item: GCalItem, zone: Seq<char>) -> bool {
    times_of(item, zone) matches EventTimes::AllDay { start: Some(start) } ==> {
        &&& item.start.date is Some
        &&& parsed_day(item.start.date->0@, "%Y-%m-%d"@) matches Some(day)
        &&& local_reading(start, zone_offset(zone, start.secs as int)) == Some(
            LocalTime { day, hour: 0, minute: 0, second: 0 },
        )
    }
}

/// The whole day that an item states, where it states no point in time.
pub open spec fn whole_day(item: GCalItem) -> Option<i32> {
    if item.start.date_time is None && item.start.date is Some {
        parsed_day(item.start.date->0@, "%Y-%m-%d"@)
    } else {
        None
    }
}

/// What an item says of its times, where its day starts at `midnight`.
pub open spec fn times_with(item: GCalItem, midnight: Option<UtcTime>) -> EventTimes {
    if item.start.date_time is Some {
        EventTimes::Timed {
            start: time_in(item.start.date_time),
            end: time_in(item.end.date_time),
        }
    } else if item.start.date is Some {
        EventTimes::AllDay { start: midnight }
    } else {
        EventTimes::Missing
    }
}

/// A day that an item states in ten characters is read as it is written.
pub open spec fn day_as_written(item: GCalItem) -> bool {
    item.start.date_time is None && item.start.date is Some ==> forall|y: int, m: int, d: int|
        plain_day(y, m, d) && item.start.date->0@ == #[trigger] day_text(y, m, d)
            ==> whole_day(item) == Some(day_number(y, m, d) as i32)
}

/// The points in time that an item states are read as they are written.
pub open spec fn times_as_written(item: GCalItem) -> bool {
    item.start.date_time is Some ==> stamp_as_written(item.start.date_time) && stamp_as_written(
        item.end.date_time,
    )
}

/// The whole day that an item states, where it states no point in time.
pub fn stated_day(item: &GCalItem) -> (r: Option<i32>)
    ensures
        r == whole_day(*item),
        r matches Some(day) ==> in_calendar(day as int),
        day_as_written(*item),
{
    if item.start.date_time.is_some() {
        return None;
    }
    match &item.start.date {
        Some(date) => parse_day(date.as_str(), "%Y-%m-%d"),
        None => None,
    }
}

/// Reads the times of an item whose day, if it states one, starts at `midnight`.
pub fn times_at(item: &GCalItem, midnight: Option<UtcTime>) -> (r: EventTimes)
    ensures
        r == times_with(*item, midnight),
        times_as_written(*item),
{
    if item.start.date_time.is_some() {
        EventTimes::Timed {
            start: read_time(&item.start.date_time),
            end: read_time(&item.end.date_time),
        }
    } else if item.start.date.is_some() {
        EventTimes::AllDay { start: midnight }
    } else {
        EventTimes::Missing
    }
}

/// Reads the times of an item; a day starts at its midnight in the zone.
pub fn read_times(item: &GCalItem, zone: &Zone) -> (r: EventTimes)
    ensures
        r == times_of(*item, zone@),
        starts_on_its_day(*item, zone@),
        day_as_written(*item),
        times_as_written(*item),
{
    let midnight: Option<UtcTime> = match stated_day(item) {
        Some(day) => zone.midnight(day),
        None => None,
    };
    times_at(item, midnight)
}

/// The events in the service's answer.
pub fn events_from_items(items: Vec<GCalItem>, zone: &Zone) -> (r: Vec<CalendarEvent>)
    ensures
        event_views(r@) == events_of(items@, zone@),
        forall|j: int|
            0 <= j < items@.len() ==> {
                &&& starts_on_its_day(#[trigger] items@[j], zone@)
                &&& day_as_written(items@[j])
                &&& times_as_written(items@[j])
            },
{
    let mut events: Vec<CalendarEvent> = Vec::new();
    let n: usize = items.len();
    let mut i: usize = 0;
    assert(items@.take(0) =~= Seq::empty());
    assert(event_views(events@) =~= Seq::empty());
    while i < n
        invariant
            n == items@.len(),
            i <= n,
            event_views(events@) == events_of(items@.take(i as int), zone@),
            forall|j: int|
                0 <= j < i ==> {
                    &&& starts_on_its_day(#[trigger] items@[j], zone@)
                    &&& day_as_written(items@[j])
                    &&& times_as_written(items@[j])
                },
        decreases n - i,
    {
        let item: &GCalItem = &items[i];
        assert(items@.take(i + 1).drop_last() =~= items@.take(i as int));
        let times: EventTimes = read_times(item, zone);
        let summary: Option<String> = item.summary.clone();
        let ghost before = events@;
        if let Some(event) = assemble_event(summary, times) {
            events.push(event);
            assert(event_views(events@) =~= event_views(before).push(event@));
        }
        i += 1;
    }
    assert(items@.take(n as int) =~= items@);
    events
}

/// The events of those items that stand for one, in the same order, where the day of each
/// starts at the midnight beside it.
pub open spec fn events_with(items: Seq<GCalItem>, midnights: Seq<Option<UtcTime>>) -> Seq<
    EventView,
>
    decreases items.len(),
{
    if items.len() == 0 {
        Seq::empty()
    } else {
        let before = events_with(items.drop_last(), midnights);
        let last = items.len() - 1;
        match event_at(title(items[last].summary), times_with(items[last], midnights[last])) {
            Some(event) => before.push(event),
            None => before,
        }
    }
}

/// The events in the service's answer, where the day of each item, if it states one, starts at
/// the midnight beside it.
pub fn events_at(items: Vec<GCalItem>, midnights: Vec<Option<UtcTime>>) -> (r: Vec<CalendarEvent>)
    requires
        items@.len() == midnights@.len(),
        forall|j: int|
            0 <= j < midnights@.len() ==> (#[trigger] midnights@[j] matches Some(start)
                ==> start.secs <= i64::MAX - SECS_PER_DAY),
    ensures
        event_views(r@) == events_with(items@, midnights@),
        forall|j: int| 0 <= j < items@.len() ==> times_as_written(#[trigger] items@[j]),
{
    let mut events: Vec<CalendarEvent> = Vec::new();
    let n: usize = items.len();
    let mut i: usize = 0;
    assert(items@.take(0) =~= Seq::empty());
    assert(event_views(events@) =~= Seq::empty());
    while i < n
        invariant
            n == items@.len(),
            n == midnights@.len(),
            i <= n,
            forall|j: int|
                0 <= j < midnights@.len() ==> (#[trigger] midnights@[j] matches Some(start)
                    ==> start.secs <= i64::MAX - SECS_PER_DAY),
            event_views(events@) == events_with(items@.take(i as int), midnights@),
            forall|j: int| 0 <= j < i ==> times_as_written(#[trigger] items@[j]),
        decreases n - i,
    {
        let item: &GCalItem = &items[i];
        assert(items@.take(i + 1).drop_last() =~= items@.take(i as int));
        let times: EventTimes = times_at(item, midnights[i]);
        let summary: Option<String> = item.summary.clone();
        let ghost before = events@;
        if let Some(event) = assemble_event(summary, times) {
            events.push(event);
            assert(event_views(events@) =~= event_views(before).push(event@));
        }
        i += 1;
    }
    assert(items@.take(n as int) =~= items@);
    events
}

/// A request to the calendar service.
pub struct CalendarRequest {
    pub url: String,
    pub query: Vec<(String, String)>,
    /// A token to show, where there is one.
    pub bearer: Option<String>,
}

/// The characters of the pairs of a query.
pub open spec fn query_view(query: Seq<(String, String)>) -> Seq<(Seq<char>, Seq<char>)> {
    query.map_values(|p: (String, String)| (p.0@, p.1@))
}

/// The query for the events of a time span.
pub open spec fn span_query(time_min: UtcTime, time_max: UtcTime) -> Seq<(Seq<char>, Seq<char>)> {
    seq![
        ("timeMin"@, rfc3339_text(time_min)),
        ("timeMax"@, rfc3339_text(time_max)),
        ("singleEvents"@, "true"@),
        ("orderBy"@, "startTime"@),
        ("maxResults"@, "100"@),
    ]
}

/// An access token has to be got first: there is no API key, and there is a manager.
pub fn needs_managed_token(config: &Config, managed: bool) -> (r: bool)
    ensures
        r == (config.google_api_key is None && managed),
{
    config.google_api_key.is_none() && managed
}

fn push_pair(query: &mut Vec<(String, String)>, name: &str, value: String)
    ensures
        query_view(final(query)@) == query_view(old(query)@).push((name@, value@)),
{
    query.push((name.to_owned(), value));
    assert(query_view(query@) =~= query_view(old(query)@).push((name@, value@)));
}

/// The request for the events of a time span: with the API key where there is one, else
/// with a managed access token, else with the fixed one. There is none where an end of the
/// span lies outside the calendar.
pub fn calendar_request(
    config: &Config,
    managed_token: Option<String>,
    time_min: UtcTime,
    time_max: UtcTime,
) -> (r: Option<CalendarRequest>)
    ensures
        r is Some <==> time_min.representable() && time_max.representable(),
        r matches Some(request) ==> {
            &&& request.url@ == "https://www.googleapis.com/calendar/v3/calendars/"@ + encoded(
                encode_utf8(config.calendar_id@),
            ) + "/events"@
            &&& query_view(request.query@) == (match config.google_api_key {
                Some(key) => span_query(time_min, time_max).push(("key"@, key@)),
                None => span_query(time_min, time_max),
            })
            &&& request.bearer == (if config.google_api_key is Some {
                None::<String>
            } else if managed_token is Some {
                managed_token
            } else {
                config.google_oauth_token
            })
        },
{
    let from: String = match to_rfc3339(time_min) {
        Some(s) => s,
        None => {
            return None;
        },
    };
    let to: String = match to_rfc3339(time_max) {
        Some(s) => s,
        None => {
            return None;
        },
    };
    let mut url: String = "https://www.googleapis.com/calendar/v3/calendars/".to_owned();
    url.append(encode(config.calendar_id.as_str()).as_str());
    url.append("/events");
    let mut query: Vec<(String, String)> = Vec::new();
    push_pair(&mut query, "timeMin", from);
    push_pair(&mut query, "timeMax", to);
    push_pair(&mut query, "singleEvents", "true".to_owned());
    push_pair(&mut query, "orderBy", "startTime".to_owned());
    push_pair(&mut query, "maxResults", "100".to_owned());
    assert(query_view(query@) =~= span_query(time_min, time_max));
    if let Some(key) = &config.google_api_key {
        push_pair(&mut query, "key", key.clone());
        return Some(CalendarRequest { url, query, bearer: None });
    }
    let bearer: Option<String> = if managed_token.is_some() {
        managed_token
    } else {
        config.google_oauth_token.clone()
    };
    Some(CalendarRequest { url, query, bearer })
}

/// The seconds of four weeks.
pub const FOUR_WEEKS: i64 = 2_419_200;

/// The time span whose events are fetched: four weeks from now on.
pub fn fetch_window(now: UtcTime) -> (r: Option<(UtcTime, UtcTime)>)
    requires
        now.nanos < 1_000_000_000,
    ensures
        r is Some <==> now.secs + FOUR_WEEKS <= i64::MAX,
        r matches Some((from, to)) ==> from == now && to.secs == now.secs + FOUR_WEEKS && to.nanos
            == now.nanos,
{
    match now.secs.checked_add(FOUR_WEEKS) {
        Some(secs) => Some((now, UtcTime { secs, nanos: now.nanos })),
        None => None,
    }
}

/// An event that takes a whole day starts, by the clocks of the zone, at the midnight of the
/// day that is written in its item.
pub proof fn law_whole_day_is_kept(
    item: GCalItem,
    zone: Seq<char>,
    event: EventView,
    y: int,
    m: int,
    d: int,
)
    requires
        starts_on_its_day(item, zone),
        day_as_written(item),
        event_of(item, zone) == Some(event),
        event.all_day,
        plain_day(y, m, d),
        item.start.date matches Some(date) && date@ == day_text(y, m, d),
    ensures
        local_reading(event.start, zone_offset(zone, event.start.secs as int)) == Some(
            (LocalTime {
                day: day_number(y, m, d) as i32,
                hour: 0,
                minute: 0,
                second: 0,
            }),
        ),
        event.end == day_after(event.start),
{
}

/// An event with a time of day starts and ends at the points in time that are written in its
/// item.
pub proof fn law_times_are_kept(
    item: GCalItem,
    zone: Seq<char>,
    start: Stamp,
    end: Stamp,
)
    requires
        times_as_written(item),
        start.valid(),
        end.valid(),
        item.start.date_time matches Some(text) && text@ == start.text(),
        item.end.date_time matches Some(text) && text@ == end.text(),
    ensures
        event_of(item, zone) == Some(
            (EventView {
                summary: title(item.summary),
                start: start.time(),
                end: end.time(),
                all_day: false,
            }),
        ),
{
}

/// An item whose start or end cannot be read stands for no event, and hides no other: the
/// events of two rows of items are those of the first and then those of the second.
pub proof fn law_items_are_read_alone(first: Seq<GCalItem>, second: Seq<GCalItem>, zone: Seq<char>)
    ensures
        events_of(first + second, zone) == events_of(first, zone) + events_of(second, zone),
    decreases second.len(),
{
    let both = first + second;
    if second.len() == 0 {
        assert(both =~= first);
        assert(events_of(second, zone) =~= Seq::empty());
        assert(events_of(first, zone) + events_of(second, zone) =~= events_of(first, zone));
    } else {
        assert(both.drop_last() =~= first + second.drop_last());
        assert(both.last() == second.last());
        law_items_are_read_alone(first, second.drop_last(), zone);
        assert(events_of(both, zone) =~= events_of(first, zone) + events_of(second, zone));
    }
}

/// An event has exactly the title that its item states, however long it is. Only an item that
/// states none gets another.
pub proof fn law_titles_are_kept(item: GCalItem, zone: Seq<char>, midnight: Option<UtcTime>)
    ensures
        event_of(item, zone) matches Some(event) ==> event.summary == match item.summary {
            Some(s) => s@,
            None => "(No title)"@,
        },
        event_at(title(item.summary), times_with(item, midnight)) matches Some(event)
            ==> event.summary == match item.summary {
            Some(s) => s@,
            None => "(No title)"@,
        },
{
}

/// An item that states a point in time for its start is an event if and only if that one and
/// the one for its end can be read. Those are the event's start and end, whatever day the item
/// states besides.
pub proof fn law_timed_items(item: GCalItem, zone: Seq<char>, midnight: Option<UtcTime>)
    requires
        item.start.date_time is Some,
    ensures
        event_of(item, zone) is Some <==> rfc3339_time(item.start.date_time->0@) is Some
            && item.end.date_time is Some && rfc3339_time(item.end.date_time->0@) is Some,
        event_of(item, zone) matches Some(event) ==> {
            &&& rfc3339_time(item.start.date_time->0@) == Some((event.start.secs, event.start.nanos))
            &&& rfc3339_time(item.end.date_time->0@) == Some((event.end.secs, event.end.nanos))
            &&& !event.all_day
        },
        event_at(title(item.summary), times_with(item, midnight)) == event_of(item, zone),
{
}

/// An item that states a day, and no point in time, for its start is an event if and only if
/// the day can be read and has a midnight in the zone. The event starts at that midnight and
/// ends 24 hours later, whatever the item states as its end. An item that states neither is no
/// event.
pub proof fn law_whole_day_items(item: GCalItem, zone: Seq<char>, midnight: Option<UtcTime>)
    requires
        item.start.date_time is None,
    ensures
        whole_day(item) == match item.start.date {
            Some(date) => parsed_day(date@, "%Y-%m-%d"@),
            None => None,
        },
        event_of(item, zone) is Some <==> whole_day(item) is Some && zone_midnight(
            zone,
            whole_day(item)->0,
        ) is Some,
        event_of(item, zone) matches Some(event) ==> {
            &&& zone_midnight(zone, whole_day(item)->0) == Some(event.start.secs)
            &&& event.start.nanos == 0
            &&& event.start.secs <= i64::MAX - 86400 ==> event.end.secs == event.start.secs + 86400
            &&& event.end.nanos == 0
            &&& event.all_day
        },
        event_at(title(item.summary), times_with(item, midnight)) is Some <==> item.start.date
            is Some && midnight is Some,
        event_at(title(item.summary), times_with(item, midnight)) matches Some(event) ==> {
            &&& Some(event.start) == midnight
            &&& event.start.secs <= i64::MAX - 86400 ==> event.end.secs == event.start.secs + 86400
            &&& event.end.nanos == event.start.nanos
            &&& event.all_day
        },
{
}

/// One item alone makes its event, or none.
pub proof fn law_one_item(item: GCalItem, zone: Seq<char>)
    ensures
        events_of(Seq::<GCalItem>::empty(), zone) == Seq::<EventView>::empty(),
        events_of(seq![item], zone) == match event_of(item, zone) {
            Some(event) => seq![event],
            None => Seq::empty(),
        },
{
    assert(seq![item].drop_last() =~= Seq::empty());
    assert(events_of(seq![item].drop_last(), zone) =~= Seq::empty());
    assert(events_of(seq![item], zone) =~= match event_of(item, zone) {
        Some(event) => seq![event],
        None => Seq::empty(),
    });
}

/// One item more, with its midnight, adds its event at the end, or nothing.
pub proof fn law_one_item_more(
    items: Seq<GCalItem>,
    midnights: Seq<Option<UtcTime>>,
    item: GCalItem,
    midnight: Option<UtcTime>,
)
    requires
        items.len() == midnights.len(),
    ensures
        events_with(Seq::<GCalItem>::empty(), midnights) == Seq::<EventView>::empty(),
        events_with(items.push(item), midnights.push(midnight)) == match event_at(
            title(item.summary),
            times_with(item, midnight),
        ) {
            Some(event) => events_with(items, midnights).push(event),
            None => events_with(items, midnights),
        },
{
    lemma_later_midnights(items, midnights, midnights.push(midnight));
    assert(items.push(item).drop_last() =~= items);
}

proof fn lemma_later_midnights(
    items: Seq<GCalItem>,
    a: Seq<Option<UtcTime>>,
    b: Seq<Option<UtcTime>>,
)
    requires
        items.len() <= a.len(),
        items.len() <= b.len(),
        forall|i: int| 0 <= i < items.len() ==> #[trigger] a[i] == b[i],
    ensures
        events_with(items, a) == events_with(items, b),
    decreases items.len(),
{
    if items.len() > 0 {
        lemma_later_midnights(items.drop_last(), a, b);
        assert(a[items.len() - 1] == b[items.len() - 1]);
    }
}

/// Nothing of an event is left out of its view, and nothing of a list.
pub proof fn law_event_views_are_whole(events: Seq<CalendarEvent>, i: int)
    requires
        0 <= i < events.len(),
    ensures
        event_views(events).len() == events.len(),
        event_views(events)[i].summary == events[i].summary@,
        event_views(events)[i].start == events[i].start,
        event_views(events)[i].end == events[i].end,
        event_views(events)[i].all_day == events[i].all_day,
{
}

/// The request asks for what lies between the two ends of the span, each as it is written, for
/// single events in the order of their starts, a hundred at most.
pub proof fn law_span_is_asked_for(from: UtcTime, to: UtcTime)
    ensures
        span_query(from, to).len() == 5,
        span_query(from, to)[0] == ("timeMin"@, rfc3339_text(from)),
        span_query(from, to)[1] == ("timeMax"@, rfc3339_text(to)),
        span_query(from, to)[2] == ("singleEvents"@, "true"@),
        span_query(from, to)[3] == ("orderBy"@, "startTime"@),
        span_query(from, to)[4] == ("maxResults"@, "100"@),
        FOUR_WEEKS == 28 * 24 * 3600,
{
}

/// Nothing of a query is left out of its view.
pub proof fn law_query_view_is_whole(query: Seq<(String, String)>, i: int)
    requires
        0 <= i < query.len(),
    ensures
        query_view(query).len() == query.len(),
        query_view(query)[i].0 == query[i].0@,
        query_view(query)[i].1 == query[i].1@,
{
}

/// The times of an item are told apart by what it states of its start. A point in time goes
/// before a day, and what could not be read is missing.
pub proof fn law_times_of_an_item(item: GCalItem, zone: Seq<char>, midnight: Option<UtcTime>)
    ensures
        times_of(item, zone) is Timed <==> item.start.date_time is Some,
        times_of(item, zone) is Missing <==> item.start.date_time is None && item.start.date is None,
        times_of(item, zone) matches EventTimes::Timed { start, end } ==> {
            &&& start is Some <==> rfc3339_time(item.start.date_time->0@) is Some
            &&& start matches Some(t) ==> rfc3339_time(item.start.date_time->0@) == Some(
                (t.secs, t.nanos),
            )
            &&& end is Some <==> item.end.date_time is Some && rfc3339_time(
                item.end.date_time->0@,
            ) is Some
            &&& end matches Some(t) ==> rfc3339_time(item.end.date_time->0@) == Some(
                (t.secs, t.nanos),
            )
        },
        times_of(item, zone) matches EventTimes::AllDay { start } ==> {
            &&& start is Some <==> whole_day(item) is Some && zone_midnight(
                zone,
                whole_day(item)->0,
            ) is Some
            &&& start matches Some(t) ==> zone_midnight(zone, whole_day(item)->0) == Some(t.secs)
                && t.nanos == 0
        },
        times_with(item, midnight) is Timed ==> times_with(item, midnight) == times_of(item, zone),
        times_with(item, midnight) is Timed <==> item.start.date_time is Some,
        times_with(item, midnight) is Missing <==> item.start.date_time is None && item.start.date
            is None,
        times_with(item, midnight) matches EventTimes::AllDay { start } ==> start == midnight,
{
}

} // verus!
