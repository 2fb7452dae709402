//! Points in time, calendar days and time zones.

use chrono::{DateTime, Datelike, NaiveDate, Offset, TimeZone, Timelike};
use chrono_tz::Tz;
use vstd::prelude::*;
use vstd::string::*;

use crate::text::{decimal, digit};

verus! {

/// The first day that has a number: January 1 of the year -262143.
pub const MIN_DAY: i32 = -95746129;

/// The last day that has a number: December 31 of the year 262142.
pub const MAX_DAY: i32 = 95745399;

/// The number of January 1, 1970.
pub const EPOCH_DAY: i32 = 719163;

pub const SECS_PER_DAY: i64 = 86400;

/// A point in time: seconds since the start of 1970 in UTC, and nanoseconds past that
/// second. During a leap second the nanoseconds go on past one billion.
#[derive(Clone, Copy, Debug)]
pub struct UtcTime {
    pub secs: i64,
    pub nanos: u32,
}

/// What a calendar and a clock show at some place. A day is counted from January 1 of
/// the year 1, which is day 1.
#[derive(Clone, Copy, Debug)]
pub struct LocalTime {
    pub day: i32,
    pub hour: u32,
    pub minute: u32,
    pub second: u32,
}

/// The day lies in the range of the calendar.
pub open spec fn in_calendar(day: int) -> bool {
    MIN_DAY <= day <= MAX_DAY
}

/// The day on which the second `secs` falls.
pub open spec fn day_of(secs: int) -> int {
    secs / SECS_PER_DAY as int + EPOCH_DAY
}

/// The first second of a day.
pub open spec fn start_of(day: int) -> int {
    (day - EPOCH_DAY) * SECS_PER_DAY
}

impl UtcTime {
    /// The point lies in the calendar's range, and only the last second of a minute may be
    /// a leap second.
    pub open spec fn representable(&self) -> bool {
        &&& in_calendar(day_of(self.secs as int))
        &&& self.nanos < 2_000_000_000
        &&& self.nanos >= 1_000_000_000 ==> self.secs as int % 60 == 59
    }
}

impl LocalTime {
    pub open spec fn wf(&self) -> bool {
        in_calendar(self.day as int) && self.hour < 24 && self.minute < 60 && self.second < 60
    }
}

/// What a clock shows that counts `secs` seconds since the start of 1970.
pub open spec fn clock_at(secs: int) -> LocalTime {
    LocalTime {
        day: day_of(secs) as i32,
        hour: (secs % 86400 / 3600) as u32,
        minute: (secs % 3600 / 60) as u32,
        second: (secs % 60) as u32,
    }
}

pub open spec fn leap_year(y: int) -> bool {
    y % 4 == 0 && (y % 100 != 0 || y % 400 == 0)
}

pub open spec fn days_in_month(y: int, m: int) -> int {
    if m == 2 {
        if leap_year(y) {
            29
        } else {
            28
        }
    } else if m == 4 || m == 6 || m == 9 || m == 11 {
        30
    } else {
        31
    }
}

/// The days of year `y` that lie before its month `m`.
pub open spec fn days_before_month(y: int, m: int) -> int
    decreases m,
{
    if m <= 1 {
        0
    } else {
        days_before_month(y, m - 1) + days_in_month(y, m - 1)
    }
}

/// The days that lie before year `y`, counted from the year 1.
pub open spec fn days_before_year(y: int) -> int {
    365 * (y - 1) + (y - 1) / 4 - (y - 1) / 100 + (y - 1) / 400
}

/// The date exists in the Gregorian calendar, carried on to all years.
pub open spec fn valid_date(y: int, m: int, d: int) -> bool {
    1 <= m <= 12 && 1 <= d <= days_in_month(y, m)
}

/// The number of a day.
pub open spec fn day_number(y: int, m: int, d: int) -> int {
    days_before_year(y) + days_before_month(y, m) + d
}

/// The number of a date that exists and lies in the range of the calendar.
pub open spec fn dated_day(y: int, m: int, d: int) -> Option<i32> {
    if valid_date(y, m, d) && in_calendar(day_number(y, m, d)) {
        Some(day_number(y, m, d) as i32)
    } else {
        None
    }
}

/// The year, the month and the day of the month of a day.
pub open spec fn date_on(day: int) -> (int, int, int) {
    choose|y: int, m: int, d: int| valid_date(y, m, d) && #[trigger] day_number(y, m, d) == day
}

/// The day of the week, with Monday as 0: January 1 of the year 1 was a Monday.
pub open spec fn weekday(day: int) -> int {
    (day - 1) % 7
}

/// Whether the time zone database knows a zone of this name (`chrono_tz::Tz::from_str`).
pub uninterp spec fn zone_known(name: Seq<char>) -> bool;

/// By how many seconds the clocks of a zone are ahead of UTC at the second `secs`
/// (`chrono_tz::Tz::offset_from_utc_datetime`).
pub uninterp spec fn zone_offset(zone: Seq<char>, secs: int) -> int;

/// The second at which a zone's clocks show midnight at the start of a day, where there is
/// exactly one (`chrono_tz::Tz::from_local_datetime`).
pub uninterp spec fn zone_midnight(zone: Seq<char>, day: i32) -> Option<i64>;

/// The point in time that `chrono::DateTime::parse_from_rfc3339` reads from a text: its
/// seconds and nanoseconds.
pub uninterp spec fn rfc3339_time(text: Seq<char>) -> Option<(i64, u32)>;

/// The day that `chrono::NaiveDate::parse_from_str` reads from a text by a pattern.
pub uninterp spec fn parsed_day(text: Seq<char>, pattern: Seq<char>) -> Option<i32>;

/// `str::parse::<chrono_tz::Tz>`: whether a name is that of a zone. `UTC` is one.
#[verifier::external_body]
fn is_zone(name: &str) -> (r: bool)
    ensures
        r == zone_known(name@),
        name@ == "UTC"@ ==> r,
{
    name.parse::<Tz>().is_ok()
}

/// What the clocks of a zone show, where the calendar reaches that far.
pub open spec fn local_reading(t: UtcTime, offset: int) -> Option<LocalTime> {
    if t.representable() && in_calendar(day_of(t.secs + offset)) {
        Some(clock_at(t.secs + offset))
    } else {
        None
    }
}

/// `chrono_tz::Tz::offset_from_utc_datetime` and `NaiveDateTime::checked_add_offset`: the
/// local reading is that of the zone's offset at that time, added to UTC; there is none where
/// the time or the sum lies outside the calendar.
#[verifier::external_body]
fn zone_reading(t: UtcTime, zone: &str) -> (r: Option<LocalTime>)
    requires
        zone_known(zone@),
    ensures
        r == local_reading(t, zone_offset(zone@, t.secs as int)),
{
    let zone: Tz = zone.parse().unwrap();
    let utc = DateTime::from_timestamp(t.secs, t.nanos)?.naive_utc();
    let local = utc.checked_add_offset(zone.offset_from_utc_datetime(&utc).fix())?;
    let day = local.date().num_days_from_ce();
    Some(LocalTime { day, hour: local.hour(), minute: local.minute(), second: local.second() })
}

/// `chrono_tz::Tz::from_local_datetime` and `LocalResult::single`: the second at which a
/// zone's clocks show 00:00:00 on a day, unless they skip it or show it twice. At that
/// second the zone's offset leads from UTC to that midnight.
#[verifier::external_body]
fn midnight_in(zone: &str, day: i32) -> (r: Option<i64>)
    requires
        zone_known(zone@),
        in_calendar(day as int),
    ensures
        r == zone_midnight(zone@, day),
        r matches Some(s) ==> in_calendar(day_of(s as int)) && s + zone_offset(zone@, s as int)
            == start_of(day as int),
{
    let zone: Tz = zone.parse().unwrap();
    let midnight = NaiveDate::from_num_days_from_ce_opt(day)?.and_hms_opt(0, 0, 0)?;
    zone.from_local_datetime(&midnight).single().map(|t| t.timestamp())
}

/// The last `width` decimal digits of a number, zeros in front where it has fewer.
pub open spec fn digits(n: nat, width: nat) -> Seq<char>
    decreases width,
{
    if width == 0 {
        Seq::empty()
    } else {
        digits(n / 10, (width - 1) as nat).push(digit((n % 10) as int))
    }
}

/// A fraction of a second in nanoseconds, in three, six or nine digits, as many as it needs.
pub open spec fn fraction(nanos: nat) -> Seq<char> {
    if nanos == 0 {
        Seq::empty()
    } else if nanos % 1_000_000 == 0 {
        seq!['.'] + digits(nanos / 1_000_000, 3)
    } else if nanos % 1_000 == 0 {
        seq!['.'] + digits(nanos / 1_000, 6)
    } else {
        seq!['.'] + digits(nanos, 9)
    }
}

/// A point in time by RFC 3339, in UTC: date, time of day, fraction and offset. A leap second
/// is the sixtieth of its minute.
pub open spec fn rfc3339_text(t: UtcTime) -> Seq<char> {
    let (y, m, d) = date_on(day_of(t.secs as int));
    let at = clock_at(t.secs as int);
    let leap: int = if t.nanos >= 1_000_000_000 {
        1
    } else {
        0
    };
    year_text(y) + seq!['-'] + two_digits(m) + seq!['-'] + two_digits(d) + seq!['T']
        + hour_minute_second(at.hour as int, at.minute as int, at.second + leap) + fraction(
        (t.nanos - leap * 1_000_000_000) as nat,
    ) + "+00:00"@
}

/// `chrono::DateTime::to_rfc3339`, in UTC: the date, `T`, the time of day, the fraction of
/// the second if there is one, and `+00:00`. A point outside the calendar has no text.
#[verifier::external_body]
pub(crate) fn to_rfc3339(t: UtcTime) -> (r: Option<String>)
    ensures
        r is Some <==> t.representable(),
        r matches Some(s) ==> s@ == rfc3339_text(t),
{
    DateTime::from_timestamp(t.secs, t.nanos).map(|t| t.to_rfc3339())
}

/// A day in ten characters: year, month and day of the month.
pub open spec fn day_text(y: int, m: int, d: int) -> Seq<char> {
    four_digits(y as nat) + seq!['-'] + two_digits(m) + seq!['-'] + two_digits(d)
}

/// A day that can be written in ten characters.
pub open spec fn plain_day(y: int, m: int, d: int) -> bool {
    0 <= y <= 9999 && valid_date(y, m, d)
}

/// A date and a time of day by clocks that are `east` minutes ahead of UTC.
pub ghost struct Stamp {
    pub date: (int, int, int),
    pub hour: int,
    pub minute: int,
    pub second: int,
    pub east: int,
}

impl Stamp {
    pub open spec fn valid(self) -> bool {
        &&& plain_day(self.date.0, self.date.1, self.date.2)
        &&& 0 <= self.hour < 24
        &&& 0 <= self.minute < 60
        &&& 0 <= self.second < 60
        &&& -1440 < self.east < 1440
    }

    /// The stamp by RFC 3339, to the second and with its offset.
    pub open spec fn text(self) -> Seq<char> {
        let ahead = self.east >= 0;
        let offset = if ahead {
            self.east
        } else {
            -self.east
        };
        day_text(self.date.0, self.date.1, self.date.2) + seq!['T'] + hour_minute_second(
            self.hour,
            self.minute,
            self.second,
        ) + seq![
            if ahead {
                '+'
            } else {
                '-'
            },
        ] + hour_minute(offset / 60, offset % 60)
    }

    /// The point in time that the stamp stands for.
    pub open spec fn time(self) -> UtcTime {
        UtcTime {
            secs: (start_of(day_number(self.date.0, self.date.1, self.date.2)) + self.hour * 3600
                + self.minute * 60 + self.second - self.east * 60) as i64,
            nanos: 0,
        }
    }
}

/// `chrono::DateTime::parse_from_rfc3339`: the point in time that a text stands for. A date
/// and a time of day to the second, with an offset, are read as they are written. As the year
/// has four digits, the point is one of the years 0 to 9999, up to a day.
#[verifier::external_body]
pub(crate) fn parse_rfc3339(s: &str) -> (r: Option<UtcTime>)
    ensures
        r is Some <==> rfc3339_time(s@) is Some,
        r matches Some(t) ==> rfc3339_time(s@) == Some((t.secs, t.nanos)),
        r matches Some(t) ==> t.representable() && -366 <= day_of(t.secs as int) <= 3652060,
        forall|stamp: Stamp|
            stamp.valid() && s@ == #[trigger] stamp.text() ==> r == Some(stamp.time()),
{
    let t = DateTime::parse_from_rfc3339(s).ok()?;
    Some(UtcTime { secs: t.timestamp(), nanos: t.timestamp_subsec_nanos() })
}

/// `chrono::NaiveDate::parse_from_str`: the day that a text stands for by a pattern. With the
/// pattern `%Y-%m-%d` a day in ten characters is read as it is written.
#[verifier::external_body]
pub(crate) fn parse_day(s: &str, pattern: &str) -> (r: Option<i32>)
    ensures
        r == parsed_day(s@, pattern@),
        r matches Some(day) ==> in_calendar(day as int),
        pattern@ == "%Y-%m-%d"@ ==> forall|y: int, m: int, d: int|
            plain_day(y, m, d) && s@ == #[trigger] day_text(y, m, d) ==> r == Some(
                day_number(y, m, d) as i32,
            ),
{
    NaiveDate::parse_from_str(s, pattern).ok().map(|d| d.num_days_from_ce())
}

/// `chrono::Datelike`'s `year`, `month` and `day` of the day with a number
/// (`NaiveDate::from_num_days_from_ce_opt`): the date that has that number.
#[verifier::external_body]
pub(crate) fn date_of(day: i32) -> (r: (i32, u32, u32))
    requires
        in_calendar(day as int),
    ensures
        valid_date(r.0 as int, r.1 as int, r.2 as int),
        day_number(r.0 as int, r.1 as int, r.2 as int) == day,
{
    let date = NaiveDate::from_num_days_from_ce_opt(day).unwrap();
    (date.year(), date.month(), date.day())
}

/// `chrono::NaiveDate::from_ymd_opt`: the number of a date, where it exists and lies in the
/// calendar's range.
#[verifier::external_body]
pub(crate) fn day_of_date(year: i32, month: u32, day: u32) -> (r: Option<i32>)
    ensures
        r == dated_day(year as int, month as int, day as int),
{
    NaiveDate::from_ymd_opt(year, month, day).map(|d| d.num_days_from_ce())
}

pub open spec fn two_digits(n: int) -> Seq<char> {
    seq![digit(n / 10), digit(n % 10)]
}

/// A number in decimal, with leading zeros up to four digits.
pub open spec fn four_digits(n: nat) -> Seq<char> {
    if n < 10 {
        seq!['0', '0', '0'] + decimal(n)
    } else if n < 100 {
        seq!['0', '0'] + decimal(n)
    } else if n < 1000 {
        seq!['0'] + decimal(n)
    } else {
        decimal(n)
    }
}

/// A year in at least four digits, with a sign where it has not exactly four.
pub open spec fn year_text(y: int) -> Seq<char> {
    if y < 0 {
        seq!['-'] + four_digits((-y) as nat)
    } else if y <= 9999 {
        four_digits(y as nat)
    } else {
        seq!['+'] + decimal(y as nat)
    }
}

pub open spec fn month_name(m: int) -> Seq<char> {
    if m == 1 {
        "January"@
    } else if m == 2 {
        "February"@
    } else if m == 3 {
        "March"@
    } else if m == 4 {
        "April"@
    } else if m == 5 {
        "May"@
    } else if m == 6 {
        "June"@
    } else if m == 7 {
        "July"@
    } else if m == 8 {
        "August"@
    } else if m == 9 {
        "September"@
    } else if m == 10 {
        "October"@
    } else if m == 11 {
        "November"@
    } else {
        "December"@
    }
}

/// The name of a day of the week, with Monday as 0.
pub open spec fn weekday_name(w: int) -> Seq<char> {
    if w == 0 {
        "Monday"@
    } else if w == 1 {
        "Tuesday"@
    } else if w == 2 {
        "Wednesday"@
    } else if w == 3 {
        "Thursday"@
    } else if w == 4 {
        "Friday"@
    } else if w == 5 {
        "Saturday"@
    } else {
        "Sunday"@
    }
}

/// Hours and minutes, in two digits each.
pub open spec fn hour_minute(hour: int, minute: int) -> Seq<char> {
    two_digits(hour) + seq![':'] + two_digits(minute)
}

/// Hours, minutes and seconds, in two digits each.
pub open spec fn hour_minute_second(hour: int, minute: int, second: int) -> Seq<char> {
    hour_minute(hour, minute) + seq![':'] + two_digits(second)
}

/// Weekday, month, day of the month and time of day.
pub open spec fn long_date_time(y: int, m: int, d: int, hour: int, minute: int) -> Seq<char> {
    weekday_name(weekday(day_number(y, m, d))) + ", "@ + month_name(m) + " "@ + decimal(d as nat)
        + "  ·  "@ + hour_minute(hour, minute)
}

/// `chrono::NaiveDateTime::format`, for four patterns: `%H`, `%M` and `%S` are the hour, the
/// minute and the second in two digits, `%A` and `%B` the English names of weekday and
/// month, `%-d` the day of the month without padding, and `%Y` the year.
#[verifier::external_body]
fn strftime(date: (i32, u32, u32), hour: u32, minute: u32, second: u32, pattern: &str) -> (r: String)
    requires
        valid_date(date.0 as int, date.1 as int, date.2 as int),
        in_calendar(day_number(date.0 as int, date.1 as int, date.2 as int)),
        hour < 24,
        minute < 60,
        second < 60,
        pattern@ == "%H:%M "@ || pattern@ == "%H:%M:%S"@ || pattern@ == "%A, %B %-d  ·  %H:%M"@
            || pattern@ == "%B %Y"@,
    ensures
        pattern@ == "%H:%M "@ ==> r@ == hour_minute(hour as int, minute as int) + seq![' '],
        pattern@ == "%H:%M:%S"@ ==> r@ == hour_minute_second(
            hour as int,
            minute as int,
            second as int,
        ),
        pattern@ == "%A, %B %-d  ·  %H:%M"@ ==> r@ == long_date_time(
            date.0 as int,
            date.1 as int,
            date.2 as int,
            hour as int,
            minute as int,
        ),
        pattern@ == "%B %Y"@ ==> r@ == month_name(date.1 as int) + " "@ + year_text(date.0 as int),
{
    let day = NaiveDate::from_ymd_opt(date.0, date.1, date.2).unwrap();
    day.and_hms_opt(hour, minute, second).unwrap().format(pattern).to_string()
}

proof fn lemma_clock_at_midnight(day: i32)
    ensures
        day_of(start_of(day as int)) == day,
        clock_at(start_of(day as int)) == (LocalTime { day, hour: 0, minute: 0, second: 0 }),
{
    let k = day - EPOCH_DAY;
    let s = start_of(day as int);
    assert(s == k * 86400);
    assert(s / 86400 == k);
    assert(s % 86400 == 0);
    assert(s == (k * 24) * 3600);
    assert(s % 3600 == 0);
    assert(s == (k * 1440) * 60);
    assert(s % 60 == 0);
}

/// A time zone, by its name in the time zone database.
pub struct Zone {
    name: String,
}

impl View for Zone {
    type V = Seq<char>;

    /// The name of the zone.
    closed spec fn view(&self) -> Seq<char> {
        self.name@
    }
}

impl Zone {
    #[verifier::type_invariant]
    spec fn inv(self) -> bool {
        zone_known(self.name@)
    }

    /// The zone that a setting names; UTC where there is none or its name is not known.
    pub fn from_setting(setting: Option<&str>) -> (r: Zone)
        ensures
            zone_known(r@),
            r@ == (match setting {
                Some(name) => if zone_known(name@) {
                    name@
                } else {
                    "UTC"@
                },
                None => "UTC"@,
            }),
    {
        if let Some(name) = setting {
            if is_zone(name) {
                return Zone { name: name.to_owned() };
            }
        }
        let utc: &str = "UTC";
        let known: bool = is_zone(utc);
        assert(known);
        Zone { name: utc.to_owned() }
    }

    /// What the zone's clocks show at a point in time.
    pub fn read(&self, t: UtcTime) -> (r: Option<LocalTime>)
        ensures
            r == local_reading(t, zone_offset(self@, t.secs as int)),
    {
        proof {
            use_type_invariant(self);
        }
        zone_reading(t, self.name.as_str())
    }

    /// The point in time at which a day starts in the zone, unless its clocks skip that
    /// midnight or show it twice.
    pub fn midnight(&self, day: i32) -> (r: Option<UtcTime>)
        requires
            in_calendar(day as int),
        ensures
            r == (match zone_midnight(self@, day) {
                Some(secs) => Some(UtcTime { secs, nanos: 0 }),
                None => None,
            }),
            r matches Some(t) ==> local_reading(t, zone_offset(self@, t.secs as int)) == Some(
                (LocalTime { day, hour: 0, minute: 0, second: 0 }),
            ),
    {
        proof {
            use_type_invariant(self);
        }
        match midnight_in(self.name.as_str(), day) {
            Some(secs) => {
                proof {
                    lemma_clock_at_midnight(day);
                }
                Some(UtcTime { secs, nanos: 0 })
            },
            None => None,
        }
    }
}

/// The day of the week, with Monday as 0.
pub fn weekday_of(day: i32) -> (r: i32)
    ensures
        r == weekday(day as int),
        0 <= r < 7,
{
    proof {
        vstd::arithmetic::div_mod::lemma_mod_multiples_vanish(400_000_000, day - 1, 7);
    }
    ((day as i64 - 1 + 2_800_000_000) % 7) as i32
}

/// What a clock shows is a time of day on a day of the calendar.
pub(crate) proof fn lemma_reading_wf(t: UtcTime, offset: int)
    ensures
        local_reading(t, offset) matches Some(local) ==> local.wf(),
{
}

impl LocalTime {
    /// The time of day as the label of an event starts: hours, minutes and a space.
    pub fn label_prefix(&self) -> (r: String)
        requires
            self.wf(),
        ensures
            r@ == hour_minute(self.hour as int, self.minute as int) + seq![' '],
    {
        strftime(date_of(self.day), self.hour, self.minute, self.second, "%H:%M ")
    }

    /// The time of day to the second.
    pub fn time_of_day(&self) -> (r: String)
        requires
            self.wf(),
        ensures
            r@ == hour_minute_second(self.hour as int, self.minute as int, self.second as int),
    {
        strftime(date_of(self.day), self.hour, self.minute, self.second, "%H:%M:%S")
    }
}

proof fn lemma_days_before_month(y: int, m: int)
    requires
        1 <= m <= 12,
    ensures
        0 <= days_before_month(y, m),
        m < 12 ==> days_before_month(y, m + 1) == days_before_month(y, m) + days_in_month(y, m),
        days_before_month(y, m) + days_in_month(y, m) <= (if leap_year(y) {
            366int
        } else {
            365int
        }),
        m == 12 ==> days_before_month(y, m) + days_in_month(y, m) == (if leap_year(y) {
            366int
        } else {
            365int
        }),
{
    reveal_with_fuel(days_before_month, 13);
}

proof fn lemma_month_order(y: int, m1: int, m2: int)
    requires
        1 <= m1 < m2 <= 12,
    ensures
        days_before_month(y, m1) + days_in_month(y, m1) <= days_before_month(y, m2),
    decreases m2,
{
    lemma_days_before_month(y, m2 - 1);
    if m1 < m2 - 1 {
        lemma_month_order(y, m1, m2 - 1);
    }
}

/// A quotient grows by one where the divisor divides.
proof fn lemma_quotient_step(y: int, d: int)
    requires
        d > 0,
    ensures
        y / d == (y - 1) / d + (if y % d == 0 {
            1int
        } else {
            0int
        }),
{
    let q = y / d;
    let r = y % d;
    vstd::arithmetic::div_mod::lemma_fundamental_div_mod(y, d);
    if r == 0 {
        assert((q - 1) * d + (d - 1) == y - 1) by (nonlinear_arith)
            requires
                y == d * q + r,
                r == 0,
        ;
        vstd::arithmetic::div_mod::lemma_fundamental_div_mod_converse(y - 1, d, q - 1, d - 1);
    } else {
        assert(q * d + (r - 1) == y - 1) by (nonlinear_arith)
            requires
                y == d * q + r,
        ;
        vstd::arithmetic::div_mod::lemma_fundamental_div_mod_converse(y - 1, d, q, r - 1);
    }
}

proof fn lemma_next_year(y: int)
    ensures
        days_before_year(y + 1) == days_before_year(y) + (if leap_year(y) {
            366int
        } else {
            365int
        }),
{
    let (q4, q100, q400) = ((y - 1) / 4, (y - 1) / 100, (y - 1) / 400);
    lemma_quotient_step(y, 4);
    lemma_quotient_step(y, 100);
    lemma_quotient_step(y, 400);
    lemma_divides(y, 100, 4);
    lemma_divides(y, 4, 25);
    assert(days_before_year(y) == 365 * (y - 1) + q4 - q100 + q400);
    assert(days_before_year(y + 1) == 365 * y + y / 4 - y / 100 + y / 400);
}

/// What a product divides, its factors divide.
proof fn lemma_divides(y: int, d: int, k: int)
    requires
        d > 0,
        k > 0,
    ensures
        y % (d * k) == 0 ==> y % d == 0,
{
    let n = d * k;
    assert(n > 0) by (nonlinear_arith)
        requires
            d > 0,
            k > 0,
            n == d * k,
    ;
    if y % n == 0 {
        vstd::arithmetic::div_mod::lemma_fundamental_div_mod(y, n);
        let q = y / n;
        assert(y == (q * k) * d) by (nonlinear_arith)
            requires
                y == n * q,
                n == d * k,
        ;
        vstd::arithmetic::div_mod::lemma_mod_multiples_basic(q * k, d);
    }
}

proof fn lemma_year_order(y1: int, y2: int)
    requires
        y1 < y2,
    ensures
        days_before_year(y1) + (if leap_year(y1) {
            366int
        } else {
            365int
        }) <= days_before_year(y2),
    decreases y2 - y1,
{
    lemma_next_year(y2 - 1);
    if y1 < y2 - 1 {
        lemma_year_order(y1, y2 - 1);
    }
}

proof fn lemma_date_order(y1: int, m1: int, d1: int, y2: int, m2: int, d2: int)
    requires
        valid_date(y1, m1, d1),
        valid_date(y2, m2, d2),
        y1 < y2 || (y1 == y2 && (m1 < m2 || (m1 == m2 && d1 < d2))),
    ensures
        day_number(y1, m1, d1) < day_number(y2, m2, d2),
{
    lemma_days_before_month(y1, m1);
    lemma_days_before_month(y2, m2);
    if y1 < y2 {
        lemma_year_order(y1, y2);
    } else if m1 < m2 {
        lemma_month_order(y1, m1, m2);
    }
}

/// A day has one date: two dates with the same number are the same.
pub proof fn law_one_date_per_day(y1: int, m1: int, d1: int, y2: int, m2: int, d2: int)
    requires
        valid_date(y1, m1, d1),
        valid_date(y2, m2, d2),
        day_number(y1, m1, d1) == day_number(y2, m2, d2),
    ensures
        y1 == y2,
        m1 == m2,
        d1 == d2,
{
    if y1 < y2 || (y1 == y2 && (m1 < m2 || (m1 == m2 && d1 < d2))) {
        lemma_date_order(y1, m1, d1, y2, m2, d2);
    } else if y1 != y2 || m1 != m2 || d1 != d2 {
        lemma_date_order(y2, m2, d2, y1, m1, d1);
    }
}

/// The date of a day is the one that has its number.
pub(crate) proof fn lemma_date_on(y: int, m: int, d: int)
    requires
        valid_date(y, m, d),
    ensures
        date_on(day_number(y, m, d)) == (y, m, d),
{
    let day = day_number(y, m, d);
    let (y2, m2, d2) = date_on(day);
    assert(valid_date(y2, m2, d2) && day_number(y2, m2, d2) == day);
    law_one_date_per_day(y, m, d, y2, m2, d2);
}

/// The first day of the month of a day.
pub open spec fn month_first(day: int) -> int {
    day - date_on(day).2 + 1
}

/// The number of days in the month of a day.
pub open spec fn month_days(day: int) -> int {
    days_in_month(date_on(day).0, date_on(day).1)
}

/// The calendar reaches the first day of the month after that of a day.
pub open spec fn month_fits(day: int) -> bool {
    in_calendar(day) && in_calendar(month_first(day) + month_days(day))
}

/// A date in the calendar lies in one of its years, and so does the start of its month.
proof fn lemma_calendar_years(y: int, m: int, d: int)
    requires
        valid_date(y, m, d),
        in_calendar(day_number(y, m, d)),
    ensures
        -262143 <= y <= 262142,
        in_calendar(day_number(y, m, 1)),
{
    assert(day_number(-262143, 1, 1) == MIN_DAY);
    assert(day_number(262142, 12, 31) == MAX_DAY) by {
        reveal_with_fuel(days_before_month, 13);
    }
    if y < -262143 {
        lemma_date_order(y, m, d, -262143, 1, 1);
    }
    if y > 262142 {
        lemma_date_order(262142, 12, 31, y, m, d);
    }
    if day_number(y, m, 1) < MIN_DAY {
        if y > -262143 || m > 1 {
            lemma_date_order(-262143, 1, 1, y, m, 1);
        }
    }
}

/// The month after a month starts after its last day.
proof fn lemma_next_month(y: int, m: int)
    requires
        1 <= m <= 12,
    ensures
        m < 12 ==> day_number(y, m + 1, 1) == day_number(y, m, 1) + days_in_month(y, m),
        m == 12 ==> day_number(y + 1, 1, 1) == day_number(y, m, 1) + days_in_month(y, m),
{
    lemma_days_before_month(y, m);
    lemma_next_year(y);
}

/// The first day of the month of a day, and that of the month after it. There is none where
/// the calendar does not reach so far.
pub fn month_around(day: i32) -> (r: Option<(i32, i32)>)
    requires
        in_calendar(day as int),
    ensures
        r is Some <==> month_fits(day as int),
        r matches Some((first, next)) ==> first == month_first(day as int) && next == month_first(
            day as int,
        ) + month_days(day as int),
        in_calendar(month_first(day as int)),
        28 <= month_days(day as int) <= 31,
{
    let (y, m, d) = date_of(day);
    proof {
        lemma_date_on(y as int, m as int, d as int);
        lemma_calendar_years(y as int, m as int, d as int);
        lemma_next_month(y as int, m as int);
    }
    let first: i32 = match day_of_date(y, m, 1) {
        Some(first) => first,
        None => {
            return None;
        },
    };
    let next: Option<i32> = if m == 12 {
        day_of_date(y + 1, 1, 1)
    } else {
        day_of_date(y, m + 1, 1)
    };
    match next {
        Some(next) => Some((first, next)),
        None => None,
    }
}

/// Every day has a date, and `date_on` finds it.
pub proof fn law_every_day_has_a_date(day: int)
    ensures
        valid_date(date_on(day).0, date_on(day).1, date_on(day).2),
        day_number(date_on(day).0, date_on(day).1, date_on(day).2) == day,
    decreases
            if day < 1 {
                1 - day
            } else {
                day - 1
            },
{
    if day == 1 {
        assert(day_number(1, 1, 1) == 1);
        lemma_date_on(1, 1, 1);
    } else if day > 1 {
        law_every_day_has_a_date(day - 1);
        let (y, m, d) = date_on(day - 1);
        lemma_next_month(y, m);
        if d < days_in_month(y, m) {
            lemma_date_on(y, m, d + 1);
        } else if m < 12 {
            lemma_date_on(y, m + 1, 1);
        } else {
            lemma_date_on(y + 1, 1, 1);
        }
    } else {
        law_every_day_has_a_date(day + 1);
        let (y, m, d) = date_on(day + 1);
        if d > 1 {
            lemma_date_on(y, m, d - 1);
        } else if m > 1 {
            lemma_next_month(y, m - 1);
            lemma_date_on(y, m - 1, days_in_month(y, m - 1));
        } else {
            lemma_next_month(y - 1, 12);
            lemma_date_on(y - 1, 12, 31);
        }
    }
}

/// The days of a month follow each other: the day `i` days after the first one is its day
/// number `i + 1`. A day lies in its month.
pub proof fn law_month_days_in_order(day: int, i: int)
    requires
        0 <= i < month_days(day),
    ensures
        date_on(month_first(day) + i) == (date_on(day).0, date_on(day).1, i + 1),
        month_first(day) <= day < month_first(day) + month_days(day),
{
    law_every_day_has_a_date(day);
    let (y, m, d) = date_on(day);
    assert(day_number(y, m, i + 1) == month_first(day) + i);
    lemma_date_on(y, m, i + 1);
}

impl UtcTime {
    /// The day in UTC.
    pub fn utc_day(&self) -> (r: Option<i32>)
        ensures
            r is Some <==> in_calendar(day_of(self.secs as int)),
            r matches Some(day) ==> day == day_of(self.secs as int),
    {
        let limit: i64 = 200_000_000 * SECS_PER_DAY;
        if self.secs < -limit || self.secs > limit {
            return None;
        }
        proof {
            vstd::arithmetic::div_mod::lemma_hoist_over_denominator(
                self.secs as int,
                200_000_000,
                86400,
            );
        }
        let day: i64 = (self.secs + limit) / SECS_PER_DAY - 200_000_000 + EPOCH_DAY as i64;
        if day < MIN_DAY as i64 || day > MAX_DAY as i64 {
            None
        } else {
            Some(day as i32)
        }
    }
}

/// The first second of a day, in UTC.
pub fn day_start(day: i32) -> (r: UtcTime)
    requires
        in_calendar(day as int),
    ensures
        r == (UtcTime { secs: start_of(day as int) as i64, nanos: 0 }),
        r.secs == start_of(day as int),
{
    UtcTime { secs: (day as i64 - EPOCH_DAY as i64) * SECS_PER_DAY, nanos: 0 }
}

/// The name of the month of a day, and its year.
pub open spec fn month_and_year(day: int) -> Seq<char> {
    month_name(date_on(day).1) + " "@ + year_text(date_on(day).0)
}

/// The name of the month of a day, and its year.
pub fn month_title(day: i32) -> (r: String)
    requires
        in_calendar(day as int),
    ensures
        r@ == month_and_year(day as int),
{
    let date: (i32, u32, u32) = date_of(day);
    proof {
        lemma_date_on(date.0 as int, date.1 as int, date.2 as int);
    }
    strftime(date, 0, 0, 0, "%B %Y")
}

impl LocalTime {
    /// The weekday, the date and the time of day, written out.
    pub open spec fn written_out(&self) -> Seq<char> {
        let (y, m, d) = date_on(self.day as int);
        long_date_time(y, m, d, self.hour as int, self.minute as int)
    }

    /// The weekday, the date and the time of day, written out.
    pub fn long_text(&self) -> (r: String)
        requires
            self.wf(),
        ensures
            r@ == self.written_out(),
    {
        let date: (i32, u32, u32) = date_of(self.day);
        proof {
            lemma_date_on(date.0 as int, date.1 as int, date.2 as int);
        }
        strftime(date, self.hour, self.minute, self.second, "%A, %B %-d  ·  %H:%M")
    }
}

/// A day has 86400 seconds, and January 1, 1970, which is day 719163, starts at second zero.
pub proof fn law_days_and_seconds(day: int, within: int)
    requires
        0 <= within < 86400,
    ensures
        start_of(719163) == 0,
        start_of(day + 1) == start_of(day) + 86400,
        day_of(start_of(day) + within) == day,
{
    assert((day - 719163) * 86400 + within == start_of(day) + within);
}

/// What a clock shows, taken together, is the second that it was read at; no other reading is.
pub proof fn law_clock_adds_up(secs: int)
    requires
        -95746129 <= secs / 86400 + 719163 <= 95745399,
    ensures
        ({
            let at = clock_at(secs);
            &&& (at.day - 719163) * 86400 + at.hour * 3600 + at.minute * 60 + at.second == secs
            &&& at.hour < 24
            &&& at.minute < 60
            &&& at.second < 60
        }),
{
    let rest = secs % 86400;
    let hour = rest / 3600;
    assert(secs == secs / 86400 * 86400 + rest);
    assert(secs % 3600 == rest % 3600) by {
        assert(secs == (secs / 86400 * 24) * 3600 + rest);
        vstd::arithmetic::div_mod::lemma_mod_multiples_vanish(secs / 86400 * 24, rest, 3600);
    }
    assert(secs % 60 == rest % 60) by {
        assert(secs == (secs / 86400 * 1440) * 60 + rest);
        vstd::arithmetic::div_mod::lemma_mod_multiples_vanish(secs / 86400 * 1440, rest, 60);
    }
    assert(rest == hour * 3600 + rest % 3600);
    assert(rest % 3600 % 60 == rest % 60) by {
        assert(rest == (hour * 60) * 60 + rest % 3600);
        vstd::arithmetic::div_mod::lemma_mod_multiples_vanish(hour * 60, rest % 3600, 60);
    }
}

/// A clock that is `offset` seconds ahead of UTC shows the second that is that much later. It
/// can be read if and only if both seconds lie in the calendar, and a leap second only at the
/// end of a minute.
pub proof fn law_local_clock_is_ahead(t: UtcTime, offset: int)
    ensures
        local_reading(t, offset) is Some <==> {
            &&& -95746129 <= t.secs as int / 86400 + 719163 <= 95745399
            &&& -95746129 <= (t.secs + offset) / 86400 + 719163 <= 95745399
            &&& t.nanos < 1_000_000_000 || (t.nanos < 2_000_000_000 && t.secs as int % 60 == 59)
        },
        local_reading(t, offset) matches Some(at) ==> {
            &&& (at.day - 719163) * 86400 + at.hour * 3600 + at.minute * 60 + at.second == t.secs
                + offset
            &&& at.hour < 24
            &&& at.minute < 60
            &&& at.second < 60
        },
{
    if local_reading(t, offset) is Some {
        law_clock_adds_up(t.secs + offset);
    }
}

/// The days of the week follow each other, from a Monday on.
pub proof fn law_weekdays_follow(day: int)
    ensures
        weekday(1) == 0,
        0 <= weekday(day) < 7,
        weekday(day + 1) == if weekday(day) == 6 {
            0
        } else {
            weekday(day) + 1
        },
{
}

/// The days follow each other from January 1 of the year 1, which is day 1: through the month,
/// to the next month and to the next year. February has 29 days in every fourth year, but for
/// full centuries, but for every fourth of those.
pub proof fn law_dates_follow(y: int, m: int, d: int)
    requires
        1 <= m <= 12,
    ensures
        day_number(1, 1, 1) == 1,
        day_number(y, m, d + 1) == day_number(y, m, d) + 1,
        m == 4 || m == 6 || m == 9 || m == 11 ==> day_number(y, m + 1, 1) == day_number(y, m, 30)
            + 1,
        m == 1 || m == 3 || m == 5 || m == 7 || m == 8 || m == 10 ==> day_number(y, m + 1, 1)
            == day_number(y, m, 31) + 1,
        m == 2 && y % 4 == 0 && (y % 100 != 0 || y % 400 == 0) ==> day_number(y, 3, 1)
            == day_number(y, 2, 29) + 1,
        m == 2 && !(y % 4 == 0 && (y % 100 != 0 || y % 400 == 0)) ==> day_number(y, 3, 1)
            == day_number(y, 2, 28) + 1,
        m == 12 ==> day_number(y + 1, 1, 1) == day_number(y, 12, 31) + 1,
        valid_date(y, m, d) <==> 1 <= d && day_number(y, m, d) < if m < 12 {
            day_number(y, m + 1, 1)
        } else {
            day_number(y + 1, 1, 1)
        },
{
    lemma_next_month(y, m);
}

/// A day's month starts with a day that is its first, and the day after its last one is the
/// first of the next month.
pub proof fn law_month_ends(day: int)
    ensures
        date_on(month_first(day)) == (date_on(day).0, date_on(day).1, 1int),
        date_on(day).1 < 12 ==> date_on(month_first(day) + month_days(day)) == (
            date_on(day).0,
            date_on(day).1 + 1,
            1int,
        ),
        date_on(day).1 == 12 ==> date_on(month_first(day) + month_days(day)) == (
            date_on(day).0 + 1,
            1int,
            1int,
        ),
        month_first(day) <= day < month_first(day) + month_days(day),
        month_fits(day) <==> -95746129 <= day && month_first(day) + month_days(day) <= 95745399,
{
    law_every_day_has_a_date(day);
    let (y, m, d) = date_on(day);
    lemma_next_month(y, m);
    lemma_date_on(y, m, 1);
    if m < 12 {
        lemma_date_on(y, m + 1, 1);
    } else {
        lemma_date_on(y + 1, 1, 1);
    }
}

/// A time of day is written as two digits for the hour, a colon and two for the minute, and as
/// a colon and two digits more for the second. It can be read back from them.
pub proof fn law_time_of_day_reads_back(hour: int, minute: int, second: int)
    requires
        0 <= hour < 24,
        0 <= minute < 60,
        0 <= second < 60,
    ensures
        ({
            let t = hour_minute_second(hour, minute, second);
            &&& t.len() == 8
            &&& t[2] == ':' && t[5] == ':'
            &&& forall|i: int|
                0 <= i < 8 && i != 2 && i != 5 ==> '0' <= #[trigger] t[i] <= '9'
            &&& 10 * (t[0] as int - '0' as int) + (t[1] as int - '0' as int) == hour
            &&& 10 * (t[3] as int - '0' as int) + (t[4] as int - '0' as int) == minute
            &&& 10 * (t[6] as int - '0' as int) + (t[7] as int - '0' as int) == second
            &&& hour_minute(hour, minute) == t.take(5)
        }),
{
    let t = hour_minute_second(hour, minute, second);
    assert(t.take(5) =~= hour_minute(hour, minute));
}

/// The title of a month is the name of the month of the day and its year; the date that is
/// written out is that of the day, with the hour and the minute of the clock.
pub proof fn law_titles_are_of_the_day(at: LocalTime, y: int, m: int, d: int)
    requires
        valid_date(y, m, d),
        day_number(y, m, d) == at.day,
    ensures
        month_and_year(at.day as int) == month_name(m) + " "@ + year_text(y),
        at.written_out() == weekday_name(weekday(at.day as int)) + ", "@ + month_name(m) + " "@
            + decimal(d as nat) + "  ·  "@ + hour_minute(at.hour as int, at.minute as int),
{
    lemma_date_on(y, m, d);
}

/// The calendar runs from day -95746129 to day 95745399. A point in time is in it if its day in
/// UTC is, and only the last second of a minute can be a leap second. A clock shows a day of the
/// calendar, 24 hours, 60 minutes and 60 seconds.
pub proof fn law_calendar_range(day: int, t: UtcTime, at: LocalTime)
    ensures
        in_calendar(day) <==> -95746129 <= day <= 95745399,
        t.representable() <==> -95746129 <= t.secs as int / 86400 + 719163 <= 95745399 && (t.nanos
            < 1_000_000_000 || (t.nanos < 2_000_000_000 && t.secs as int % 60 == 59)),
        at.wf() <==> -95746129 <= at.day <= 95745399 && at.hour < 24 && at.minute < 60 && at.second
            < 60,
{
}

} // verus!
