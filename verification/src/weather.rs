//! The weather: what a forecast says, and what is taken from it for the display.

use vstd::prelude::*;
use vstd::string::*;

verus! {

/// The hours ahead that are shown.
pub const HOURS_AHEAD: usize = 8;

/// The weather of a WMO code, in words and as a sign.
pub open spec fn condition_of(code: int) -> (Seq<char>, Seq<char>) {
    if code == 0 {
        ("Clear"@, "☀"@)
    } else if 1 <= code <= 3 {
        ("Partly Cloudy"@, "⛅"@)
    } else if code == 45 || code == 48 {
        ("Fog"@, "🌫"@)
    } else if 51 <= code <= 55 {
        ("Drizzle"@, "🌦"@)
    } else if 61 <= code <= 65 {
        ("Rain"@, "🌧"@)
    } else if 71 <= code <= 75 {
        ("Snow"@, "❄"@)
    } else if 80 <= code <= 82 {
        ("Showers"@, "🌦"@)
    } else if code == 95 {
        ("Thunderstorm"@, "⛈"@)
    } else {
        ("Unknown"@, "?"@)
    }
}

/// The weather of a WMO code, in words and as a sign.
pub fn wmo_to_condition(code: u8) -> (r: (&'static str, &'static str))
    ensures
        (r.0@, r.1@) == condition_of(code as int),
{
    match code {
        0 => ("Clear", "☀"),
        1..=3 => ("Partly Cloudy", "⛅"),
        45 | 48 => ("Fog", "🌫"),
        51..=55 => ("Drizzle", "🌦"),
        61..=65 => ("Rain", "🌧"),
        71..=75 => ("Snow", "❄"),
        80..=82 => ("Showers", "🌦"),
        95 => ("Thunderstorm", "⛈"),
        _ => ("Unknown", "?"),
    }
}

/// One hour of a forecast: where it stands in the forecast, the hour of the day, and the
/// chance of rain in percent.
#[derive(Clone, Copy, Debug)]
pub struct HourlySlot {
    pub index: usize,
    pub hour: u8,
    pub precip_chance: u8,
}

/// The number of hours for which a forecast has a time, a temperature and a chance of rain.
pub open spec fn hours_known(times: int, temperatures: int, chances: int) -> int {
    let n = if times < temperatures {
        times
    } else {
        temperatures
    };
    if n < chances {
        n
    } else {
        chances
    }
}

/// How many of the hours from `now_hour` on are shown.
pub open spec fn hours_shown(known: int, now_hour: int) -> int {
    if known <= now_hour {
        0
    } else if known - now_hour < HOURS_AHEAD {
        known - now_hour
    } else {
        HOURS_AHEAD as int
    }
}

/// The hours that are shown: from `now_hour` on, as far as they are known.
pub open spec fn slots_from(known: int, chances: Seq<u8>, now_hour: int) -> Seq<HourlySlot> {
    Seq::new(
        hours_shown(known, now_hour) as nat,
        |k: int|
            HourlySlot {
                index: (now_hour + k) as usize,
                hour: ((now_hour + k) % 24) as u8,
                precip_chance: chances[now_hour + k],
            },
    )
}

/// The hours that are shown, from the lengths of the three rows of a forecast, the chances of
/// rain and the hour of the day.
pub fn hourly_slots(times: usize, temperatures: usize, chances: &Vec<u8>, now_hour: u32) -> (r: Vec<
    HourlySlot,
>)
    requires
        now_hour < 24,
    ensures
        r@ == slots_from(
            hours_known(times as int, temperatures as int, chances@.len() as int),
            chances@,
            now_hour as int,
        ),
{
    let mut known: usize = chances.len();
    if times < known {
        known = times;
    }
    if temperatures < known {
        known = temperatures;
    }
    let first: usize = now_hour as usize;
    let mut out: Vec<HourlySlot> = Vec::new();
    let mut i: usize = first;
    let ghost all = slots_from(known as int, chances@, now_hour as int);
    while i < known && i < first + HOURS_AHEAD
        invariant
            first == now_hour < 24,
            known <= chances@.len(),
            all == slots_from(known as int, chances@, now_hour as int),
            first <= i <= first + HOURS_AHEAD,
            known <= first ==> i == first,
            first <= known ==> i <= known,
            out@ == all.take(i - first),
        decreases first + HOURS_AHEAD - i,
    {
        let slot = HourlySlot {
            index: i,
            hour: (i % 24) as u8,
            precip_chance: chances[i],
        };
        assert(all[i - first] == slot);
        out.push(slot);
        assert(all.take(i + 1 - first) =~= all.take(i - first).push(slot));
        i += 1;
    }
    assert(all.take(i - first) =~= all);
    out
}

/// The sum of the chances of rain.
pub open spec fn chance_sum(slots: Seq<HourlySlot>) -> int
    decreases slots.len(),
{
    if slots.len() == 0 {
        0
    } else {
        chance_sum(slots.drop_last()) + slots.last().precip_chance
    }
}

/// The mean chance of rain, rounded down; nothing where no hour is shown.
pub open spec fn mean_chance(slots: Seq<HourlySlot>) -> int {
    if slots.len() == 0 {
        0
    } else {
        chance_sum(slots) / slots.len() as int
    }
}

proof fn lemma_chance_sum(slots: Seq<HourlySlot>, low: int, high: int)
    requires
        forall|i: int| 0 <= i < slots.len() ==> low <= #[trigger] slots[i].precip_chance <= high,
    ensures
        low * slots.len() <= chance_sum(slots) <= high * slots.len(),
    decreases slots.len(),
{
    if slots.len() > 0 {
        let front = slots.drop_last();
        assert forall|i: int| 0 <= i < front.len() implies low <= #[trigger] front[i].precip_chance
            <= high by {
            assert(front[i] == slots[i]);
        }
        lemma_chance_sum(front, low, high);
        assert(slots[slots.len() - 1].precip_chance <= high);
        let n = front.len() as int;
        assert(slots.len() == n + 1);
        assert(low * (n + 1) == low * n + low) by (nonlinear_arith);
        assert(high * (n + 1) == high * n + high) by (nonlinear_arith);
    } else {
        assert(low * slots.len() == 0 && high * slots.len() == 0) by (nonlinear_arith)
            requires
                slots.len() == 0,
        ;
    }
}

/// The mean chance of rain, rounded down.
pub fn mean_precip_chance(slots: &Vec<HourlySlot>) -> (r: u8)
    requires
        slots@.len() <= 257,
    ensures
        r == mean_chance(slots@),
{
    let n: usize = slots.len();
    if n == 0 {
        return 0;
    }
    let mut sum: u16 = 0;
    let mut i: usize = 0;
    while i < n
        invariant
            n == slots@.len(),
            n <= 257,
            i <= n,
            sum == chance_sum(slots@.take(i as int)),
            sum <= 255 * i,
        decreases n - i,
    {
        assert(slots@.take(i + 1).drop_last() =~= slots@.take(i as int));
        sum = sum + slots[i].precip_chance as u16;
        i += 1;
    }
    assert(slots@.take(n as int) =~= slots@);
    proof {
        law_mean_lies_between(slots@, 0, 255);
    }
    (sum / n as u16) as u8
}

/// The mean lies between the least and the greatest of the chances.
pub proof fn law_mean_lies_between(slots: Seq<HourlySlot>, low: int, high: int)
    requires
        slots.len() > 0,
        forall|i: int| 0 <= i < slots.len() ==> low <= #[trigger] slots[i].precip_chance <= high,
    ensures
        low <= mean_chance(slots) <= high,
{
    lemma_chance_sum(slots, low, high);
    let n = slots.len() as int;
    let sum = chance_sum(slots);
    assert(low <= sum / n <= high) by (nonlinear_arith)
        requires
            n > 0,
            low * n <= sum <= high * n,
    ;
}

/// At most eight hours are shown. They follow each other from the present one on, each with
/// the chance of rain that the forecast gives for it.
pub proof fn law_next_hours(known: int, chances: Seq<u8>, now_hour: int, k: int)
    requires
        0 <= now_hour < 24,
        known <= chances.len(),
        known <= usize::MAX,
        0 <= k < slots_from(known, chances, now_hour).len(),
    ensures
        slots_from(known, chances, now_hour).len() <= HOURS_AHEAD,
        slots_from(known, chances, now_hour)[k].index == now_hour + k,
        slots_from(known, chances, now_hour)[k].hour == (now_hour + k) % 24,
        now_hour + k < known,
        slots_from(known, chances, now_hour)[k].precip_chance == chances[now_hour + k],
{
}

/// What a forecast says, but for the measurements with fractions.
pub struct Forecast {
    pub condition: String,
    pub condition_icon: String,
    pub humidity: u8,
    pub precip_chance: u8,
    pub hourly: Vec<HourlySlot>,
}

/// Reads a forecast: the code of the present weather, the humidity, and of the rows by the
/// hour their lengths and the chances of rain.
pub fn read_forecast(
    code: u8,
    humidity: u8,
    times: usize,
    temperatures: usize,
    chances: &Vec<u8>,
    now_hour: u32,
) -> (r: Forecast)
    requires
        now_hour < 24,
    ensures
        (r.condition@, r.condition_icon@) == condition_of(code as int),
        r.humidity == humidity,
        r.hourly@ == slots_from(
            hours_known(times as int, temperatures as int, chances@.len() as int),
            chances@,
            now_hour as int,
        ),
        r.precip_chance == mean_chance(r.hourly@),
{
    let (condition, icon) = wmo_to_condition(code);
    let hourly: Vec<HourlySlot> = hourly_slots(times, temperatures, chances, now_hour);
    let precip_chance: u8 = mean_precip_chance(&hourly);
    Forecast {
        condition: condition.to_owned(),
        condition_icon: icon.to_owned(),
        humidity,
        precip_chance,
        hourly,
    }
}

/// What is asked of the weather service for a place.
pub open spec fn forecast_query(latitude: Seq<char>, longitude: Seq<char>) -> Seq<
    (Seq<char>, Seq<char>),
> {
    seq![
        ("latitude"@, latitude),
        ("longitude"@, longitude),
        (
            "current"@,
            "temperature_2m,apparent_temperature,relative_humidity_2m,wind_speed_10m,weather_code"@,
        ),
        ("hourly"@, "temperature_2m,precipitation_probability"@),
        ("forecast_days"@, "1"@),
        ("wind_speed_unit"@, "kmh"@),
    ]
}

/// What is asked of the weather service for a place, its latitude and longitude in decimal.
pub fn weather_query(latitude: String, longitude: String) -> (r: Vec<(String, String)>)
    ensures
        crate::calendar::query_view(r@) == forecast_query(latitude@, longitude@),
{
    let mut query: Vec<(String, String)> = Vec::new();
    query.push(("latitude".to_owned(), latitude));
    query.push(("longitude".to_owned(), longitude));
    query.push(
        (
            "current".to_owned(),
            "temperature_2m,apparent_temperature,relative_humidity_2m,wind_speed_10m,weather_code".to_owned(),
        ),
    );
    query.push(("hourly".to_owned(), "temperature_2m,precipitation_probability".to_owned()));
    query.push(("forecast_days".to_owned(), "1".to_owned()));
    query.push(("wind_speed_unit".to_owned(), "kmh".to_owned()));
    assert(crate::calendar::query_view(query@) =~= forecast_query(latitude@, longitude@));
    query
}

/// One bar of the chart: the temperature of the hour as it is written, and how far the bar
/// rises above the lowest one.
pub struct WeatherBar {
    pub temperature: String,
    pub rise: u32,
}

/// The weather as it is shown: a forecast, its measurements as they are written, and a bar
/// for each hour.
pub struct Weather {
    pub forecast: Forecast,
    pub temperature: String,
    pub feels_like: String,
    pub wind: String,
    pub bars: Vec<WeatherBar>,
}

/// The highest bar rises this far above the lowest one.
pub const BAR_RISE: u32 = 60;

impl Weather {
    /// There is a bar for each hour, and none rises too far.
    pub open spec fn wf(&self) -> bool {
        &&& self.bars@.len() == self.forecast.hourly@.len()
        &&& forall|i: int| 0 <= i < self.bars@.len() ==> #[trigger] self.bars@[i].rise <= BAR_RISE
    }
}

/// Which codes are which weather.
pub proof fn law_conditions(code: int)
    ensures
        code == 0 ==> condition_of(code) == ("Clear"@, "☀"@),
        code == 1 || code == 2 || code == 3 ==> condition_of(code) == ("Partly Cloudy"@, "⛅"@),
        code == 45 || code == 48 ==> condition_of(code) == ("Fog"@, "🌫"@),
        51 <= code && code <= 55 ==> condition_of(code) == ("Drizzle"@, "🌦"@),
        61 <= code && code <= 65 ==> condition_of(code) == ("Rain"@, "🌧"@),
        71 <= code && code <= 75 ==> condition_of(code) == ("Snow"@, "❄"@),
        code == 80 || code == 81 || code == 82 ==> condition_of(code) == ("Showers"@, "🌦"@),
        code == 95 ==> condition_of(code) == ("Thunderstorm"@, "⛈"@),
        code < 0 || (3 < code < 45) || code == 46 || code == 47 || code == 49 || code == 50 || (55
            < code < 61) || (65 < code < 71) || (75 < code < 80) || (82 < code < 95) || 95 < code
            ==> condition_of(code) == ("Unknown"@, "?"@),
{
}

/// An hour is known if and only if all three rows reach it, and the hours that are shown are
/// those from the present one on that are known, up to eight.
pub proof fn law_hours_shown(times: int, temperatures: int, chances: Seq<u8>, now_hour: int, i: int)
    requires
        0 <= now_hour,
    ensures
        ({
            let known = hours_known(times, temperatures, chances.len() as int);
            let shown = slots_from(known, chances, now_hour).len();
            &&& i < known <==> i < times && i < temperatures && i < chances.len()
            &&& 0 <= i < shown <==> 0 <= i < 8 && now_hour + i < known
        }),
{
}

/// One hour more adds its chance to the sum, and the mean is the whole part of the sum's share
/// for each hour.
pub proof fn law_mean_of_chances(slots: Seq<HourlySlot>, slot: HourlySlot)
    ensures
        chance_sum(Seq::<HourlySlot>::empty()) == 0,
        chance_sum(slots.push(slot)) == chance_sum(slots) + slot.precip_chance,
        mean_chance(Seq::<HourlySlot>::empty()) == 0,
        slots.len() > 0 ==> mean_chance(slots) * slots.len() <= chance_sum(slots) < (mean_chance(
            slots,
        ) + 1) * slots.len(),
{
    assert(slots.push(slot).drop_last() =~= slots);
    if slots.len() > 0 {
        let n = slots.len() as int;
        let sum = chance_sum(slots);
        vstd::arithmetic::div_mod::lemma_fundamental_div_mod(sum, n);
        let q = sum / n;
        assert(q * n <= sum < (q + 1) * n) by (nonlinear_arith)
            requires
                sum == n * q + sum % n,
                0 <= sum % n < n,
        ;
    }
}

/// The service is asked for the place, and for what is shown of the weather there.
pub proof fn law_forecast_is_asked_for(latitude: Seq<char>, longitude: Seq<char>)
    ensures
        ({
            let q = forecast_query(latitude, longitude);
            &&& q.len() == 6
            &&& q[0] == ("latitude"@, latitude)
            &&& q[1] == ("longitude"@, longitude)
            &&& q[2] == (
                "current"@,
                "temperature_2m,apparent_temperature,relative_humidity_2m,wind_speed_10m,weather_code"@,
            )
            &&& q[3] == ("hourly"@, "temperature_2m,precipitation_probability"@)
            &&& q[4] == ("forecast_days"@, "1"@)
            &&& q[5] == ("wind_speed_unit"@, "kmh"@)
        }),
{
}

/// The weather can be shown if there is a bar for each hour and none rises more than 60 pixels.
pub proof fn law_weather_can_be_shown(w: Weather)
    ensures
        w.wf() <==> w.bars@.len() == w.forecast.hourly@.len() && forall|i: int|
            0 <= i < w.bars@.len() ==> (#[trigger] w.bars@[i]).rise <= 60,
{
}

} // verus!
