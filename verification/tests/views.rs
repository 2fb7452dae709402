use chrono::{Datelike, NaiveDate};
use trmnl_display::agenda::{make_label, PlacedEvent};
use trmnl_display::calendar::CalendarEvent;
use trmnl_display::clock::{LocalTime, UtcTime, Zone, MAX_DAY};
use trmnl_display::draw::DrawCmd;
use trmnl_display::four_weeks;
use trmnl_display::month;
use trmnl_display::weather::{
    hourly_slots, mean_precip_chance, read_forecast, weather_query, wmo_to_condition, Weather,
    WeatherBar,
};

fn day(y: i32, m: u32, d: u32) -> i32 {
    NaiveDate::from_ymd_opt(y, m, d).unwrap().num_days_from_ce()
}

fn placed(summary: &str, day: i32, time: Option<(u32, u32)>) -> PlacedEvent {
    let (hour, minute) = time.unwrap_or((0, 0));
    PlacedEvent {
        summary: summary.to_string(),
        at: LocalTime { day, hour, minute, second: 0 },
        all_day: time.is_none(),
    }
}

fn describe(cmds: &[DrawCmd]) -> Vec<String> {
    cmds.iter()
        .map(|c| match c {
            DrawCmd::Text { shade, x, y, size, bold, text } => {
                format!("text {shade} {x},{y} {size}{} {text}", if *bold { "b" } else { "" })
            }
            DrawCmd::Line { shade, x0, y0, x1, y1 } => format!("line {shade} {x0},{y0} {x1},{y1}"),
            DrawCmd::Fill { shade, x, y, width, height } => {
                format!("fill {shade} {x},{y} {width}x{height}")
            }
        })
        .collect()
}

fn label(summary: &str, time: Option<(u32, u32)>) -> String {
    make_label(&placed(summary, 1, time), 18)
}

#[test]
fn timed_labels_start_with_the_time() {
    assert_eq!(label("Standup", Some((9, 5))), "09:05 Standup");
    assert_eq!(label("Review of the quarter", Some((14, 0))), "14:00 Review of t…");
    assert_eq!(label("123456789012", Some((14, 0))), "14:00 123456789012");
    assert_eq!(label("1234567890123", Some((14, 0))), "14:00 12345678901…");
    assert_eq!(label("éééééééééééééé", Some((23, 59))), "23:59 ééééééééééé…");
    assert_eq!(make_label(&placed("xy", 1, Some((0, 0))), 7), "00:00 …");
    assert_eq!(make_label(&placed("x", 1, Some((0, 0))), 3), "00:00 ");
}

#[test]
fn long_titles_of_whole_days_are_cut() {
    assert_eq!(label("Company all-hands", None), "Company all-hands");
    assert_eq!(label("123456789012345678", None), "123456789012345678");
    assert_eq!(label("1234567890123456789", None), "12345678901234567…");
}

#[test]
fn the_ellipsis_takes_the_place_of_a_byte() {
    assert_eq!(label("ééééééééééééééééééé", None), "éééééééééééééééééé…");
    assert_eq!(label("é23456789012345678x", None), "é23456789012345678…");
}

fn four_weeks_at(events: Vec<PlacedEvent>, now: LocalTime) -> Vec<String> {
    describe(&four_weeks::draw_four_weeks(&events, &now))
}

fn thursday() -> LocalTime {
    LocalTime { day: day(2024, 11, 14), hour: 10, minute: 15, second: 30 }
}

#[test]
fn the_grid_starts_on_monday() {
    let d = four_weeks_at(vec![], thursday());
    assert_eq!(d[0], "text 0 45,2 15b Mon");
    assert_eq!(d[5], "text 80 615,2 15b Sat");
    assert_eq!(d[6], "text 80 729,2 15b Sun");
    assert_eq!(d[7], "line 80 0,20 800,20");
    assert_eq!(d[8], "line 195 0,130 114,130");
    assert_eq!(d[9], "line 195 113,22 113,130");
    assert_eq!(d[10], "text 0 3,24 13b 11");
    let numbers: Vec<&str> =
        d.iter().filter(|s| s.contains(" 13b ")).map(|s| s.rsplit(' ').next().unwrap()).collect();
    assert_eq!(numbers.len(), 28);
    assert_eq!(numbers[..5], ["11", "12", "13", "14", "15"]);
    assert_eq!(numbers[19..], ["30", "1", "2", "3", "4", "5", "6", "7", "8"]);
}

#[test]
fn today_is_filled_with_black() {
    let d = four_weeks_at(vec![], thursday());
    let fills: Vec<&String> = d.iter().filter(|s| s.starts_with("fill")).collect();
    assert_eq!(fills, vec!["fill 0 342,22 114x108"]);
    assert!(d.contains(&"text 255 345,24 13b 14".to_string()));
    assert!(d.contains(&"text 80 573,24 13b 16".to_string()));
}

#[test]
fn the_footer_tells_the_time() {
    let d = four_weeks_at(vec![], thursday());
    assert_eq!(d[d.len() - 2], "line 200 0,462 800,462");
    assert_eq!(d[d.len() - 1], "text 80 8,465 12 Updated 10:15:30");
    assert_eq!(d.len(), 8 + 28 + 24 + 28 + 1 + 2);
}

#[test]
fn events_stand_in_the_cells_of_their_days() {
    let events = vec![
        placed("Lunch", day(2024, 11, 14), Some((12, 0))),
        placed("Holiday", day(2024, 12, 8), None),
        placed("Call", day(2024, 11, 14), Some((9, 30))),
        placed("Retrospective", day(2024, 11, 13), Some((14, 0))),
        placed("Past", day(2024, 11, 10), Some((9, 30))),
        placed("Future", day(2024, 12, 9), Some((9, 30))),
    ];
    let d = four_weeks_at(events, thursday());
    assert!(d.contains(&"text 255 345,39 10 12:00 Lunch".to_string()));
    assert!(d.contains(&"text 255 345,51 10 09:30 Call".to_string()));
    assert!(d.contains(&"text 20 687,366 10 Holiday".to_string()));
    assert!(d.contains(&"text 20 231,39 10 14:00 Retrospecti…".to_string()));
    assert!(!d.iter().any(|s| s.contains("Past") || s.contains("Future")));
}

#[test]
fn seven_events_fit_in_a_cell() {
    let many = |n: usize| -> Vec<String> {
        let events = (0..n).map(|i| placed(&format!("e{i}"), day(2024, 11, 15), None)).collect();
        four_weeks_at(events, thursday())
    };
    let d = many(7);
    assert!(d.contains(&"text 20 459,111 10 e6".to_string()));
    assert!(!d.iter().any(|s| s.contains(" +")));
    let d = many(8);
    assert!(d.contains(&"text 20 459,111 10 e6".to_string()));
    assert!(d.contains(&"text 80 459,111 10 +2".to_string()));
    assert!(!d.iter().any(|s| s.ends_with("e7")));
    let d = many(20);
    assert!(d.contains(&"text 80 459,111 10 +14".to_string()));
}

#[test]
fn everything_is_drawn_on_the_display() {
    let events: Vec<PlacedEvent> = (0..400)
        .map(|i| placed("A title that is far too long", day(2024, 11, 11) + i % 28, None))
        .collect();
    for c in four_weeks::draw_four_weeks(&events, &thursday()) {
        match c {
            DrawCmd::Text { x, y, size, .. } => assert!(x >= 0 && x < 800 && y + size as i32 <= 480),
            DrawCmd::Line { y0, y1, x1, .. } => assert!(y0 < 480 && y1 < 480 && x1 <= 800),
            DrawCmd::Fill { x, y, width, height, .. } => {
                assert!(x + width as i32 <= 800 && y + height as i32 <= 480)
            }
        }
    }
}

fn event_at(summary: &str, secs: i64) -> CalendarEvent {
    let start = UtcTime { secs, nanos: 0 };
    CalendarEvent { summary: summary.to_string(), start, end: start, all_day: false }
}

#[test]
fn the_display_goes_by_the_clocks_of_its_zone() {
    let now = UtcTime { secs: 1_731_579_330, nanos: 0 };
    let tokyo = Zone::from_setting(Some("Asia/Tokyo"));
    let events = vec![event_at("Late", 1_731_628_800)];
    let d = describe(&four_weeks::render_display(&events, now, &tokyo).unwrap());
    assert!(d.contains(&"text 80 8,465 12 Updated 19:15:30".to_string()));
    assert!(d.contains(&"text 20 459,39 10 09:00 Late".to_string()));
    let utc = Zone::from_setting(None);
    let d = describe(&four_weeks::render_display(&events, now, &utc).unwrap());
    assert!(d.contains(&"text 20 459,39 10 00:00 Late".to_string()));
}

#[test]
fn the_display_stays_in_the_calendar() {
    let utc = Zone::from_setting(None);
    let far = UtcTime { secs: i64::MAX, nanos: 0 };
    assert!(four_weeks::render_display(&vec![], far, &utc).is_none());
    let now = UtcTime { secs: 0, nanos: 0 };
    assert!(four_weeks::render_display(&vec![event_at("x", i64::MAX)], now, &utc).is_none());
    let last = UtcTime { secs: (MAX_DAY as i64 - 719_163) * 86_400, nanos: 0 };
    assert!(four_weeks::render_display(&vec![], last, &utc).is_none());
}

#[test]
fn weather_codes() {
    assert_eq!(wmo_to_condition(0), ("Clear", "☀"));
    assert_eq!(wmo_to_condition(1), ("Partly Cloudy", "⛅"));
    assert_eq!(wmo_to_condition(3), ("Partly Cloudy", "⛅"));
    assert_eq!(wmo_to_condition(45), ("Fog", "🌫"));
    assert_eq!(wmo_to_condition(48), ("Fog", "🌫"));
    assert_eq!(wmo_to_condition(55), ("Drizzle", "🌦"));
    assert_eq!(wmo_to_condition(61), ("Rain", "🌧"));
    assert_eq!(wmo_to_condition(75), ("Snow", "❄"));
    assert_eq!(wmo_to_condition(82), ("Showers", "🌦"));
    assert_eq!(wmo_to_condition(95), ("Thunderstorm", "⛈"));
    for code in [4, 46, 50, 56, 66, 79, 83, 96, 255] {
        assert_eq!(wmo_to_condition(code), ("Unknown", "?"));
    }
}

#[test]
fn the_next_eight_hours_are_taken() {
    let chances: Vec<u8> = (0..24).collect();
    let s = hourly_slots(24, 24, &chances, 10);
    let hours: Vec<(usize, u8, u8)> = s.iter().map(|s| (s.index, s.hour, s.precip_chance)).collect();
    assert_eq!(hours.len(), 8);
    assert_eq!(hours[0], (10, 10, 10));
    assert_eq!(hours[7], (17, 17, 17));
    assert_eq!(hourly_slots(24, 24, &chances, 20).len(), 4);
    assert_eq!(hourly_slots(12, 24, &chances, 10).len(), 2);
    assert_eq!(hourly_slots(24, 11, &chances, 10).len(), 1);
    assert_eq!(hourly_slots(5, 24, &chances, 10).len(), 0);
    let two_days: Vec<u8> = vec![7; 48];
    let s = hourly_slots(48, 48, &two_days, 23);
    assert_eq!(s.iter().map(|s| s.hour).collect::<Vec<u8>>(), vec![23, 0, 1, 2, 3, 4, 5, 6]);
}

#[test]
fn the_mean_chance_is_rounded_down() {
    let mean = |chances: &[u8]| mean_precip_chance(&hourly_slots(24, 24, &chances.to_vec(), 0));
    assert_eq!(mean(&[]), 0);
    assert_eq!(mean(&[10, 15]), 12);
    assert_eq!(mean(&[255; 8]), 255);
    assert_eq!(mean(&[0, 0, 100]), 33);
}

#[test]
fn forecasts_are_read() {
    let f = read_forecast(63, 81, 24, 24, &vec![50; 24], 9);
    assert_eq!((f.condition.as_str(), f.condition_icon.as_str()), ("Rain", "🌧"));
    assert_eq!((f.humidity, f.precip_chance, f.hourly.len()), (81, 50, 8));
}

#[test]
fn the_weather_service_is_asked_for_a_place() {
    let q = weather_query("48.8566".to_string(), "2.3522".to_string());
    let q: Vec<(&str, &str)> = q.iter().map(|p| (p.0.as_str(), p.1.as_str())).collect();
    assert_eq!(
        q,
        vec![
            ("latitude", "48.8566"),
            ("longitude", "2.3522"),
            (
                "current",
                "temperature_2m,apparent_temperature,relative_humidity_2m,wind_speed_10m,weather_code"
            ),
            ("hourly", "temperature_2m,precipitation_probability"),
            ("forecast_days", "1"),
            ("wind_speed_unit", "kmh"),
        ]
    );
}

fn month_at(events: Vec<PlacedEvent>, weather: Option<Weather>, now: LocalTime) -> Vec<String> {
    describe(&month::render_display(&events, &weather, &now, now.day).unwrap())
}

#[test]
fn the_month_has_a_title_bar() {
    let d = month_at(vec![], None, thursday());
    assert_eq!(d[0], "fill 0 0,0 800x56");
    assert_eq!(d[1], "text 255 20,12 30b Thursday, November 14  ·  10:15");
    assert_eq!(d[2], "line 80 0,56 800,56");
    assert_eq!(d[3], "text 80 20,90 22 Weather unavailable");
    assert_eq!(d[4], "line 200 280,60 280,480");
    assert_eq!(d[5], "text 0 296,62 22b November 2024");
    assert_eq!(d[6], "text 80 324,90 15b Mo");
    assert_eq!(d[12], "text 80 756,90 15b Su");
    assert_eq!(d[13], "line 200 296,108 800,108");
    let n = d.len();
    assert_eq!(d[n - 3], "line 200 0,456 800,456");
    assert_eq!(d[n - 2], "text 80 20,460 14 Updated 10:15:30");
    assert_eq!(d[n - 1], "text 80 640,460 14 trmnl-display v0.1");
}

#[test]
fn the_month_shows_its_days() {
    // November 2024 starts on a Friday and takes five rows.
    let d = month_at(vec![], None, thursday());
    assert_eq!(d[14], "line 200 584,179 656,179");
    assert_eq!(d[15], "line 200 655,112 655,179");
    assert_eq!(d[16], "text 0 586,114 13b 1");
    assert_eq!(d[17], "fill 245 656,112 72x67");
    let numbers: Vec<&str> =
        d.iter().filter(|s| s.contains(" 13b ")).map(|s| s.rsplit(' ').next().unwrap()).collect();
    let expected: Vec<String> = (1..=30).map(|i| i.to_string()).collect();
    assert_eq!(numbers, expected);
    assert!(d.contains(&"fill 0 512,248 72x67".to_string()));
    assert!(d.contains(&"text 255 514,250 13b 14".to_string()));
}

#[test]
fn months_take_four_to_six_rows() {
    let height = |y, m| {
        let now = LocalTime { day: day(y, m, 1), hour: 0, minute: 0, second: 0 };
        let d = month_at(vec![], None, now);
        let today = d.iter().find(|s| s.starts_with("fill 0") && s.contains(" 72x")).unwrap();
        today.rsplit('x').next().unwrap().parse::<u32>().unwrap() + 1
    };
    assert_eq!(height(2021, 2), 85);
    assert_eq!(height(2024, 11), 68);
    assert_eq!(height(2024, 12), 56);
}

#[test]
fn events_stand_in_the_month() {
    let d = month_at(
        vec![
            placed("Lunch with Zoe", day(2024, 11, 14), Some((12, 0))),
            placed("Conference day", day(2024, 11, 1), None),
            placed("Elsewhere", day(2024, 12, 1), None),
        ],
        None,
        thursday(),
    );
    assert!(d.contains(&"text 255 514,265 10 12:00 Lunch".to_string()));
    assert!(d.contains(&"text 30 586,129 10 Conference…".to_string()));
    assert!(!d.iter().any(|s| s.contains("Elsewhere")));
}

#[test]
fn four_events_fit_in_a_cell_of_five_rows() {
    let many = |n: usize, d: u32| -> Vec<String> {
        let events = (0..n).map(|i| placed(&format!("e{i}"), day(2024, 11, d), None)).collect();
        month_at(events, None, thursday())
    };
    let d = many(4, 1);
    assert!(d.contains(&"text 30 586,162 10 e3".to_string()));
    assert!(!d.iter().any(|s| s.contains("more")));
    let d = many(5, 1);
    assert!(d.contains(&"text 80 586,162 10 +2 more".to_string()));
    let d = many(9, 14);
    assert!(d.contains(&"text 200 514,298 10 +6 more".to_string()));
}

#[test]
fn titles_are_not_cut_within_a_character() {
    let draw = |summary: &str| {
        let events = vec![placed(summary, day(2024, 11, 1), None)];
        month::render_display(&events, &None, &thursday(), thursday().day)
    };
    assert!(draw("1234567890é").is_some());
    assert!(draw("1234567890é2").is_none());
    assert!(draw("éééééééééé12").is_some());
    let elsewhere = vec![placed("1234567890é2", day(2024, 12, 1), None)];
    assert!(month::render_display(&elsewhere, &None, &thursday(), thursday().day).is_some());
}

#[test]
fn the_month_stays_in_the_calendar() {
    assert!(month::render_display(&vec![], &None, &thursday(), MAX_DAY).is_none());
}

#[test]
fn the_weather_stands_beside_the_month() {
    let mut chances = vec![0u8; 24];
    chances[9] = 51;
    let weather = Weather {
        forecast: read_forecast(1, 40, 24, 24, &chances, 8),
        temperature: "21".to_string(),
        feels_like: "-0".to_string(),
        wind: "13".to_string(),
        bars: (0..8)
            .map(|i| WeatherBar { temperature: format!("{}", 20 + i), rise: i * 8 })
            .collect(),
    };
    let d = month_at(vec![], Some(weather), thursday());
    assert_eq!(
        d[3..12],
        [
            "text 0 20,70 72b 21°C",
            "text 0 20,148 24 Partly Cloudy",
            "text 80 20,178 20 Feels -0°C",
            "text 0 20,210 20 💧 40% humidity",
            "text 0 20,240 20 💨 13 km/h wind",
            "text 0 20,270 20 ☔ 6% precip",
            "fill 160 20,324 26x6",
            "text 0 22,334 16 08",
            "text 0 20,306 15 20",
        ]
    );
    assert_eq!(d[12], "fill 80 52,316 26x14");
    assert_eq!(d[13], "text 0 54,334 16 09");
    assert_eq!(d[16], "text 0 86,334 16 10");
    assert_eq!(d[33], "text 80 20,358 16 Next 8 hours");
    assert_eq!(d[34], "line 200 280,60 280,480");
}
