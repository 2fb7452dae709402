//! The month view: the weather on the left, and the current month on the right.

use crate::agenda::{
    events_on, group_by_day, lemma_listed_events, listed, placed_views, places_on, title_room,
    PlacedEvent, PlacedView,
};
use crate::bmp::{
    bmp_top_down, file_size, header, lemma_same_rows, lemma_stated_height, push_rows, row_len,
    stored_row,
};
use crate::clock::{
    date_of, date_on, day_of, day_start, hour_minute, hour_minute_second, in_calendar,
    lemma_date_on, month_and_year, month_around, month_days, month_first, month_fits, month_title,
    start_of, weekday, weekday_of, LocalTime, UtcTime,
};
use crate::draw::{
    drawing, on_display, push_fill, push_line, push_text, DrawCmd, DrawView, BLACK, DARK_GRAY,
    HEIGHT, LIGHT_GRAY, WHITE, WIDTH,
};
use crate::image::{lemma_offset_bounds, offset, GrayImage};
use crate::text::{decimal, first_chars, push_decimal, take_chars};
use crate::weather::{HourlySlot, Weather, WeatherBar, BAR_RISE, HOURS_AHEAD};
use std::collections::HashMap;
use vstd::prelude::*;
use vstd::string::*;

verus! {

/// The bar at the top with the date and the time.
pub open spec fn title_bar(now: LocalTime) -> Seq<DrawView> {
    seq![
        DrawView::Fill { shade: BLACK, x: 0, y: 0, width: WIDTH as int, height: 56 },
        DrawView::Text {
            shade: WHITE,
            x: 20,
            y: 12,
            size: 30,
            bold: true,
            text: now.written_out(),
        },
        DrawView::Line { shade: DARK_GRAY, x0: 0, y0: 56, x1: WIDTH as int, y1: 56 },
    ]
}

fn draw_title_bar(cmds: &mut Vec<DrawCmd>, now: &LocalTime)
    requires
        now.wf(),
    ensures
        drawing(final(cmds)@) == drawing(old(cmds)@) + title_bar(*now),
{
    let ghost before = drawing(cmds@);
    push_fill(cmds, BLACK, 0, 0, WIDTH, 56);
    push_text(cmds, WHITE, 20, 12, 30, true, now.long_text());
    push_line(cmds, DARK_GRAY, 0, 56, WIDTH as i32, 56);
    assert(drawing(cmds@) =~= before + title_bar(*now));
}

/// The temperature, the weather in words, and the temperature that is felt.
pub open spec fn present_weather(w: Weather) -> Seq<DrawView> {
    seq![
        DrawView::Text {
            shade: BLACK,
            x: 20,
            y: 70,
            size: 72,
            bold: true,
            text: w.temperature@ + "°C"@,
        },
        DrawView::Text {
            shade: BLACK,
            x: 20,
            y: 148,
            size: 24,
            bold: false,
            text: w.forecast.condition@,
        },
        DrawView::Text {
            shade: DARK_GRAY,
            x: 20,
            y: 178,
            size: 20,
            bold: false,
            text: "Feels "@ + w.feels_like@ + "°C"@,
        },
    ]
}

/// Humidity, wind and chance of rain.
pub open spec fn weather_details(w: Weather) -> Seq<DrawView> {
    seq![
        DrawView::Text {
            shade: BLACK,
            x: 20,
            y: 210,
            size: 20,
            bold: false,
            text: "💧 "@ + decimal(w.forecast.humidity as nat) + "% humidity"@,
        },
        DrawView::Text {
            shade: BLACK,
            x: 20,
            y: 240,
            size: 20,
            bold: false,
            text: "💨 "@ + w.wind@ + " km/h wind"@,
        },
        DrawView::Text {
            shade: BLACK,
            x: 20,
            y: 270,
            size: 20,
            bold: false,
            text: "☔ "@ + decimal(w.forecast.precip_chance as nat) + "% precip"@,
        },
    ]
}

/// An hour of the day in at least two digits.
pub open spec fn hour_label(hour: int) -> Seq<char> {
    if hour < 10 {
        "0"@ + decimal(hour as nat)
    } else {
        decimal(hour as nat)
    }
}

/// One bar of the chart, dark where rain is likely, with its hour below and its temperature
/// above.
pub open spec fn chart_bar(i: int, slot: HourlySlot, bar: WeatherBar) -> Seq<DrawView> {
    let x = 20 + i * 32;
    let height = bar.rise + 6;
    seq![
        DrawView::Fill {
            shade: if slot.precip_chance > 50 {
                DARK_GRAY
            } else {
                160
            },
            x,
            y: 330 - height,
            width: 26,
            height,
        },
        DrawView::Text {
            shade: BLACK,
            x: x + 2,
            y: 334,
            size: 16,
            bold: false,
            text: hour_label(slot.hour as int),
        },
        DrawView::Text {
            shade: BLACK,
            x,
            y: 330 - height - 18,
            size: 15,
            bold: false,
            text: bar.temperature@,
        },
    ]
}

/// The first `n` bars of the chart.
pub open spec fn chart(w: Weather, n: nat) -> Seq<DrawView>
    decreases n,
{
    if n == 0 {
        Seq::empty()
    } else {
        chart(w, (n - 1) as nat) + chart_bar(n - 1, w.forecast.hourly@[n - 1], w.bars@[n - 1])
    }
}

/// How many bars the chart has.
pub open spec fn chart_length(w: Weather) -> nat {
    if w.forecast.hourly@.len() < HOURS_AHEAD {
        w.forecast.hourly@.len()
    } else {
        HOURS_AHEAD as nat
    }
}

/// The left column: the weather, or that there is none.
pub open spec fn weather_panel(weather: Option<Weather>) -> Seq<DrawView> {
    match weather {
        Some(w) => (present_weather(w) + weather_details(w) + chart(w, chart_length(w))).push(
            DrawView::Text {
                shade: DARK_GRAY,
                x: 20,
                y: 358,
                size: 16,
                bold: false,
                text: "Next 8 hours"@,
            },
        ),
        None => seq![
            DrawView::Text {
                shade: DARK_GRAY,
                x: 20,
                y: 90,
                size: 22,
                bold: false,
                text: "Weather unavailable"@,
            },
        ],
    }
}

fn joined(before: &str, middle: &str, after: &str) -> (r: String)
    ensures
        r@ == before@ + middle@ + after@,
{
    let mut out: String = before.to_owned();
    out.append(middle);
    out.append(after);
    out
}

fn number_text(n: u64) -> (r: String)
    ensures
        r@ == decimal(n as nat),
{
    let mut out = String::new();
    push_decimal(&mut out, n);
    assert(out@ =~= decimal(n as nat));
    out
}

fn draw_present_weather(cmds: &mut Vec<DrawCmd>, w: &Weather)
    ensures
        drawing(final(cmds)@) == drawing(old(cmds)@) + present_weather(*w) + weather_details(*w),
{
    let ghost before = drawing(cmds@);
    let mut temperature: String = w.temperature.clone();
    temperature.append("°C");
    push_text(cmds, BLACK, 20, 70, 72, true, temperature);
    push_text(cmds, BLACK, 20, 148, 24, false, w.forecast.condition.clone());
    let feels: String = joined("Feels ", w.feels_like.as_str(), "°C");
    push_text(cmds, DARK_GRAY, 20, 178, 20, false, feels);
    assert(drawing(cmds@) =~= before + present_weather(*w));
    let humidity: String = number_text(w.forecast.humidity as u64);
    let humidity: String = joined("💧 ", humidity.as_str(), "% humidity");
    push_text(cmds, BLACK, 20, 210, 20, false, humidity);
    let wind: String = joined("💨 ", w.wind.as_str(), " km/h wind");
    push_text(cmds, BLACK, 20, 240, 20, false, wind);
    let precip: String = number_text(w.forecast.precip_chance as u64);
    let precip: String = joined("☔ ", precip.as_str(), "% precip");
    push_text(cmds, BLACK, 20, 270, 20, false, precip);
    assert(drawing(cmds@) =~= before + present_weather(*w) + weather_details(*w));
}

fn draw_chart_bar(cmds: &mut Vec<DrawCmd>, i: usize, slot: &HourlySlot, bar: &WeatherBar)
    requires
        i < HOURS_AHEAD,
        bar.rise <= BAR_RISE,
    ensures
        drawing(final(cmds)@) == drawing(old(cmds)@) + chart_bar(i as int, *slot, *bar),
{
    let ghost before = drawing(cmds@);
    let x: i32 = 20 + i as i32 * 32;
    let height: u32 = bar.rise + 6;
    let y: i32 = 330 - height as i32;
    let shade: u8 = if slot.precip_chance > 50 {
        DARK_GRAY
    } else {
        160
    };
    push_fill(cmds, shade, x, y, 26, height);
    let mut label: String = if slot.hour < 10 {
        "0".to_owned()
    } else {
        String::new()
    };
    push_decimal(&mut label, slot.hour as u64);
    assert(label@ =~= hour_label(slot.hour as int));
    push_text(cmds, BLACK, x + 2, 334, 16, false, label);
    push_text(cmds, BLACK, x, y - 18, 15, false, bar.temperature.clone());
    assert(drawing(cmds@) =~= before + chart_bar(i as int, *slot, *bar));
}

fn draw_weather_panel(cmds: &mut Vec<DrawCmd>, weather: &Option<Weather>)
    requires
        weather matches Some(w) ==> w.wf(),
    ensures
        drawing(final(cmds)@) == drawing(old(cmds)@) + weather_panel(*weather),
{
    let ghost before = drawing(cmds@);
    match weather {
        Some(w) => {
            draw_present_weather(cmds, w);
            let ghost start = drawing(cmds@);
            let known: usize = w.forecast.hourly.len();
            let n: usize = if known < HOURS_AHEAD {
                known
            } else {
                HOURS_AHEAD
            };
            let mut i: usize = 0;
            assert(drawing(cmds@) =~= start + chart(*w, 0));
            while i < n
                invariant
                    w.wf(),
                    n <= HOURS_AHEAD,
                    n <= w.forecast.hourly@.len(),
                    i <= n,
                    drawing(cmds@) == start + chart(*w, i as nat),
                decreases n - i,
            {
                draw_chart_bar(cmds, i, &w.forecast.hourly[i], &w.bars[i]);
                assert(drawing(cmds@) =~= start + chart(*w, (i + 1) as nat));
                i += 1;
            }
            push_text(cmds, DARK_GRAY, 20, 358, 16, false, "Next 8 hours".to_owned());
        },
        None => {
            push_text(cmds, DARK_GRAY, 20, 90, 22, false, "Weather unavailable".to_owned());
        },
    }
    assert(drawing(cmds@) =~= before + weather_panel(*weather));
}

/// Where the month starts, right of the weather.
pub const LEFT: i32 = 296;

/// The width of a column: a seventh of what is right of the weather.
pub const CELL_W: i32 = 72;

/// Where the grid starts, and what of its height the rows share.
pub const GRID_Y: i32 = 112;

pub const GRID_H: i32 = 340;

/// The height of one line in a cell.
pub const LINE_H: i32 = 11;

/// The characters that fit on a line.
pub const MAX_CHARS: usize = 11;

pub open spec fn weekday_label(i: int) -> Seq<char> {
    if i == 0 {
        "Mo"@
    } else if i == 1 {
        "Tu"@
    } else if i == 2 {
        "We"@
    } else if i == 3 {
        "Th"@
    } else if i == 4 {
        "Fr"@
    } else if i == 5 {
        "Sa"@
    } else {
        "Su"@
    }
}

/// The first `n` names of weekdays above the columns.
pub open spec fn weekday_row(n: nat) -> Seq<DrawView> {
    Seq::new(
        n,
        |i: int|
            DrawView::Text {
                shade: DARK_GRAY,
                x: LEFT + i * CELL_W + CELL_W / 2 - 8,
                y: 90,
                size: 15,
                bold: true,
                text: weekday_label(i),
            },
    )
}

/// The line right of the weather, the name of the month, the names of the weekdays and the
/// line below them.
pub open spec fn month_heading(today: int) -> Seq<DrawView> {
    (seq![
        DrawView::Line { shade: LIGHT_GRAY, x0: 280, y0: 60, x1: 280, y1: HEIGHT as int },
        DrawView::Text {
            shade: BLACK,
            x: LEFT as int,
            y: 62,
            size: 22,
            bold: true,
            text: month_and_year(today),
        },
    ] + weekday_row(7)).push(
        DrawView::Line {
            shade: LIGHT_GRAY,
            x0: LEFT as int,
            y0: 108,
            x1: WIDTH as int,
            y1: 108,
        },
    )
}

/// The rows of the grid: as many weeks as the month touches.
pub open spec fn row_count(today: int) -> int {
    (weekday(month_first(today)) + month_days(today) + 6) / 7
}

/// The height of a row.
pub open spec fn row_height(today: int) -> int {
    GRID_H as int / row_count(today)
}

/// The lines that fit in a cell below the number of the day.
pub open spec fn line_count(row_h: int) -> int {
    (row_h - 17) / LINE_H as int
}

pub open spec fn cell_x(slot: int) -> int {
    LEFT + slot % 7 * CELL_W
}

pub open spec fn cell_y(slot: int, row_h: int) -> int {
    GRID_Y + slot / 7 * row_h
}

/// The background of a cell: black for today, a light tint at the weekend.
pub open spec fn cell_background(slot: int, row_h: int, is_today: bool) -> Seq<DrawView> {
    if is_today || slot % 7 >= 5 {
        seq![
            DrawView::Fill {
                shade: if is_today {
                    BLACK
                } else {
                    245
                },
                x: cell_x(slot),
                y: cell_y(slot, row_h),
                width: CELL_W as int,
                height: row_h - 1,
            },
        ]
    } else {
        Seq::empty()
    }
}

/// The line below a cell, and the one on its right but for the last column.
pub open spec fn cell_borders(slot: int, row_h: int) -> Seq<DrawView> {
    let below = DrawView::Line {
        shade: 200,
        x0: cell_x(slot),
        y0: cell_y(slot, row_h) + row_h - 1,
        x1: cell_x(slot) + CELL_W,
        y1: cell_y(slot, row_h) + row_h - 1,
    };
    let right = DrawView::Line {
        shade: 200,
        x0: cell_x(slot) + CELL_W - 1,
        y0: cell_y(slot, row_h),
        x1: cell_x(slot) + CELL_W - 1,
        y1: cell_y(slot, row_h) + row_h - 1,
    };
    if slot % 7 < 6 {
        seq![below, right]
    } else {
        seq![below]
    }
}

/// The day of the month in the corner of a cell.
pub open spec fn cell_number(slot: int, row_h: int, is_today: bool, day: int) -> Seq<DrawView> {
    seq![
        DrawView::Text {
            shade: if is_today {
                WHITE
            } else if slot % 7 >= 5 {
                DARK_GRAY
            } else {
                BLACK
            },
            x: cell_x(slot) + 2,
            y: cell_y(slot, row_h) + 2,
            size: 13,
            bold: true,
            text: decimal(date_on(day).2 as nat),
        },
    ]
}

/// The line for an event with a time of day: that time, and the start of the title.
pub open spec fn timed_label(e: PlacedView, max: int) -> Seq<char> {
    hour_minute(e.at.hour as int, e.at.minute as int) + seq![' '] + first_chars(
        e.summary,
        title_room(max),
    )
}

/// The line for an event, made for `max` characters. A title that is cut off ends with an
/// ellipsis in place of its last character.
pub open spec fn short_label(e: PlacedView, max: int) -> Seq<char> {
    if !e.all_day {
        timed_label(e, max)
    } else if e.summary.len() > max {
        e.summary.take(max - 1) + "…"@
    } else {
        e.summary
    }
}

/// A line can be made for an event. A title can be cut off only where the ellipsis takes the
/// place of a character of one byte.
pub open spec fn can_label(e: PlacedView, max: int) -> bool {
    e.all_day && e.summary.len() > max ==> (e.summary[max - 1] as int) < 128
}

/// The first `n` lines of events in a cell.
pub open spec fn event_lines(
    slot: int,
    row_h: int,
    is_today: bool,
    events: Seq<PlacedView>,
    n: nat,
) -> Seq<DrawView> {
    Seq::new(
        n,
        |i: int|
            DrawView::Text {
                shade: if is_today {
                    WHITE
                } else {
                    30
                },
                x: cell_x(slot) + 2,
                y: cell_y(slot, row_h) + 17 + i * LINE_H,
                size: 10,
                bold: false,
                text: short_label(events[i], MAX_CHARS as int),
            },
    )
}

/// Where there are more events than lines, the number of those from the last line on,
/// drawn on that line.
pub open spec fn overflow_line(slot: int, row_h: int, is_today: bool, count: nat) -> Seq<
    DrawView,
> {
    if count > line_count(row_h) {
        seq![
            DrawView::Text {
                shade: if is_today {
                    200
                } else {
                    DARK_GRAY
                },
                x: cell_x(slot) + 2,
                y: cell_y(slot, row_h) + 17 + (line_count(row_h) - 1) * LINE_H,
                size: 10,
                bold: false,
                text: "+"@ + decimal((count - line_count(row_h) + 1) as nat) + " more"@,
            },
        ]
    } else {
        Seq::empty()
    }
}

/// How many of a day's events have a line.
pub open spec fn lines_shown(row_h: int, count: nat) -> nat {
    if count > line_count(row_h) {
        line_count(row_h) as nat
    } else {
        count
    }
}

/// What a cell says of the events of its day.
pub open spec fn cell_events(
    slot: int,
    row_h: int,
    is_today: bool,
    events: Seq<PlacedView>,
) -> Seq<DrawView> {
    event_lines(slot, row_h, is_today, events, lines_shown(row_h, events.len())) + overflow_line(
        slot,
        row_h,
        is_today,
        events.len(),
    )
}

/// A line can be made for each event of a day that has one.
pub open spec fn can_label_all(row_h: int, events: Seq<PlacedView>) -> bool {
    forall|i: int|
        0 <= i < lines_shown(row_h, events.len()) ==> can_label(
            #[trigger] events[i],
            MAX_CHARS as int,
        )
}

/// The cell of the day `i` days after the first of the month.
pub open spec fn cell(i: int, today: int, events: Seq<PlacedView>) -> Seq<DrawView> {
    let slot = weekday(month_first(today)) + i;
    let row_h = row_height(today);
    let day = month_first(today) + i;
    cell_background(slot, row_h, day == today) + cell_borders(slot, row_h) + cell_number(
        slot,
        row_h,
        day == today,
        day,
    ) + cell_events(slot, row_h, day == today, events_on(events, day))
}

/// The cells of the first `n` days of the month.
pub open spec fn cells(n: nat, today: int, events: Seq<PlacedView>) -> Seq<DrawView>
    decreases n,
{
    if n == 0 {
        Seq::empty()
    } else {
        cells((n - 1) as nat, today, events) + cell(n - 1, today, events)
    }
}

/// The line above the footer, the time of the drawing and the name of the program.
pub open spec fn footer(now: LocalTime) -> Seq<DrawView> {
    seq![
        DrawView::Line {
            shade: LIGHT_GRAY,
            x0: 0,
            y0: HEIGHT - 24,
            x1: WIDTH as int,
            y1: HEIGHT - 24,
        },
        DrawView::Text {
            shade: DARK_GRAY,
            x: 20,
            y: HEIGHT - 20,
            size: 14,
            bold: false,
            text: "Updated "@ + hour_minute_second(
                now.hour as int,
                now.minute as int,
                now.second as int,
            ),
        },
        DrawView::Text {
            shade: DARK_GRAY,
            x: WIDTH - 160,
            y: HEIGHT - 20,
            size: 14,
            bold: false,
            text: "trmnl-display v0.1"@,
        },
    ]
}

/// The month view. `today` is the day whose month is shown.
pub open spec fn month_view(
    events: Seq<PlacedView>,
    weather: Option<Weather>,
    now: LocalTime,
    today: int,
) -> Seq<DrawView> {
    title_bar(now) + weather_panel(weather) + month_heading(today) + cells(
        month_days(today) as nat,
        today,
        events,
    ) + footer(now)
}

/// The month view can be drawn: the calendar reaches the end of the month, and a line can be
/// made for every event that has one.
pub open spec fn can_draw(events: Seq<PlacedView>, today: int) -> bool {
    &&& month_fits(today)
    &&& forall|i: int|
        0 <= i < month_days(today) ==> can_label_all(
            row_height(today),
            #[trigger] events_on(events, month_first(today) + i),
        )
}

fn label_of_weekday(i: i32) -> (r: String)
    requires
        0 <= i < 7,
    ensures
        r@ == weekday_label(i as int),
{
    if i == 0 {
        "Mo".to_owned()
    } else if i == 1 {
        "Tu".to_owned()
    } else if i == 2 {
        "We".to_owned()
    } else if i == 3 {
        "Th".to_owned()
    } else if i == 4 {
        "Fr".to_owned()
    } else if i == 5 {
        "Sa".to_owned()
    } else {
        "Su".to_owned()
    }
}

fn draw_month_heading(cmds: &mut Vec<DrawCmd>, today: i32)
    requires
        in_calendar(today as int),
    ensures
        drawing(final(cmds)@) == drawing(old(cmds)@) + month_heading(today as int),
{
    let ghost before = drawing(cmds@);
    push_line(cmds, LIGHT_GRAY, 280, 60, 280, HEIGHT as i32);
    push_text(cmds, BLACK, LEFT, 62, 22, true, month_title(today));
    let ghost start = drawing(cmds@);
    let mut i: i32 = 0;
    assert(drawing(cmds@) =~= start + weekday_row(0));
    while i < 7
        invariant
            0 <= i <= 7,
            drawing(cmds@) == start + weekday_row(i as nat),
        decreases 7 - i,
    {
        let x: i32 = LEFT + i * CELL_W + CELL_W / 2 - 8;
        push_text(cmds, DARK_GRAY, x, 90, 15, true, label_of_weekday(i));
        assert(drawing(cmds@) =~= start + weekday_row((i + 1) as nat));
        i += 1;
    }
    push_line(cmds, LIGHT_GRAY, LEFT, 108, WIDTH as i32, 108);
    assert(drawing(cmds@) =~= before + month_heading(today as int));
}

/// Makes the line for an event that has a time of day.
fn make_timed_label(e: &PlacedEvent, max: usize) -> (r: String)
    requires
        e.at.wf(),
    ensures
        r@ == timed_label(e@, max as int),
{
    let mut label: String = e.at.label_prefix();
    let used: usize = label.as_str().unicode_len();
    let room: usize = if max > used {
        max - used
    } else {
        0
    };
    label.append(take_chars(e.summary.as_str(), room).as_str());
    label
}

/// Makes the line for an event, where one can be made.
pub fn make_short_label(e: &PlacedEvent, max: usize) -> (r: Option<String>)
    requires
        e.at.wf(),
        max > 0,
    ensures
        r is Some <==> can_label(e@, max as int),
        r matches Some(label) ==> label@ == short_label(e@, max as int),
{
    if !e.all_day {
        return Some(make_timed_label(e, max));
    }
    let title: &str = e.summary.as_str();
    if title.unicode_len() <= max {
        return Some(e.summary.clone());
    }
    let last: char = title.get_char(max - 1);
    if last as u32 >= 128 {
        return None;
    }
    let mut label: String = title.substring_char(0, max - 1).to_owned();
    label.append("…");
    assert(label@ =~= short_label(e@, max as int));
    Some(label)
}

/// A cell of a grid of six rows, whose height is one that a month can have.
spec fn in_grid(slot: int, row_h: int) -> bool {
    0 <= slot < 42 && 56 <= row_h <= 85
}

fn draw_frame(cmds: &mut Vec<DrawCmd>, slot: i32, row_h: i32, is_today: bool, day: i32)
    requires
        in_grid(slot as int, row_h as int),
        in_calendar(day as int),
    ensures
        drawing(final(cmds)@) == drawing(old(cmds)@) + cell_background(
            slot as int,
            row_h as int,
            is_today,
        ) + cell_borders(slot as int, row_h as int) + cell_number(
            slot as int,
            row_h as int,
            is_today,
            day as int,
        ),
{
    let ghost before = drawing(cmds@);
    let ghost background = cell_background(slot as int, row_h as int, is_today);
    let ghost borders = cell_borders(slot as int, row_h as int);
    let x: i32 = LEFT + slot % 7 * CELL_W;
    let row: i32 = slot / 7;
    assert(0 <= row * row_h <= 5 * 85) by (nonlinear_arith)
        requires
            0 <= row <= 5,
            0 <= row_h <= 85,
    ;
    let y: i32 = GRID_Y + row * row_h;
    if is_today {
        push_fill(cmds, BLACK, x, y, CELL_W as u32, row_h as u32 - 1);
    } else if slot % 7 >= 5 {
        push_fill(cmds, 245, x, y, CELL_W as u32, row_h as u32 - 1);
    }
    assert(drawing(cmds@) =~= before + background);
    push_line(cmds, 200, x, y + row_h - 1, x + CELL_W, y + row_h - 1);
    if slot % 7 < 6 {
        push_line(cmds, 200, x + CELL_W - 1, y, x + CELL_W - 1, y + row_h - 1);
    }
    assert(drawing(cmds@) =~= before + background + borders);
    let date: (i32, u32, u32) = date_of(day);
    proof {
        lemma_date_on(date.0 as int, date.1 as int, date.2 as int);
    }
    let shade: u8 = if is_today {
        WHITE
    } else if slot % 7 >= 5 {
        DARK_GRAY
    } else {
        BLACK
    };
    push_text(cmds, shade, x + 2, y + 2, 13, true, number_text(date.2 as u64));
    assert(drawing(cmds@) =~= before + background + borders + cell_number(
        slot as int,
        row_h as int,
        is_today,
        day as int,
    ));
}

/// Draws the lines for the events of a day, unless one of them cannot be made.
fn draw_events(
    cmds: &mut Vec<DrawCmd>,
    slot: i32,
    row_h: i32,
    is_today: bool,
    events: &Vec<PlacedEvent>,
    places: &Vec<usize>,
) -> (r: bool)
    requires
        in_grid(slot as int, row_h as int),
        forall|i: int| 0 <= i < places@.len() ==> (#[trigger] places@[i]) < events@.len(),
        forall|i: int| 0 <= i < events@.len() ==> (#[trigger] events@[i]).at.wf(),
    ensures
        r == can_label_all(row_h as int, places@.map_values(|i: usize| events@[i as int]@)),
        r ==> drawing(final(cmds)@) == drawing(old(cmds)@) + cell_events(
            slot as int,
            row_h as int,
            is_today,
            places@.map_values(|i: usize| events@[i as int]@),
        ),
{
    let ghost before = drawing(cmds@);
    let ghost shown = places@.map_values(|i: usize| events@[i as int]@);
    let x: i32 = LEFT + slot % 7 * CELL_W + 2;
    let row: i32 = slot / 7;
    assert(0 <= row * row_h <= 5 * 85) by (nonlinear_arith)
        requires
            0 <= row <= 5,
            0 <= row_h <= 85,
    ;
    let y: i32 = GRID_Y + row * row_h + 17;
    let count: usize = places.len();
    let room: usize = ((row_h - 17) / LINE_H) as usize;
    let lines: usize = if count > room {
        room
    } else {
        count
    };
    let mut i: usize = 0;
    assert(drawing(cmds@) =~= before + event_lines(slot as int, row_h as int, is_today, shown, 0));
    while i < lines
        invariant
            in_grid(slot as int, row_h as int),
            x == cell_x(slot as int) + 2,
            y == cell_y(slot as int, row_h as int) + 17,
            y <= 1000,
            room == line_count(row_h as int),
            room <= 6,
            lines <= room,
            lines == lines_shown(row_h as int, shown.len()),
            lines <= places@.len(),
            i <= lines,
            forall|i: int| 0 <= i < places@.len() ==> (#[trigger] places@[i]) < events@.len(),
            forall|i: int| 0 <= i < events@.len() ==> (#[trigger] events@[i]).at.wf(),
            shown == places@.map_values(|i: usize| events@[i as int]@),
            forall|j: int| 0 <= j < i ==> can_label(#[trigger] shown[j], MAX_CHARS as int),
            drawing(cmds@) == before + event_lines(
                slot as int,
                row_h as int,
                is_today,
                shown,
                i as nat,
            ),
        decreases lines - i,
    {
        let label: String = match make_short_label(&events[places[i]], MAX_CHARS) {
            Some(label) => label,
            None => {
                assert(!can_label(shown[i as int], MAX_CHARS as int));
                return false;
            },
        };
        let shade: u8 = if is_today {
            WHITE
        } else {
            30
        };
        push_text(cmds, shade, x, y + i as i32 * LINE_H, 10, false, label);
        assert(drawing(cmds@) =~= before + event_lines(
            slot as int,
            row_h as int,
            is_today,
            shown,
            (i + 1) as nat,
        ));
        i += 1;
    }
    if count > room {
        let hidden: String = number_text((count - room + 1) as u64);
        let more: String = joined("+", hidden.as_str(), " more");
        let shade: u8 = if is_today {
            200
        } else {
            DARK_GRAY
        };
        push_text(cmds, shade, x, y + (room as i32 - 1) * LINE_H, 10, false, more);
    }
    assert(drawing(cmds@) =~= before + cell_events(slot as int, row_h as int, is_today, shown));
    true
}

fn draw_footer(cmds: &mut Vec<DrawCmd>, now: &LocalTime)
    requires
        now.wf(),
    ensures
        drawing(final(cmds)@) == drawing(old(cmds)@) + footer(*now),
{
    let ghost before = drawing(cmds@);
    push_line(cmds, LIGHT_GRAY, 0, HEIGHT as i32 - 24, WIDTH as i32, HEIGHT as i32 - 24);
    let mut text: String = "Updated ".to_owned();
    text.append(now.time_of_day().as_str());
    push_text(cmds, DARK_GRAY, 20, HEIGHT as i32 - 20, 14, false, text);
    let name: String = "trmnl-display v0.1".to_owned();
    push_text(cmds, DARK_GRAY, WIDTH as i32 - 160, HEIGHT as i32 - 20, 14, false, name);
    assert(drawing(cmds@) =~= before + footer(*now));
}

/// A month touches four to six weeks, and its days lie in the rows of the grid.
proof fn lemma_grid_shape(today: int, i: int)
    requires
        0 <= i < month_days(today),
    ensures
        4 <= row_count(today) <= 6,
        in_grid(weekday(month_first(today)) + i, row_height(today)),
        (weekday(month_first(today)) + i) / 7 < row_count(today),
        row_count(today) * row_height(today) <= GRID_H,
        3 <= line_count(row_height(today)) <= 6,
{
    let n = row_count(today);
    assert(0 <= weekday(month_first(today)) <= 6);
    assert(4 <= n <= 6);
    if n == 4 {
        assert(row_height(today) == 85);
    } else if n == 5 {
        assert(row_height(today) == 68);
    } else {
        assert(n == 6);
        assert(row_height(today) == 56);
    }
}

/// Draws the cell of a day, unless the line for one of its events cannot be made. `table`
/// holds the places of the events by their days.
fn draw_day(
    cmds: &mut Vec<DrawCmd>,
    i: i32,
    today: i32,
    first: i32,
    row_h: i32,
    events: &Vec<PlacedEvent>,
    table: &HashMap<i32, Vec<usize>>,
) -> (r: bool)
    requires
        0 <= i < month_days(today as int),
        first == month_first(today as int),
        in_calendar(first as int),
        in_calendar(first + i),
        row_h == row_height(today as int),
        forall|i: int| 0 <= i < events@.len() ==> (#[trigger] events@[i]).at.wf(),
        forall|day: i32| #[trigger]
            listed(table@, day) == places_on(placed_views(events@), day as int),
    ensures
        r == can_label_all(row_h as int, events_on(placed_views(events@), first + i)),
        r ==> drawing(final(cmds)@) == drawing(old(cmds)@) + cell(
            i as int,
            today as int,
            placed_views(events@),
        ),
{
    broadcast use vstd::std_specs::hash::group_hash_axioms;

    let ghost all = placed_views(events@);
    let ghost before = drawing(cmds@);
    let day: i32 = first + i;
    let slot: i32 = weekday_of(first) + i;
    let is_today: bool = day == today;
    proof {
        lemma_grid_shape(today as int, i as int);
    }
    draw_frame(cmds, slot, row_h, is_today, day);
    proof {
        assert(listed(table@, day) == places_on(all, day as int));
        lemma_listed_events(events@, table@, day);
    }
    let none: Vec<usize> = Vec::new();
    let places: &Vec<usize> = match table.get(&day) {
        Some(places) => places,
        None => &none,
    };
    assert(places@.map_values(|i: usize| events@[i as int]@) =~= events_on(all, day as int));
    let drawn: bool = draw_events(cmds, slot, row_h, is_today, events, places);
    if drawn {
        assert(drawing(cmds@) =~= before + cell(i as int, today as int, all));
    }
    drawn
}

/// Draws the month view of events whose local times are known. There is none where the
/// calendar does not reach the end of the month, or where a title would have to be cut off
/// within a character.
pub fn render_display(
    events: &Vec<PlacedEvent>,
    weather: &Option<Weather>,
    now: &LocalTime,
    today: i32,
) -> (r: Option<Vec<DrawCmd>>)
    requires
        now.wf(),
        in_calendar(today as int),
        weather matches Some(w) ==> w.wf(),
        forall|i: int| 0 <= i < events@.len() ==> (#[trigger] events@[i]).at.wf(),
    ensures
        r is Some <==> can_draw(placed_views(events@), today as int),
        r matches Some(cmds) ==> drawing(cmds@) == month_view(
            placed_views(events@),
            *weather,
            *now,
            today as int,
        ),
{
    let ghost all = placed_views(events@);
    let (first, next) = match month_around(today) {
        Some(span) => span,
        None => {
            return None;
        },
    };
    let days: i32 = next - first;
    let first_dow: i32 = weekday_of(first);
    let rows: i32 = (first_dow + days + 6) / 7;
    let row_h: i32 = GRID_H / rows;
    let table: HashMap<i32, Vec<usize>> = group_by_day(events);
    let mut cmds: Vec<DrawCmd> = Vec::new();
    draw_title_bar(&mut cmds, now);
    draw_weather_panel(&mut cmds, weather);
    draw_month_heading(&mut cmds, today);
    let ghost start = title_bar(*now) + weather_panel(*weather) + month_heading(today as int);
    assert(drawing(cmds@) =~= start + cells(0, today as int, all));
    let mut i: i32 = 0;
    while i < days
        invariant
            0 <= i <= days,
            days == month_days(today as int),
            28 <= days <= 31,
            all == placed_views(events@),
            first == month_first(today as int),
            in_calendar(first as int),
            in_calendar(first + days),
            row_h == row_height(today as int),
            forall|i: int| 0 <= i < events@.len() ==> (#[trigger] events@[i]).at.wf(),
            forall|day: i32| #[trigger] listed(table@, day) == places_on(all, day as int),
            forall|j: int|
                0 <= j < i ==> can_label_all(row_h as int, #[trigger] events_on(all, first + j)),
            drawing(cmds@) == start + cells(i as nat, today as int, all),
        decreases days - i,
    {
        if !draw_day(&mut cmds, i, today, first, row_h, events, &table) {
            assert(!can_label_all(row_h as int, events_on(all, first + i)));
            return None;
        }
        assert(drawing(cmds@) =~= start + cells((i + 1) as nat, today as int, all));
        i += 1;
    }
    draw_footer(&mut cmds, now);
    assert(drawing(cmds@) =~= month_view(all, *weather, *now, today as int));
    Some(cmds)
}

/// Each column holds the days of one weekday, the one that is named above it.
pub proof fn law_columns_are_weekdays(today: int, i: int)
    ensures
        weekday(month_first(today) + i) == (weekday(month_first(today)) + i) % 7,
{
    let first = month_first(today);
    let k = (first - 1) / 7;
    assert(first - 1 == 7 * k + weekday(first));
    vstd::arithmetic::div_mod::lemma_mod_multiples_vanish(k, weekday(first) + i, 7);
    assert(first + i - 1 == 7 * k + (weekday(first) + i));
}

/// The cell of the day `i` days after the first of the month shows the number `i + 1`, and
/// exactly one cell is that of today.
pub proof fn law_numbers_in_order(today: int, i: int)
    requires
        0 <= i < month_days(today),
    ensures
        date_on(month_first(today) + i).2 == i + 1,
        month_first(today) + i == today <==> i == date_on(today).2 - 1,
        0 <= date_on(today).2 - 1 < month_days(today),
{
    crate::clock::law_month_days_in_order(today, i);
    crate::clock::law_every_day_has_a_date(today);
}

/// Two days of the month never share a cell.
pub proof fn law_cells_are_apart(today: int, i: int, j: int)
    requires
        0 <= i < j < month_days(today),
    ensures
        cell_x(weekday(month_first(today)) + i) != cell_x(weekday(month_first(today)) + j)
            || cell_y(weekday(month_first(today)) + i, row_height(today)) + row_height(today)
            <= cell_y(weekday(month_first(today)) + j, row_height(today)),
{
    lemma_grid_shape(today, i);
    let a = weekday(month_first(today)) + i;
    let b = weekday(month_first(today)) + j;
    let h = row_height(today);
    if a % 7 == b % 7 {
        assert(a / 7 + 1 <= b / 7);
        assert(a / 7 * h + h <= b / 7 * h) by (nonlinear_arith)
            requires
                a / 7 + 1 <= b / 7,
                h >= 0,
        ;
    }
}

proof fn lemma_cell_in_cells(
    n: nat,
    today: int,
    events: Seq<PlacedView>,
    i: int,
    k: int,
) -> (j: int)
    requires
        0 <= i < n,
        0 <= k < cell(i, today, events).len(),
    ensures
        0 <= j < cells(n, today, events).len(),
        cells(n, today, events)[j] == cell(i, today, events)[k],
    decreases n,
{
    let before = cells((n - 1) as nat, today, events);
    if i == n - 1 {
        before.len() + k
    } else {
        lemma_cell_in_cells((n - 1) as nat, today, events, i, k)
    }
}

/// All that belongs to a cell is drawn.
pub proof fn law_cells_are_drawn(
    events: Seq<PlacedView>,
    weather: Option<Weather>,
    now: LocalTime,
    today: int,
    i: int,
    k: int,
)
    requires
        0 <= i < month_days(today),
        0 <= k < cell(i, today, events).len(),
    ensures
        month_view(events, weather, now, today).contains(cell(i, today, events)[k]),
{
    let all = month_view(events, weather, now, today);
    let front = title_bar(now) + weather_panel(weather) + month_heading(today);
    let j = lemma_cell_in_cells(month_days(today) as nat, today, events, i, k);
    assert(all[front.len() + j] == cell(i, today, events)[k]);
}

/// The parts of a cell before its events.
spec fn cell_front(i: int, today: int) -> Seq<DrawView> {
    let slot = weekday(month_first(today)) + i;
    let row_h = row_height(today);
    let day = month_first(today) + i;
    cell_background(slot, row_h, day == today) + cell_borders(slot, row_h) + cell_number(
        slot,
        row_h,
        day == today,
        day,
    )
}

/// Today's cell is filled with black, from border to border.
pub proof fn law_today_is_black(
    events: Seq<PlacedView>,
    weather: Option<Weather>,
    now: LocalTime,
    today: int,
)
    ensures
        ({
            let slot = weekday(month_first(today)) + date_on(today).2 - 1;
            month_view(events, weather, now, today).contains(
                DrawView::Fill {
                    shade: BLACK,
                    x: cell_x(slot),
                    y: cell_y(slot, row_height(today)),
                    width: CELL_W as int,
                    height: row_height(today) - 1,
                },
            )
        }),
{
    crate::clock::law_every_day_has_a_date(today);
    let i = date_on(today).2 - 1;
    let slot = weekday(month_first(today)) + i;
    law_cells_are_drawn(events, weather, now, today, i, 0);
    assert(cell(i, today, events)[0] == cell_background(slot, row_height(today), true)[0]);
}

/// An event of the month which is among the first of its day that fit is drawn: its line
/// stands in the cell of its day, below those of the earlier events.
pub proof fn law_events_are_drawn(
    events: Seq<PlacedView>,
    weather: Option<Weather>,
    now: LocalTime,
    today: int,
    i: int,
    k: int,
)
    requires
        0 <= i < month_days(today),
        0 <= k < events_on(events, month_first(today) + i).len(),
        k < line_count(row_height(today)),
    ensures
        ({
            let slot = weekday(month_first(today)) + i;
            month_view(events, weather, now, today).contains(
                DrawView::Text {
                    shade: if month_first(today) + i == today {
                        WHITE
                    } else {
                        30
                    },
                    x: cell_x(slot) + 2,
                    y: cell_y(slot, row_height(today)) + 17 + k * LINE_H,
                    size: 10,
                    bold: false,
                    text: short_label(
                        events_on(events, month_first(today) + i)[k],
                        MAX_CHARS as int,
                    ),
                },
            )
        }),
{
    let slot = weekday(month_first(today)) + i;
    let day = month_first(today) + i;
    let front = cell_front(i, today);
    let part = cell_events(slot, row_height(today), day == today, events_on(events, day));
    let at = front.len() + k;
    assert(cell(i, today, events) == front + part);
    assert(cell(i, today, events)[at] == part[k]);
    law_cells_are_drawn(events, weather, now, today, i, at);
}

/// No event of the month goes unmentioned: where not all of a day have a line of their own,
/// the cell counts those from its last line on, and the lines above that one and the count
/// together make up all events of the day.
pub proof fn law_hidden_events_are_counted(
    events: Seq<PlacedView>,
    weather: Option<Weather>,
    now: LocalTime,
    today: int,
    i: int,
)
    requires
        0 <= i < month_days(today),
        events_on(events, month_first(today) + i).len() > line_count(row_height(today)),
    ensures
        ({
            let slot = weekday(month_first(today)) + i;
            let lines = line_count(row_height(today));
            let count = events_on(events, month_first(today) + i).len();
            let hidden = (count - lines + 1) as nat;
            &&& (lines - 1) + hidden == count
            &&& month_view(events, weather, now, today).contains(
                DrawView::Text {
                    shade: if month_first(today) + i == today {
                        200
                    } else {
                        DARK_GRAY
                    },
                    x: cell_x(slot) + 2,
                    y: cell_y(slot, row_height(today)) + 17 + (lines - 1) * LINE_H,
                    size: 10,
                    bold: false,
                    text: "+"@ + decimal(hidden) + " more"@,
                },
            )
        }),
{
    lemma_grid_shape(today, i);
    let slot = weekday(month_first(today)) + i;
    let day = month_first(today) + i;
    let lines = line_count(row_height(today));
    let front = cell_front(i, today);
    let part = cell_events(slot, row_height(today), day == today, events_on(events, day));
    let at = front.len() + lines;
    assert(cell(i, today, events) == front + part);
    assert(cell(i, today, events)[at] == part[lines]);
    law_cells_are_drawn(events, weather, now, today, i, at);
}

/// A cell has as many lines for events as its height allows.
pub proof fn law_lines_fill_the_cell(row_h: int)
    requires
        row_h >= 17,
    ensures
        17 + line_count(row_h) * LINE_H <= row_h < 17 + (line_count(row_h) + 1) * LINE_H,
{
}

proof fn lemma_cell_on_display(i: int, today: int, events: Seq<PlacedView>, k: int)
    requires
        0 <= i < month_days(today),
        0 <= k < cell(i, today, events).len(),
    ensures
        on_display(cell(i, today, events)[k]),
{
    lemma_grid_shape(today, i);
    let slot = weekday(month_first(today)) + i;
    let row_h = row_height(today);
    let day = month_first(today) + i;
    let a = cell_background(slot, row_h, day == today);
    let b = cell_borders(slot, row_h);
    let c = cell_number(slot, row_h, day == today, day);
    let d = cell_events(slot, row_h, day == today, events_on(events, day));
    let all = a + b + c + d;
    assert(cell(i, today, events) == all);
    assert(LEFT <= cell_x(slot) <= LEFT + 6 * CELL_W);
    let row = slot / 7;
    let rows = row_count(today);
    assert(0 <= row * row_h && row * row_h + row_h <= rows * row_h) by (nonlinear_arith)
        requires
            0 <= row < rows,
            0 <= row_h,
    ;
    assert(GRID_Y <= cell_y(slot, row_h) && cell_y(slot, row_h) + row_h <= GRID_Y + GRID_H);
    law_lines_fill_the_cell(row_h);
    if k < a.len() {
        assert(all[k] == a[k]);
    } else if k < a.len() + b.len() {
        assert(all[k] == b[k - a.len()]);
    } else if k < a.len() + b.len() + c.len() {
        assert(all[k] == c[k - a.len() - b.len()]);
    } else {
        let i = k - a.len() - b.len() - c.len();
        assert(all[k] == d[i]);
    }
}

proof fn lemma_cells_on_display(n: nat, today: int, events: Seq<PlacedView>, j: int)
    requires
        n <= month_days(today),
        0 <= j < cells(n, today, events).len(),
    ensures
        on_display(cells(n, today, events)[j]),
    decreases n,
{
    let before = cells((n - 1) as nat, today, events);
    if j < before.len() {
        lemma_cells_on_display((n - 1) as nat, today, events, j);
    } else {
        lemma_cell_on_display(n - 1, today, events, j - before.len());
    }
}

proof fn lemma_chart_on_display(w: Weather, n: nat, j: int)
    requires
        w.wf(),
        n <= chart_length(w),
        0 <= j < chart(w, n).len(),
    ensures
        on_display(chart(w, n)[j]),
    decreases n,
{
    let before = chart(w, (n - 1) as nat);
    if j < before.len() {
        lemma_chart_on_display(w, (n - 1) as nat, j);
    } else {
        let bar = chart_bar(n - 1, w.forecast.hourly@[n - 1], w.bars@[n - 1]);
        assert(chart(w, n)[j] == bar[j - before.len()]);
    }
}

proof fn lemma_panel_on_display(weather: Option<Weather>, j: int)
    requires
        weather matches Some(w) ==> w.wf(),
        0 <= j < weather_panel(weather).len(),
    ensures
        on_display(weather_panel(weather)[j]),
{
    if let Some(w) = weather {
        let a = present_weather(w) + weather_details(w);
        let b = chart(w, chart_length(w));
        if j < a.len() {
            assert(weather_panel(weather)[j] == a[j]);
        } else if j < a.len() + b.len() {
            assert(weather_panel(weather)[j] == b[j - a.len()]);
            lemma_chart_on_display(w, chart_length(w), j - a.len());
        }
    }
}

/// Whatever the events and the weather, everything is drawn on the display. Only the line
/// right of the weather ends just below it.
pub proof fn law_drawing_fits(
    events: Seq<PlacedView>,
    weather: Option<Weather>,
    now: LocalTime,
    today: int,
    j: int,
)
    requires
        weather matches Some(w) ==> w.wf(),
        0 <= j < month_view(events, weather, now, today).len(),
    ensures
        on_display(month_view(events, weather, now, today)[j]) || month_view(
            events,
            weather,
            now,
            today,
        )[j] == (DrawView::Line {
            shade: LIGHT_GRAY,
            x0: 280,
            y0: 60,
            x1: 280,
            y1: HEIGHT as int,
        }),
{
    crate::clock::law_every_day_has_a_date(today);
    let all = month_view(events, weather, now, today);
    let a = title_bar(now);
    let b = weather_panel(weather);
    let c = month_heading(today);
    let d = cells(month_days(today) as nat, today, events);
    let e = footer(now);
    assert(all == a + b + c + d + e);
    let (na, nb, nc) = (a.len() as int, a.len() + b.len(), a.len() + b.len() + c.len());
    if j < na {
        assert(all[j] == a[j]);
    } else if j < nb {
        assert(all[j] == b[j - na]);
        lemma_panel_on_display(weather, j - na);
    } else if j < nc {
        assert(all[j] == c[j - nb]);
        if 2 <= j - nb < 9 {
            assert(c[j - nb] == weekday_row(7)[j - nb - 2]);
        }
    } else if j < nc + d.len() {
        assert(all[j] == d[j - nc]);
        lemma_cells_on_display(month_days(today) as nat, today, events, j - nc);
    } else {
        assert(all[j] == e[j - nc - d.len()]);
    }
}

/// Encodes an image as a one-bit BMP file, the brighter half of the shades as white, with the
/// rows from the top down.
pub fn encode_bmp_1bit(img: &GrayImage) -> (r: Vec<u8>)
    requires
        img.wf(),
        file_size(img.width as int, img.height as int) <= u32::MAX,
        img.width <= u32::MAX - 31,
        img.height != 0x8000_0000,
    ensures
        r@ == bmp_top_down(
            img.width as int,
            img.height as int,
            |x: int, y: int| img.at(x, y) >= 128,
        ),
{
    let n: usize = img.pixels.len();
    let mut white: Vec<bool> = Vec::new();
    let mut i: usize = 0;
    while i < n
        invariant
            n == img.pixels.len(),
            i <= n,
            white@ == Seq::new(i as nat, |j: int| img.pixels@[j] >= 128),
        decreases n - i,
    {
        white.push(img.pixels[i] >= 128);
        assert(white@ =~= Seq::new((i + 1) as nat, |j: int| img.pixels@[j] >= 128));
        i += 1;
    }
    let total: usize = row_len(img.width);
    let data: usize = total * (img.height as usize);
    let stated: u32 = ((0x1_0000_0000u64 - img.height as u64) % 0x1_0000_0000u64) as u32;
    let mut out: Vec<u8> = header(img.width, img.height, stated, data);
    push_rows(&mut out, &white, img.width, img.height, false);
    proof {
        let w = img.width as int;
        let h = img.height as int;
        let bit = |x: int, y: int| img.at(x, y) >= 128;
        lemma_stated_height(w, h, stated as int);
        let stored = |r: int, x: int| white@[offset(w, x, stored_row(false, h, r))];
        let wanted = |r: int, x: int| bit(x, r);
        assert forall|r: int, x: int| 0 <= r < h && 0 <= x < w implies #[trigger] stored(r, x)
            == wanted(r, x) by {
            lemma_offset_bounds(w, h, x, r);
        }
        lemma_same_rows(stored, wanted, w, h as nat);
    }
    out
}

/// The month in UTC of a point in time, from its first second to the first one of the month
/// after it; the span whose events are fetched. There is none where the calendar does not
/// reach so far.
pub fn fetch_window(now: UtcTime) -> (r: Option<(UtcTime, UtcTime)>)
    ensures
        r is Some <==> month_fits(day_of(now.secs as int)),
        r matches Some((from, to)) ==> {
            let day = day_of(now.secs as int);
            &&& from == (UtcTime { secs: start_of(month_first(day)) as i64, nanos: 0 })
            &&& to == (UtcTime {
                secs: start_of(month_first(day) + month_days(day)) as i64,
                nanos: 0,
            })
        },
{
    let day: i32 = match now.utc_day() {
        Some(day) => day,
        None => {
            return None;
        },
    };
    match month_around(day) {
        Some((first, next)) => Some((day_start(first), day_start(next))),
        None => None,
    }
}

/// The line for an event with a time of day starts with that time: two digits that read back to
/// its hour, a colon, two that read back to its minute, and a space. As much of the title
/// follows as fits on the line, from its start.
pub proof fn law_label_starts_with_the_time(e: PlacedView, max: int)
    requires
        !e.all_day,
        e.at.hour < 24,
        e.at.minute < 60,
    ensures
        ({
            let label = short_label(e, max);
            let room = if max < 6 {
                0
            } else {
                max - 6
            };
            &&& label.len() == 6 + if e.summary.len() < room {
                e.summary.len() as int
            } else {
                room
            }
            &&& 10 * (label[0] as int - '0' as int) + (label[1] as int - '0' as int) == e.at.hour
            &&& label[2] == ':'
            &&& 10 * (label[3] as int - '0' as int) + (label[4] as int - '0' as int) == e.at.minute
            &&& label[5] == ' '
            &&& forall|i: int| 6 <= i < label.len() ==> #[trigger] label[i] == e.summary[i - 6]
        }),
        can_label(e, max),
{
    crate::clock::law_time_of_day_reads_back(e.at.hour as int, e.at.minute as int, 0);
}

/// The line for a whole day is the title, where that fits. Of a longer one an ellipsis takes the
/// place of the last character that would fit, which has to be one of ASCII.
pub proof fn law_whole_day_labels(e: PlacedView, max: int)
    requires
        e.all_day,
        0 < max,
    ensures
        e.summary.len() <= max ==> short_label(e, max) == e.summary && can_label(e, max),
        e.summary.len() > max ==> {
            let label = short_label(e, max);
            &&& label.len() == max
            &&& label.last() == '…'
            &&& label.drop_last() == e.summary.take(max - 1)
            &&& can_label(e, max) <==> (e.summary[max - 1] as int) < 128
        },
{
    reveal_strlit("…");
    if e.summary.len() > max {
        assert(short_label(e, max).drop_last() =~= e.summary.take(max - 1));
    }
}

/// The weeks that the month touches share the height of the grid, and the lines for events the
/// height of a row below the number of the day.
pub proof fn law_rows_share_the_height(today: int)
    ensures
        ({
            let before = weekday(month_first(today));
            let days = month_days(today);
            let rows = row_count(today);
            let height = row_height(today);
            &&& 7 * (rows - 1) < before + days <= 7 * rows
            &&& rows * height <= 340 < rows * (height + 1)
            &&& 17 + 11 * line_count(height) <= height < 17 + 11 * (line_count(height) + 1)
        }),
{
    lemma_grid_shape(today, 0);
    let rows = row_count(today);
    let height = row_height(today);
    vstd::arithmetic::div_mod::lemma_fundamental_div_mod(340, rows);
    assert(rows * height <= 340 < rows * (height + 1)) by (nonlinear_arith)
        requires
            340 == rows * height + 340int % rows,
            0 <= 340int % rows < rows,
    ;
}

/// The month can be drawn if and only if the calendar reaches its end, and a line can be made
/// for every event of it that has one.
pub proof fn law_when_the_month_can_be_drawn(events: Seq<PlacedView>, today: int)
    ensures
        can_draw(events, today) <==> month_fits(today) && forall|i: int, k: int|
            0 <= i < month_days(today) && 0 <= k < events_on(events, month_first(today) + i).len()
                && k < line_count(row_height(today)) ==> can_label(
                #[trigger] events_on(events, month_first(today) + i)[k],
                11,
            ),
{
    let h = row_height(today);
    lemma_grid_shape(today, 0);
    if can_draw(events, today) {
        assert forall|i: int, k: int|
            0 <= i < month_days(today) && 0 <= k < events_on(events, month_first(today) + i).len()
                && k < line_count(h) implies can_label(
            #[trigger] events_on(events, month_first(today) + i)[k],
            11,
        ) by {
            assert(can_label_all(h, events_on(events, month_first(today) + i)));
        }
    }
    if month_fits(today) && forall|i: int, k: int|
        0 <= i < month_days(today) && 0 <= k < events_on(events, month_first(today) + i).len() && k
            < line_count(h) ==> can_label(
            #[trigger] events_on(events, month_first(today) + i)[k],
            11,
        ) {
        assert forall|i: int| 0 <= i < month_days(today) implies can_label_all(
            h,
            #[trigger] events_on(events, month_first(today) + i),
        ) by {
            let of_day = events_on(events, month_first(today) + i);
            assert forall|k: int| 0 <= k < lines_shown(h, of_day.len()) implies can_label(
                #[trigger] of_day[k],
                MAX_CHARS as int,
            ) by {
                assert(can_label(events_on(events, month_first(today) + i)[k], 11));
            }
        }
    }
}

/// At the top stand the date and the time, white on black, and at the bottom the time of the
/// drawing and the name of the program. Between them come the weather, the heading of the month
/// and the cells of its days, one after the other, and nothing else.
pub proof fn law_parts_of_the_view(
    events: Seq<PlacedView>,
    weather: Option<Weather>,
    now: LocalTime,
    today: int,
    n: nat,
)
    ensures
        ({
            let view = month_view(events, weather, now, today);
            let panel = weather_panel(weather);
            let days = cells(month_days(today) as nat, today, events);
            let end = view.len() - 3;
            &&& view.len() == 3 + panel.len() + 10 + days.len() + 3
            &&& view[0] == (DrawView::Fill { shade: 0, x: 0, y: 0, width: 800, height: 56 })
            &&& view[1] == (DrawView::Text {
                shade: 255,
                x: 20,
                y: 12,
                size: 30,
                bold: true,
                text: now.written_out(),
            })
            &&& view[2] == (DrawView::Line { shade: 80, x0: 0, y0: 56, x1: 800, y1: 56 })
            &&& view.subrange(3, 3 + panel.len() as int) == panel
            &&& view.subrange(3 + panel.len() as int, 13 + panel.len() as int) == month_heading(
                today,
            )
            &&& view.subrange(13 + panel.len() as int, end) == days
            &&& view[end] == (DrawView::Line { shade: 200, x0: 0, y0: 456, x1: 800, y1: 456 })
            &&& view[end + 1] == (DrawView::Text {
                shade: 80,
                x: 20,
                y: 460,
                size: 14,
                bold: false,
                text: "Updated "@ + hour_minute_second(
                    now.hour as int,
                    now.minute as int,
                    now.second as int,
                ),
            })
            &&& view[end + 2] == (DrawView::Text {
                shade: 80,
                x: 640,
                y: 460,
                size: 14,
                bold: false,
                text: "trmnl-display v0.1"@,
            })
            &&& cells(0, today, events).len() == 0
            &&& cells(n + 1, today, events) == cells(n, today, events) + cell(
                n as int,
                today,
                events,
            )
        }),
{
    let view = month_view(events, weather, now, today);
    let a = title_bar(now);
    let b = weather_panel(weather);
    let c = month_heading(today);
    let d = cells(month_days(today) as nat, today, events);
    let e = footer(now);
    assert(view == a + b + c + d + e);
    let nb = b.len() as int;
    assert(view.subrange(3, 3 + nb) =~= b);
    assert(view.subrange(3 + nb, 13 + nb) =~= c);
    assert(view.subrange(13 + nb, view.len() - 3) =~= d);
    assert(view[0] == a[0] && view[1] == a[1] && view[2] == a[2]);
    let end = view.len() - 3;
    assert(view[end] == e[0] && view[end + 1] == e[1] && view[end + 2] == e[2]);
}

/// The heading: the line right of the weather, the name of the month and its year, the names of
/// the weekdays, each in the middle of its column, and a line below them.
pub proof fn law_heading(today: int, i: int)
    requires
        0 <= i < 7,
    ensures
        ({
            let h = month_heading(today);
            &&& h.len() == 10
            &&& h[0] == (DrawView::Line { shade: 200, x0: 280, y0: 60, x1: 280, y1: 480 })
            &&& h[1] == (DrawView::Text {
                shade: 0,
                x: 296,
                y: 62,
                size: 22,
                bold: true,
                text: month_and_year(today),
            })
            &&& h[2 + i] == (DrawView::Text {
                shade: 80,
                x: 296 + 72 * i + 28,
                y: 90,
                size: 15,
                bold: true,
                text: seq!["Mo"@, "Tu"@, "We"@, "Th"@, "Fr"@, "Sa"@, "Su"@][i],
            })
            &&& h[9] == (DrawView::Line { shade: 200, x0: 296, y0: 108, x1: 800, y1: 108 })
        }),
{
    assert(month_heading(today)[2 + i] == weekday_row(7)[i]);
}

/// The weather: the temperature, the sky in words, the temperature that is felt, humidity, wind
/// and chance of rain; a bar for each hour, eight at most; and what they are. Or that there is
/// none.
pub proof fn law_weather_panel(w: Weather, i: int)
    requires
        w.wf(),
    ensures
        weather_panel(None) == seq![
            DrawView::Text {
                shade: 80,
                x: 20,
                y: 90,
                size: 22,
                bold: false,
                text: "Weather unavailable"@,
            },
        ],
        ({
            let p = weather_panel(Some(w));
            let hours = w.forecast.hourly@;
            let n: int = if hours.len() < 8 {
                hours.len() as int
            } else {
                8
            };
            &&& p.len() == 6 + 3 * n + 1
            &&& p[0] == (DrawView::Text {
                shade: 0,
                x: 20,
                y: 70,
                size: 72,
                bold: true,
                text: w.temperature@ + "°C"@,
            })
            &&& p[1] == (DrawView::Text {
                shade: 0,
                x: 20,
                y: 148,
                size: 24,
                bold: false,
                text: w.forecast.condition@,
            })
            &&& p[2] == (DrawView::Text {
                shade: 80,
                x: 20,
                y: 178,
                size: 20,
                bold: false,
                text: "Feels "@ + w.feels_like@ + "°C"@,
            })
            &&& p[3] == (DrawView::Text {
                shade: 0,
                x: 20,
                y: 210,
                size: 20,
                bold: false,
                text: "💧 "@ + decimal(w.forecast.humidity as nat) + "% humidity"@,
            })
            &&& p[4] == (DrawView::Text {
                shade: 0,
                x: 20,
                y: 240,
                size: 20,
                bold: false,
                text: "💨 "@ + w.wind@ + " km/h wind"@,
            })
            &&& p[5] == (DrawView::Text {
                shade: 0,
                x: 20,
                y: 270,
                size: 20,
                bold: false,
                text: "☔ "@ + decimal(w.forecast.precip_chance as nat) + "% precip"@,
            })
            &&& 0 <= i < n ==> {
                &&& p[6 + 3 * i] == (DrawView::Fill {
                    shade: if hours[i].precip_chance > 50 {
                        80
                    } else {
                        160
                    },
                    x: 20 + 32 * i,
                    y: 324 - w.bars@[i].rise,
                    width: 26,
                    height: w.bars@[i].rise + 6,
                })
                &&& p[7 + 3 * i] == (DrawView::Text {
                    shade: 0,
                    x: 22 + 32 * i,
                    y: 334,
                    size: 16,
                    bold: false,
                    text: if hours[i].hour < 10 {
                        "0"@ + decimal(hours[i].hour as nat)
                    } else {
                        decimal(hours[i].hour as nat)
                    },
                })
                &&& p[8 + 3 * i] == (DrawView::Text {
                    shade: 0,
                    x: 20 + 32 * i,
                    y: 306 - w.bars@[i].rise,
                    size: 15,
                    bold: false,
                    text: w.bars@[i].temperature@,
                })
            }
            &&& p[6 + 3 * n] == (DrawView::Text {
                shade: 80,
                x: 20,
                y: 358,
                size: 16,
                bold: false,
                text: "Next 8 hours"@,
            })
        }),
{
    let p = weather_panel(Some(w));
    let n = chart_length(w);
    let a = present_weather(w);
    let b = weather_details(w);
    let c = chart(w, n);
    lemma_chart_length(w, n);
    assert(p.drop_last() =~= a + b + c);
    assert(p[0] == a[0] && p[1] == a[1] && p[2] == a[2]);
    assert(p[3] == b[0] && p[4] == b[1] && p[5] == b[2]);
    if 0 <= i < n {
        lemma_chart_at(w, n, i);
        let bar = chart_bar(i, w.forecast.hourly@[i], w.bars@[i]);
        assert(p[6 + 3 * i] == c[3 * i] && p[7 + 3 * i] == c[3 * i + 1] && p[8 + 3 * i] == c[3 * i
            + 2]);
    }
}

proof fn lemma_chart_length(w: Weather, n: nat)
    ensures
        chart(w, n).len() == 3 * n,
    decreases n,
{
    if n > 0 {
        lemma_chart_length(w, (n - 1) as nat);
    }
}

proof fn lemma_chart_at(w: Weather, n: nat, i: int)
    requires
        0 <= i < n,
    ensures
        ({
            let bar = chart_bar(i, w.forecast.hourly@[i], w.bars@[i]);
            &&& chart(w, n).len() == 3 * n
            &&& chart(w, n)[3 * i] == bar[0]
            &&& chart(w, n)[3 * i + 1] == bar[1]
            &&& chart(w, n)[3 * i + 2] == bar[2]
        }),
    decreases n,
{
    lemma_chart_length(w, n);
    lemma_chart_length(w, (n - 1) as nat);
    if i < n - 1 {
        lemma_chart_at(w, (n - 1) as nat, i);
    }
}

/// A cell, 72 pixels wide and as high as its row, in its week and under its weekday: filled with
/// black if it is today's and tinted at the weekend; the line below it and, but for the last
/// column, the one on its right; the day of the month; a line of text for each event of the day,
/// as many as fit; and where there are more, how many do not fit above the last line.
pub proof fn law_cell_contents(i: int, today: int, events: Seq<PlacedView>, k: int)
    requires
        0 <= i < month_days(today),
    ensures
        ({
            let c = cell(i, today, events);
            let day = month_first(today) + i;
            let slot = weekday(month_first(today)) + i;
            let height = row_height(today);
            let room = line_count(height);
            let of_day = events_on(events, day);
            let n = of_day.len();
            let x = 296 + slot % 7 * 72;
            let y = 112 + slot / 7 * height;
            let weekend = slot % 7 >= 5;
            let filled: int = if day == today || weekend {
                1
            } else {
                0
            };
            let borders: int = if slot % 7 == 6 {
                1
            } else {
                2
            };
            let lines: int = if n < room {
                n as int
            } else {
                room
            };
            let front = filled + borders + 1;
            &&& c.len() == front + lines + if n > room {
                1int
            } else {
                0
            }
            &&& day == today || weekend ==> c[0] == (DrawView::Fill {
                shade: if day == today {
                    0
                } else {
                    245
                },
                x,
                y,
                width: 72,
                height: height - 1,
            })
            &&& c[filled] == (DrawView::Line {
                shade: 200,
                x0: x,
                y0: y + height - 1,
                x1: x + 72,
                y1: y + height - 1,
            })
            &&& slot % 7 < 6 ==> c[filled + 1] == (DrawView::Line {
                shade: 200,
                x0: x + 71,
                y0: y,
                x1: x + 71,
                y1: y + height - 1,
            })
            &&& c[filled + borders] == (DrawView::Text {
                shade: if day == today {
                    255
                } else if weekend {
                    80
                } else {
                    0
                },
                x: x + 2,
                y: y + 2,
                size: 13,
                bold: true,
                text: decimal((i + 1) as nat),
            })
            &&& 0 <= k < lines ==> c[front + k] == (DrawView::Text {
                shade: if day == today {
                    255
                } else {
                    30
                },
                x: x + 2,
                y: y + 17 + 11 * k,
                size: 10,
                bold: false,
                text: short_label(of_day[k], 11),
            })
            &&& n > room ==> c[front + room] == (DrawView::Text {
                shade: if day == today {
                    200
                } else {
                    80
                },
                x: x + 2,
                y: y + 17 + 11 * (room - 1),
                size: 10,
                bold: false,
                text: "+"@ + decimal((n - room + 1) as nat) + " more"@,
            })
        }),
{
    lemma_grid_shape(today, i);
    crate::clock::law_month_days_in_order(today, i);
    let day = month_first(today) + i;
    let slot = weekday(month_first(today)) + i;
    let height = row_height(today);
    let room = line_count(height);
    let a = cell_background(slot, height, day == today);
    let b = cell_borders(slot, height);
    let c = cell_number(slot, height, day == today, day);
    let of_day = events_on(events, day);
    let d = cell_events(slot, height, day == today, of_day);
    let all = cell(i, today, events);
    assert(all == a + b + c + d);
    let (na, nb) = (a.len() as int, b.len() as int);
    let front = na + nb + 1;
    if na == 1 {
        assert(all[0] == a[0]);
    }
    assert(all[na] == b[0]);
    if slot % 7 < 6 {
        assert(all[na + 1] == b[1]);
    }
    assert(all[na + nb] == c[0]);
    if 0 <= k < of_day.len() && k < room {
        assert(all[front + k] == d[k]);
    }
    if of_day.len() > room {
        assert(all[front + room] == d[room]);
    }
}

} // verus!
