//! The four-week view: a grid of 28 days, from the Monday of the current week on.

use crate::agenda::{
    event_label, events_on, group_by_day, lemma_listed_events, listed, make_label, placed_views,
    places_on, PlacedEvent, PlacedView,
};
use crate::calendar::CalendarEvent;
use crate::clock::{
    clock_at, date_of, date_on, hour_minute_second, in_calendar, law_local_clock_is_ahead,
    lemma_date_on, lemma_reading_wf, local_reading, weekday, weekday_of, zone_offset, LocalTime,
    UtcTime, Zone, MAX_DAY, MIN_DAY,
};
use crate::draw::{
    drawing, on_display, push_fill, push_line, push_text, DrawCmd, DrawView, BLACK, DARK_GRAY,
    HEIGHT, LIGHT_GRAY, WHITE, WIDTH,
};
use crate::text::{decimal, push_decimal};
use std::collections::HashMap;
use vstd::prelude::*;
use vstd::string::*;

verus! {

/// The width of a column: a seventh of the display.
pub const CELL_W: i32 = 114;

/// Where the grid starts, below the names of the weekdays.
pub const GRID_Y: i32 = 22;

/// The height of a row: a quarter of what is left above the footer.
pub const ROW_H: i32 = 109;

/// The height of one line in a cell.
pub const LINE_H: i32 = 12;

/// The lines that fit in a cell below the number of the day.
pub const MAX_LINES: usize = 7;

/// The characters that fit on a line.
pub const MAX_CHARS: usize = 18;

pub const DAYS: i32 = 28;

pub open spec fn weekday_label(i: int) -> Seq<char> {
    if i == 0 {
        "Mon"@
    } else if i == 1 {
        "Tue"@
    } else if i == 2 {
        "Wed"@
    } else if i == 3 {
        "Thu"@
    } else if i == 4 {
        "Fri"@
    } else if i == 5 {
        "Sat"@
    } else {
        "Sun"@
    }
}

/// The first `n` names of weekdays above the columns.
pub open spec fn weekday_row(n: nat) -> Seq<DrawView> {
    Seq::new(
        n,
        |i: int|
            DrawView::Text {
                shade: if i >= 5 {
                    DARK_GRAY
                } else {
                    BLACK
                },
                x: i * CELL_W + CELL_W / 2 - 12,
                y: 2,
                size: 15,
                bold: true,
                text: weekday_label(i),
            },
    )
}

/// The names of the weekdays and the line below them.
pub open spec fn heading() -> Seq<DrawView> {
    weekday_row(7).push(
        DrawView::Line { shade: DARK_GRAY, x0: 0, y0: 20, x1: WIDTH as int, y1: 20 },
    )
}

/// The first day of the grid: the Monday of the week of `today`.
pub open spec fn week_start(today: int) -> int {
    today - weekday(today)
}

pub open spec fn cell_x(index: int) -> int {
    index % 7 * CELL_W
}

pub open spec fn cell_y(index: int) -> int {
    GRID_Y + index / 7 * ROW_H
}

pub open spec fn is_weekend(index: int) -> bool {
    index % 7 >= 5
}

/// The background of a cell, which only today has.
pub open spec fn cell_background(index: int, is_today: bool) -> Seq<DrawView> {
    if is_today {
        seq![
            DrawView::Fill {
                shade: BLACK,
                x: cell_x(index),
                y: cell_y(index),
                width: CELL_W as int,
                height: ROW_H - 1,
            },
        ]
    } else {
        Seq::empty()
    }
}

/// The line below a cell, and the one on its right but for the last column.
pub open spec fn cell_borders(index: int) -> Seq<DrawView> {
    let below = DrawView::Line {
        shade: 195,
        x0: cell_x(index),
        y0: cell_y(index) + ROW_H - 1,
        x1: cell_x(index) + CELL_W,
        y1: cell_y(index) + ROW_H - 1,
    };
    let right = DrawView::Line {
        shade: 195,
        x0: cell_x(index) + CELL_W - 1,
        y0: cell_y(index),
        x1: cell_x(index) + CELL_W - 1,
        y1: cell_y(index) + ROW_H - 1,
    };
    if index % 7 < 6 {
        seq![below, right]
    } else {
        seq![below]
    }
}

/// The day of the month in the corner of a cell.
pub open spec fn cell_number(index: int, is_today: bool, day: int) -> Seq<DrawView> {
    seq![
        DrawView::Text {
            shade: if is_today {
                WHITE
            } else if is_weekend(index) {
                DARK_GRAY
            } else {
                BLACK
            },
            x: cell_x(index) + 3,
            y: cell_y(index) + 2,
            size: 13,
            bold: true,
            text: decimal(date_on(day).2 as nat),
        },
    ]
}

/// The first `n` lines of events in a cell.
pub open spec fn event_lines(
    index: int,
    is_today: bool,
    events: Seq<PlacedView>,
    n: nat,
) -> Seq<DrawView> {
    Seq::new(
        n,
        |i: int|
            DrawView::Text {
                shade: if is_today {
                    WHITE
                } else {
                    20
                },
                x: cell_x(index) + 3,
                y: cell_y(index) + 17 + i * LINE_H,
                size: 10,
                bold: false,
                text: event_label(events[i], MAX_CHARS as int),
            },
    )
}

/// Where there are more events than lines, the number of those from the last line on,
/// drawn on that line.
pub open spec fn overflow_line(index: int, is_today: bool, count: nat) -> Seq<DrawView> {
    if count > MAX_LINES {
        seq![
            DrawView::Text {
                shade: if is_today {
                    180
                } else {
                    DARK_GRAY
                },
                x: cell_x(index) + 3,
                y: cell_y(index) + 17 + (MAX_LINES - 1) * LINE_H,
                size: 10,
                bold: false,
                text: seq!['+'] + decimal((count - MAX_LINES + 1) as nat),
            },
        ]
    } else {
        Seq::empty()
    }
}

/// What a cell says of the events of its day.
pub open spec fn cell_events(index: int, is_today: bool, events: Seq<PlacedView>) -> Seq<
    DrawView,
> {
    event_lines(
        index,
        is_today,
        events,
        if events.len() > MAX_LINES {
            MAX_LINES as nat
        } else {
            events.len()
        },
    ) + overflow_line(index, is_today, events.len())
}

/// One cell of the grid.
pub open spec fn cell(index: int, today: int, events: Seq<PlacedView>) -> Seq<DrawView> {
    let day = week_start(today) + index;
    cell_background(index, day == today) + cell_borders(index) + cell_number(
        index,
        day == today,
        day,
    ) + cell_events(index, day == today, events_on(events, day))
}

/// The first `n` cells of the grid, row by row.
pub open spec fn cells(n: nat, today: int, events: Seq<PlacedView>) -> Seq<DrawView>
    decreases n,
{
    if n == 0 {
        Seq::empty()
    } else {
        cells((n - 1) as nat, today, events) + cell(n - 1, today, events)
    }
}

/// The line above the footer, and the time of the drawing.
pub open spec fn footer(now: LocalTime) -> Seq<DrawView> {
    seq![
        DrawView::Line {
            shade: LIGHT_GRAY,
            x0: 0,
            y0: HEIGHT - 18,
            x1: WIDTH as int,
            y1: HEIGHT - 18,
        },
        DrawView::Text {
            shade: DARK_GRAY,
            x: 8,
            y: HEIGHT - 15,
            size: 12,
            bold: false,
            text: "Updated "@ + hour_minute_second(
                now.hour as int,
                now.minute as int,
                now.second as int,
            ),
        },
    ]
}

/// The four-week view.
pub open spec fn four_weeks(events: Seq<PlacedView>, now: LocalTime) -> Seq<DrawView> {
    heading() + cells(DAYS as nat, now.day as int, events) + footer(now)
}

/// All 28 days of the grid lie in the calendar.
pub open spec fn grid_fits(today: int) -> bool {
    in_calendar(week_start(today)) && in_calendar(week_start(today) + DAYS - 1)
}

fn label_of_weekday(i: i32) -> (r: String)
    requires
        0 <= i < 7,
    ensures
        r@ == weekday_label(i as int),
{
    if i == 0 {
        "Mon".to_owned()
    } else if i == 1 {
        "Tue".to_owned()
    } else if i == 2 {
        "Wed".to_owned()
    } else if i == 3 {
        "Thu".to_owned()
    } else if i == 4 {
        "Fri".to_owned()
    } else if i == 5 {
        "Sat".to_owned()
    } else {
        "Sun".to_owned()
    }
}

fn draw_heading(cmds: &mut Vec<DrawCmd>)
    ensures
        drawing(final(cmds)@) == drawing(old(cmds)@) + heading(),
{
    let ghost before = drawing(cmds@);
    let mut i: i32 = 0;
    assert(drawing(cmds@) =~= before + weekday_row(0));
    while i < 7
        invariant
            0 <= i <= 7,
            drawing(cmds@) == before + weekday_row(i as nat),
        decreases 7 - i,
    {
        let shade: u8 = if i >= 5 {
            DARK_GRAY
        } else {
            BLACK
        };
        push_text(cmds, shade, i * CELL_W + CELL_W / 2 - 12, 2, 15, true, label_of_weekday(i));
        assert(drawing(cmds@) =~= before + weekday_row((i + 1) as nat));
        i += 1;
    }
    push_line(cmds, DARK_GRAY, 0, 20, WIDTH as i32, 20);
    assert(drawing(cmds@) =~= before + heading());
}

fn draw_frame(cmds: &mut Vec<DrawCmd>, index: i32, is_today: bool, day: i32)
    requires
        0 <= index < DAYS,
        in_calendar(day as int),
    ensures
        drawing(final(cmds)@) == drawing(old(cmds)@) + cell_background(index as int, is_today)
            + cell_borders(index as int) + cell_number(index as int, is_today, day as int),
{
    let ghost before = drawing(cmds@);
    let x: i32 = index % 7 * CELL_W;
    let y: i32 = GRID_Y + index / 7 * ROW_H;
    if is_today {
        push_fill(cmds, BLACK, x, y, CELL_W as u32, ROW_H as u32 - 1);
    }
    assert(drawing(cmds@) =~= before + cell_background(index as int, is_today));
    push_line(cmds, 195, x, y + ROW_H - 1, x + CELL_W, y + ROW_H - 1);
    if index % 7 < 6 {
        push_line(cmds, 195, x + CELL_W - 1, y, x + CELL_W - 1, y + ROW_H - 1);
    }
    assert(drawing(cmds@) =~= before + cell_background(index as int, is_today) + cell_borders(
        index as int,
    ));
    let date: (i32, u32, u32) = date_of(day);
    proof {
        lemma_date_on(date.0 as int, date.1 as int, date.2 as int);
    }
    let mut number = String::new();
    push_decimal(&mut number, date.2 as u64);
    assert(number@ =~= decimal(date.2 as nat));
    let shade: u8 = if is_today {
        WHITE
    } else if index % 7 >= 5 {
        DARK_GRAY
    } else {
        BLACK
    };
    push_text(cmds, shade, x + 3, y + 2, 13, true, number);
    assert(drawing(cmds@) =~= before + cell_background(index as int, is_today) + cell_borders(
        index as int,
    ) + cell_number(index as int, is_today, day as int));
}

fn draw_events(
    cmds: &mut Vec<DrawCmd>,
    index: i32,
    is_today: bool,
    events: &Vec<PlacedEvent>,
    places: &Vec<usize>,
)
    requires
        0 <= index < DAYS,
        forall|i: int| 0 <= i < places@.len() ==> (#[trigger] places@[i]) < events@.len(),
        forall|i: int| 0 <= i < events@.len() ==> (#[trigger] events@[i]).at.wf(),
    ensures
        drawing(final(cmds)@) == drawing(old(cmds)@) + cell_events(
            index as int,
            is_today,
            places@.map_values(|i: usize| events@[i as int]@),
        ),
{
    let ghost before = drawing(cmds@);
    let ghost shown = places@.map_values(|i: usize| events@[i as int]@);
    let x: i32 = index % 7 * CELL_W + 3;
    let y: i32 = GRID_Y + index / 7 * ROW_H + 17;
    let count: usize = places.len();
    let lines: usize = if count > MAX_LINES {
        MAX_LINES
    } else {
        count
    };
    let mut i: usize = 0;
    assert(drawing(cmds@) =~= before + event_lines(index as int, is_today, shown, 0));
    while i < lines
        invariant
            0 <= index < DAYS,
            x == cell_x(index as int) + 3,
            y == cell_y(index as int) + 17,
            lines <= MAX_LINES,
            lines <= places@.len(),
            i <= lines,
            forall|i: int| 0 <= i < places@.len() ==> (#[trigger] places@[i]) < events@.len(),
            forall|i: int| 0 <= i < events@.len() ==> (#[trigger] events@[i]).at.wf(),
            shown == places@.map_values(|i: usize| events@[i as int]@),
            drawing(cmds@) == before + event_lines(index as int, is_today, shown, i as nat),
        decreases lines - i,
    {
        let label: String = make_label(&events[places[i]], MAX_CHARS);
        let shade: u8 = if is_today {
            WHITE
        } else {
            20
        };
        push_text(cmds, shade, x, y + i as i32 * LINE_H, 10, false, label);
        assert(drawing(cmds@) =~= before + event_lines(
            index as int,
            is_today,
            shown,
            (i + 1) as nat,
        ));
        i += 1;
    }
    if count > MAX_LINES {
        let mut more = String::new();
        more.push('+');
        push_decimal(&mut more, (count - MAX_LINES + 1) as u64);
        let shade: u8 = if is_today {
            180
        } else {
            DARK_GRAY
        };
        assert(more@ =~= seq!['+'] + decimal((count - MAX_LINES + 1) as nat));
        push_text(cmds, shade, x, y + (MAX_LINES as i32 - 1) * LINE_H, 10, false, more);
    }
    assert(drawing(cmds@) =~= before + cell_events(index as int, is_today, shown));
}

fn draw_footer(cmds: &mut Vec<DrawCmd>, now: &LocalTime)
    requires
        now.wf(),
    ensures
        drawing(final(cmds)@) == drawing(old(cmds)@) + footer(*now),
{
    let ghost before = drawing(cmds@);
    push_line(cmds, LIGHT_GRAY, 0, HEIGHT as i32 - 18, WIDTH as i32, HEIGHT as i32 - 18);
    let mut text: String = "Updated ".to_owned();
    text.append(now.time_of_day().as_str());
    push_text(cmds, DARK_GRAY, 8, HEIGHT as i32 - 15, 12, false, text);
    assert(drawing(cmds@) =~= before + footer(*now));
}

/// Draws the four-week view of events whose local times are known.
pub fn draw_four_weeks(events: &Vec<PlacedEvent>, now: &LocalTime) -> (r: Vec<DrawCmd>)
    requires
        now.wf(),
        grid_fits(now.day as int),
        forall|i: int| 0 <= i < events@.len() ==> (#[trigger] events@[i]).at.wf(),
    ensures
        drawing(r@) == four_weeks(placed_views(events@), *now),
{
    broadcast use vstd::std_specs::hash::group_hash_axioms;

    let ghost all = placed_views(events@);
    let today: i32 = now.day;
    let first: i32 = today - weekday_of(today);
    let table: HashMap<i32, Vec<usize>> = group_by_day(events);
    let mut cmds: Vec<DrawCmd> = Vec::new();
    draw_heading(&mut cmds);
    assert(drawing(cmds@) =~= heading() + cells(0, today as int, all));
    let none: Vec<usize> = Vec::new();
    let mut index: i32 = 0;
    while index < DAYS
        invariant
            0 <= index <= DAYS,
            all == placed_views(events@),
            first == week_start(today as int),
            grid_fits(today as int),
            none@.len() == 0,
            forall|i: int| 0 <= i < events@.len() ==> (#[trigger] events@[i]).at.wf(),
            forall|day: i32| #[trigger] listed(table@, day) == places_on(all, day as int),
            drawing(cmds@) == heading() + cells(index as nat, today as int, all),
        decreases DAYS - index,
    {
        let day: i32 = first + index;
        let is_today: bool = day == today;
        let ghost before = drawing(cmds@);
        draw_frame(&mut cmds, index, is_today, day);
        proof {
            assert(listed(table@, day) == places_on(all, day as int));
            lemma_listed_events(events@, table@, day);
        }
        let places: &Vec<usize> = match table.get(&day) {
            Some(places) => places,
            None => &none,
        };
        assert(places@.map_values(|i: usize| events@[i as int]@) =~= events_on(all, day as int));
        draw_events(&mut cmds, index, is_today, events, places);
        assert(drawing(cmds@) =~= before + cell(index as int, today as int, all));
        assert(drawing(cmds@) =~= heading() + cells((index + 1) as nat, today as int, all));
        index += 1;
    }
    draw_footer(&mut cmds, now);
    cmds
}

/// What the zone's clocks show when an event starts.
pub open spec fn start_in(e: CalendarEvent, zone: Seq<char>) -> Option<LocalTime> {
    local_reading(e.start, zone_offset(zone, e.start.secs as int))
}

/// The events with their local times, where each has one.
pub open spec fn placed_in(events: Seq<CalendarEvent>, zone: Seq<char>) -> Seq<PlacedView> {
    Seq::new(
        events.len(),
        |i: int|
            PlacedView {
                summary: events[i].summary@,
                at: start_in(events[i], zone)->0,
                all_day: events[i].all_day,
            },
    )
}

/// Every event starts in the range of the calendar.
pub open spec fn all_placed(events: Seq<CalendarEvent>, zone: Seq<char>) -> bool {
    forall|i: int| 0 <= i < events.len() ==> start_in(#[trigger] events[i], zone) is Some
}

/// Finds out when events start by the clocks of a zone; fails where one starts outside the
/// calendar.
pub fn place_events(events: &Vec<CalendarEvent>, zone: &Zone) -> (r: Option<Vec<PlacedEvent>>)
    ensures
        r is Some <==> all_placed(events@, zone@),
        r matches Some(placed) ==> placed_views(placed@) == placed_in(events@, zone@),
        r matches Some(placed) ==> forall|i: int|
            0 <= i < placed@.len() ==> (#[trigger] placed@[i]).at.wf(),
{
    let mut placed: Vec<PlacedEvent> = Vec::new();
    let n: usize = events.len();
    let mut i: usize = 0;
    while i < n
        invariant
            n == events@.len(),
            i <= n,
            placed@.len() == i,
            forall|j: int|
                0 <= j < i ==> {
                    &&& start_in(#[trigger] events@[j], zone@) == Some(placed@[j].at)
                    &&& placed@[j].summary@ == events@[j].summary@
                    &&& placed@[j].all_day == events@[j].all_day
                },
            forall|j: int| 0 <= j < i ==> (#[trigger] placed@[j]).at.wf(),
        decreases n - i,
    {
        let event: &CalendarEvent = &events[i];
        proof {
            lemma_reading_wf(event.start, zone_offset(zone@, event.start.secs as int));
        }
        match zone.read(event.start) {
            Some(at) => {
                placed.push(
                    PlacedEvent { summary: event.summary.clone(), at, all_day: event.all_day },
                );
            },
            None => {
                assert(start_in(events@[i as int], zone@) is None);
                return None;
            },
        }
        i += 1;
    }
    proof {
        assert forall|j: int| 0 <= j < n implies placed_views(placed@)[j] == #[trigger] placed_in(
            events@,
            zone@,
        )[j] by {
            assert(start_in(events@[j], zone@) == Some(placed@[j].at));
        }
        assert(placed_views(placed@) =~= placed_in(events@, zone@));
    }
    Some(placed)
}

/// Draws the four-week view at `now`, by the clocks of a zone. There is none where the
/// calendar does not reach all days of the grid, the current time or the start of an event.
pub fn render_display(events: &Vec<CalendarEvent>, now: UtcTime, zone: &Zone) -> (r: Option<
    Vec<DrawCmd>,
>)
    ensures
        r is Some <==> {
            &&& local_reading(now, zone_offset(zone@, now.secs as int)) matches Some(local)
            &&& grid_fits(local.day as int)
            &&& all_placed(events@, zone@)
        },
        r matches Some(cmds) ==> drawing(cmds@) == four_weeks(
            placed_in(events@, zone@),
            local_reading(now, zone_offset(zone@, now.secs as int))->0,
        ),
{
    let local: LocalTime = match zone.read(now) {
        Some(local) => local,
        None => {
            return None;
        },
    };
    proof {
        lemma_reading_wf(now, zone_offset(zone@, now.secs as int));
    }
    let first: i32 = local.day - weekday_of(local.day);
    if first < MIN_DAY || first > MAX_DAY - DAYS + 1 {
        return None;
    }
    match place_events(events, zone) {
        Some(placed) => Some(draw_four_weeks(&placed, &local)),
        None => None,
    }
}

/// The grid starts on a Monday, and today is in its first row.
pub proof fn law_grid_starts_on_monday(today: int)
    ensures
        weekday(week_start(today)) == 0,
        week_start(today) <= today < week_start(today) + 7,
{
}

/// The seven columns take the width of the display, the four rows its height above the footer,
/// and the lines for events the height of a cell: one pixel more for each column or row, or one
/// more line in a cell, would not fit.
pub proof fn law_grid_takes_all_room()
    ensures
        7 * CELL_W <= WIDTH < 7 * (CELL_W + 1),
        GRID_Y + 4 * ROW_H <= HEIGHT - 20 < GRID_Y + 4 * (ROW_H + 1),
        18 + MAX_LINES * LINE_H <= ROW_H < 18 + (MAX_LINES + 1) * LINE_H,
{
}

/// Each column holds the days of one weekday, the one that is named above it.
pub proof fn law_columns_are_weekdays(today: int, index: int)
    requires
        0 <= index < DAYS,
    ensures
        weekday(week_start(today) + index) == index % 7,
{
    let k = (today - 1) / 7;
    assert(week_start(today) - 1 == 7 * k);
    assert(week_start(today) + index - 1 == 7 * k + index);
}

/// Exactly one cell of the grid is that of today.
pub proof fn law_today_once(today: int, index: int)
    requires
        0 <= index < DAYS,
    ensures
        week_start(today) + index == today <==> index == weekday(today),
        0 <= weekday(today) < DAYS,
{
}

proof fn lemma_cell_in_cells(
    n: nat,
    today: int,
    events: Seq<PlacedView>,
    index: int,
    k: int,
) -> (j: int)
    requires
        0 <= index < n,
        0 <= k < cell(index, today, events).len(),
    ensures
        0 <= j < cells(n, today, events).len(),
        cells(n, today, events)[j] == cell(index, today, events)[k],
    decreases n,
{
    let before = cells((n - 1) as nat, today, events);
    if index == n - 1 {
        before.len() + k
    } else {
        lemma_cell_in_cells((n - 1) as nat, today, events, index, k)
    }
}

/// All that belongs to a cell is drawn.
pub proof fn law_cells_are_drawn(events: Seq<PlacedView>, now: LocalTime, index: int, k: int)
    requires
        0 <= index < DAYS,
        0 <= k < cell(index, now.day as int, events).len(),
    ensures
        four_weeks(events, now).contains(cell(index, now.day as int, events)[k]),
{
    let all = four_weeks(events, now);
    let j = lemma_cell_in_cells(DAYS as nat, now.day as int, events, index, k);
    assert(all[heading().len() + j] == cell(index, now.day as int, events)[k]);
}

/// An event whose day is on the grid, and which is among the first of its day that fit, is
/// drawn: its line stands in the cell of its day, below those of the earlier events.
pub proof fn law_events_are_drawn(events: Seq<PlacedView>, now: LocalTime, index: int, k: int)
    requires
        0 <= index < DAYS,
        0 <= k < events_on(events, week_start(now.day as int) + index).len(),
        k < MAX_LINES,
    ensures
        four_weeks(events, now).contains(
            DrawView::Text {
                shade: if week_start(now.day as int) + index == now.day {
                    WHITE
                } else {
                    20
                },
                x: cell_x(index) + 3,
                y: cell_y(index) + 17 + k * LINE_H,
                size: 10,
                bold: false,
                text: event_label(
                    events_on(events, week_start(now.day as int) + index)[k],
                    MAX_CHARS as int,
                ),
            },
        ),
{
    let today = now.day as int;
    let day = week_start(today) + index;
    let front = cell_background(index, day == today) + cell_borders(index) + cell_number(
        index,
        day == today,
        day,
    );
    let part = cell_events(index, day == today, events_on(events, day));
    let at = front.len() + k;
    assert(cell(index, today, events) == front + part);
    assert(cell(index, today, events)[at] == part[k]);
    law_cells_are_drawn(events, now, index, at);
}

/// An event belongs to the cell of the day on which it starts by the clocks of the zone.
pub proof fn law_event_belongs_to_its_cell(
    events: Seq<CalendarEvent>,
    zone: Seq<char>,
    i: int,
    at: LocalTime,
)
    requires
        0 <= i < events.len(),
        start_in(events[i], zone) == Some(at),
    ensures
        events_on(placed_in(events, zone), at.day as int).contains(
            PlacedView { summary: events[i].summary@, at, all_day: events[i].all_day },
        ),
{
    let placed = placed_in(events, zone);
    let day = at.day as int;
    crate::agenda::law_event_is_on_its_day(placed, i);
    let places = places_on(placed, day);
    let k = choose|k: int| 0 <= k < places.len() && places[k] == i;
    assert(events_on(placed, day)[k] == placed[i]);
}

/// No event of a day on the grid goes unmentioned: where not all have a line of their own,
/// the cell counts those from its last line on, and the lines above that one and the count
/// together make up all events of the day.
pub proof fn law_hidden_events_are_counted(
    events: Seq<PlacedView>,
    now: LocalTime,
    index: int,
)
    requires
        0 <= index < DAYS,
        events_on(events, week_start(now.day as int) + index).len() > MAX_LINES,
    ensures
        ({
            let count = events_on(events, week_start(now.day as int) + index).len();
            let hidden = (count - MAX_LINES + 1) as nat;
            &&& (MAX_LINES - 1) + hidden == count
            &&& four_weeks(events, now).contains(
                DrawView::Text {
                    shade: if week_start(now.day as int) + index == now.day {
                        180
                    } else {
                        DARK_GRAY
                    },
                    x: cell_x(index) + 3,
                    y: cell_y(index) + 17 + (MAX_LINES - 1) * LINE_H,
                    size: 10,
                    bold: false,
                    text: seq!['+'] + decimal(hidden),
                },
            )
        }),
{
    let today = now.day as int;
    let day = week_start(today) + index;
    let front = cell_background(index, day == today) + cell_borders(index) + cell_number(
        index,
        day == today,
        day,
    );
    let part = cell_events(index, day == today, events_on(events, day));
    let at = front.len() + MAX_LINES;
    assert(cell(index, today, events) == front + part);
    assert(cell(index, today, events)[at] == part[MAX_LINES as int]);
    law_cells_are_drawn(events, now, index, at);
}

/// Today's cell is filled with black, from border to border.
pub proof fn law_today_is_black(events: Seq<PlacedView>, now: LocalTime)
    ensures
        four_weeks(events, now).contains(
            DrawView::Fill {
                shade: BLACK,
                x: weekday(now.day as int) * CELL_W,
                y: GRID_Y as int,
                width: CELL_W as int,
                height: ROW_H - 1,
            },
        ),
{
    let today = now.day as int;
    let index = weekday(today);
    law_today_once(today, index);
    law_cells_are_drawn(events, now, index, 0);
    assert(cell(index, today, events)[0] == cell_background(index, true)[0]);
}

proof fn lemma_cell_on_display(index: int, today: int, events: Seq<PlacedView>, k: int)
    requires
        0 <= index < DAYS,
        0 <= k < cell(index, today, events).len(),
    ensures
        on_display(cell(index, today, events)[k]),
{
    let day = week_start(today) + index;
    let a = cell_background(index, day == today);
    let b = cell_borders(index);
    let c = cell_number(index, day == today, day);
    let d = cell_events(index, day == today, events_on(events, day));
    let all = a + b + c + d;
    assert(cell(index, today, events) == all);
    assert(0 <= cell_x(index) <= 6 * CELL_W);
    assert(GRID_Y <= cell_y(index) <= GRID_Y + 3 * ROW_H);
    if k < a.len() {
        assert(all[k] == a[k]);
    } else if k < a.len() + b.len() {
        assert(all[k] == b[k - a.len()]);
    } else if k < a.len() + b.len() + c.len() {
        assert(all[k] == c[k - a.len() - b.len()]);
    } else {
        let i = k - a.len() - b.len() - c.len();
        assert(all[k] == d[i]);
    }
}

proof fn lemma_cells_on_display(n: nat, today: int, events: Seq<PlacedView>, j: int)
    requires
        n <= DAYS,
        0 <= j < cells(n, today, events).len(),
    ensures
        on_display(cells(n, today, events)[j]),
    decreases n,
{
    let before = cells((n - 1) as nat, today, events);
    if j < before.len() {
        lemma_cells_on_display((n - 1) as nat, today, events, j);
    } else {
        lemma_cell_on_display(n - 1, today, events, j - before.len());
    }
}

/// Whatever the events, everything is drawn on the display.
pub proof fn law_drawing_fits(events: Seq<PlacedView>, now: LocalTime, j: int)
    requires
        0 <= j < four_weeks(events, now).len(),
    ensures
        on_display(four_weeks(events, now)[j]),
{
    let a = heading();
    let b = cells(DAYS as nat, now.day as int, events);
    if j < a.len() {
        assert(four_weeks(events, now)[j] == a[j]);
    } else if j < a.len() + b.len() {
        lemma_cells_on_display(DAYS as nat, now.day as int, events, j - a.len());
    } else {
        assert(four_weeks(events, now)[j] == footer(now)[j - a.len() - b.len()]);
    }
}

/// An event is placed by its start, and by nothing else of it: at what the clocks of the zone
/// show then, whatever its end is. It keeps its title and whether it takes the whole day.
pub proof fn law_events_are_placed_by_their_start(
    events: Seq<CalendarEvent>,
    zone: Seq<char>,
    i: int,
)
    requires
        0 <= i < events.len(),
    ensures
        ({
            let e = events[i];
            let ahead = zone_offset(zone, e.start.secs as int);
            let placed = placed_in(events, zone)[i];
            &&& placed_in(events, zone).len() == events.len()
            &&& placed.summary == e.summary@
            &&& placed.all_day == e.all_day
            &&& start_in(e, zone) is Some <==> local_reading(e.start, ahead) is Some
            &&& start_in(e, zone) is Some ==> {
                &&& placed.at == clock_at(e.start.secs + ahead)
                &&& (placed.at.day - 719163) * 86400 + placed.at.hour * 3600 + placed.at.minute * 60
                    + placed.at.second == e.start.secs + ahead
                &&& placed.at.hour < 24 && placed.at.minute < 60 && placed.at.second < 60
            }
        }),
        all_placed(events, zone) <==> forall|j: int|
            0 <= j < events.len() ==> start_in(#[trigger] events[j], zone) is Some,
{
    let e = events[i];
    law_local_clock_is_ahead(e.start, zone_offset(zone, e.start.secs as int));
}

/// Two events that differ only in their ends are placed alike.
pub proof fn law_ends_do_not_matter(a: CalendarEvent, b: CalendarEvent, zone: Seq<char>)
    requires
        a.start == b.start,
    ensures
        start_in(a, zone) == start_in(b, zone),
{
}

/// The grid starts on the Monday on or before today and reaches four weeks from there. It fits
/// if the calendar has all of its days.
pub proof fn law_monday_on_or_before(today: int)
    ensures
        (week_start(today) - 1) % 7 == 0,
        week_start(today) <= today <= week_start(today) + 6,
        grid_fits(today) <==> -95746129 <= week_start(today) && week_start(today) + 27 <= 95745399,
        DAYS == 28,
{
}

/// Above the grid stand the names of the weekdays, each in the middle of its column, those of
/// the weekend in grey, and a line below them.
pub proof fn law_heading(events: Seq<PlacedView>, now: LocalTime, i: int)
    requires
        0 <= i < 7,
    ensures
        ({
            let view = four_weeks(events, now);
            &&& view[i] == (DrawView::Text {
                shade: if i < 5 {
                    0
                } else {
                    80
                },
                x: 114 * i + 45,
                y: 2,
                size: 15,
                bold: true,
                text: seq!["Mon"@, "Tue"@, "Wed"@, "Thu"@, "Fri"@, "Sat"@, "Sun"@][i],
            })
            &&& view[7] == (DrawView::Line { shade: 80, x0: 0, y0: 20, x1: 800, y1: 20 })
        }),
{
    assert(heading()[i] == weekday_row(7)[i]);
    assert(four_weeks(events, now)[i] == heading()[i]);
    assert(four_weeks(events, now)[7] == heading()[7]);
}

/// Below the grid stand a line and the time of the drawing, and between the heading and that
/// nothing but the cells, one after the other.
pub proof fn law_cells_and_footer(events: Seq<PlacedView>, now: LocalTime, n: nat)
    ensures
        ({
            let view = four_weeks(events, now);
            let all = cells(28, now.day as int, events);
            &&& view.len() == 8 + all.len() + 2
            &&& view.subrange(8, view.len() - 2) == all
            &&& view[view.len() - 2] == (DrawView::Line {
                shade: 200,
                x0: 0,
                y0: 462,
                x1: 800,
                y1: 462,
            })
            &&& view[view.len() - 1] == (DrawView::Text {
                shade: 80,
                x: 8,
                y: 465,
                size: 12,
                bold: false,
                text: "Updated "@ + hour_minute_second(
                    now.hour as int,
                    now.minute as int,
                    now.second as int,
                ),
            })
            &&& cells(0, now.day as int, events).len() == 0
            &&& cells(n + 1, now.day as int, events) == cells(n, now.day as int, events) + cell(
                n as int,
                now.day as int,
                events,
            )
        }),
{
    let view = four_weeks(events, now);
    assert(view.subrange(8, view.len() - 2) =~= cells(28, now.day as int, events));
}

/// A cell, 114 pixels wide and 109 high, in its row and column: filled with black if it is
/// today's; the line below it and, but for the last column, the one on its right; the day of the
/// month; a line of text for each event of the day, seven at most; and where there are more, how
/// many do not fit above the last line.
pub proof fn law_cell_contents(index: int, today: int, events: Seq<PlacedView>, k: int)
    requires
        0 <= index < 28,
    ensures
        ({
            let c = cell(index, today, events);
            let day = week_start(today) + index;
            let of_day = events_on(events, day);
            let n = of_day.len();
            let x = index % 7 * 114;
            let y = 22 + index / 7 * 109;
            let filled: int = if day == today {
                1
            } else {
                0
            };
            let borders: int = if index % 7 == 6 {
                1
            } else {
                2
            };
            let lines: int = if n < 7 {
                n as int
            } else {
                7
            };
            let front = filled + borders + 1;
            &&& c.len() == front + lines + if n > 7 {
                1int
            } else {
                0
            }
            &&& day == today ==> c[0] == (DrawView::Fill { shade: 0, x, y, width: 114, height: 108 })
            &&& c[filled] == (DrawView::Line {
                shade: 195,
                x0: x,
                y0: y + 108,
                x1: x + 114,
                y1: y + 108,
            })
            &&& index % 7 < 6 ==> c[filled + 1] == (DrawView::Line {
                shade: 195,
                x0: x + 113,
                y0: y,
                x1: x + 113,
                y1: y + 108,
            })
            &&& c[filled + borders] == (DrawView::Text {
                shade: if day == today {
                    255
                } else if index % 7 < 5 {
                    0
                } else {
                    80
                },
                x: x + 3,
                y: y + 2,
                size: 13,
                bold: true,
                text: decimal(date_on(day).2 as nat),
            })
            &&& 0 <= k < lines ==> c[front + k] == (DrawView::Text {
                shade: if day == today {
                    255
                } else {
                    20
                },
                x: x + 3,
                y: y + 17 + 12 * k,
                size: 10,
                bold: false,
                text: event_label(of_day[k], 18),
            })
            &&& n > 7 ==> c[front + 7] == (DrawView::Text {
                shade: if day == today {
                    180
                } else {
                    80
                },
                x: x + 3,
                y: y + 89,
                size: 10,
                bold: false,
                text: "+"@ + decimal((n - 6) as nat),
            })
        }),
{
    reveal_strlit("+");
    assert("+"@ =~= seq!['+']);
    let day = week_start(today) + index;
    let a = cell_background(index, day == today);
    let b = cell_borders(index);
    let c = cell_number(index, day == today, day);
    let of_day = events_on(events, day);
    let d = cell_events(index, day == today, of_day);
    let all = cell(index, today, events);
    assert(all == a + b + c + d);
    let (na, nb) = (a.len() as int, b.len() as int);
    let front = na + nb + 1;
    let lines: int = if of_day.len() < 7 {
        of_day.len() as int
    } else {
        7
    };
    assert(all[na] == b[0]);
    if index % 7 < 6 {
        assert(all[na + 1] == b[1]);
    }
    assert(all[na + nb] == c[0]);
    if 0 <= k < lines {
        assert(all[front + k] == d[k]);
    }
    if of_day.len() > 7 {
        assert(all[front + 7] == d[7]);
    }
    if day == today {
        assert(all[0] == a[0]);
    }
}

} // verus!
