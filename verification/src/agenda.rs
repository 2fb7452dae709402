//! Events on the days of a calendar grid, and the lines that tell of them.

use crate::clock::{hour_minute, LocalTime};
use crate::text::{first_chars, take_chars};
use std::collections::HashMap;
use vstd::prelude::*;
use vstd::string::*;
use vstd::utf8::encode_utf8;

verus! {

/// An event and when it starts by the display's clock.
pub struct PlacedEvent {
    pub summary: String,
    pub at: LocalTime,
    pub all_day: bool,
}

/// An event, with its title as characters.
pub struct PlacedView {
    pub summary: Seq<char>,
    pub at: LocalTime,
    pub all_day: bool,
}

impl View for PlacedEvent {
    type V = PlacedView;

    open spec fn view(&self) -> PlacedView {
        PlacedView { summary: self.summary@, at: self.at, all_day: self.all_day }
    }
}

/// Events, with their titles as characters.
pub open spec fn placed_views(events: Seq<PlacedEvent>) -> Seq<PlacedView> {
    events.map_values(|e: PlacedEvent| e@)
}

/// The places of the events that start on a day, in order.
pub open spec fn places_on(events: Seq<PlacedView>, day: int) -> Seq<int>
    decreases events.len(),
{
    if events.len() == 0 {
        Seq::empty()
    } else if events.last().at.day == day {
        places_on(events.drop_last(), day).push(events.len() - 1)
    } else {
        places_on(events.drop_last(), day)
    }
}

/// The events that start on a day, in order.
pub open spec fn events_on(events: Seq<PlacedView>, day: int) -> Seq<PlacedView> {
    places_on(events, day).map_values(|i: int| events[i])
}

/// The places that a table holds for a day.
pub(crate) open spec fn listed(table: Map<i32, Vec<usize>>, day: i32) -> Seq<int> {
    if table.contains_key(day) {
        table[day]@.map_values(|i: usize| i as int)
    } else {
        Seq::empty()
    }
}

/// Which events start on which day.
pub(crate) fn group_by_day(events: &Vec<PlacedEvent>) -> (r: HashMap<i32, Vec<usize>>)
    ensures
        forall|day: i32| #[trigger]
            listed(r@, day) == places_on(placed_views(events@), day as int),
{
    broadcast use vstd::std_specs::hash::group_hash_axioms;

    let mut table: HashMap<i32, Vec<usize>> = HashMap::new();
    let n: usize = events.len();
    let mut i: usize = 0;
    let ghost all = placed_views(events@);
    assert(all.take(0) =~= Seq::empty());
    while i < n
        invariant
            n == events@.len(),
            all == placed_views(events@),
            i <= n,
            forall|day: i32| #[trigger]
                listed(table@, day) == places_on(all.take(i as int), day as int),
        decreases n - i,
    {
        let day: i32 = events[i].at.day;
        let ghost before = table@;
        let mut places: Vec<usize> = match table.remove(&day) {
            Some(places) => places,
            None => Vec::new(),
        };
        let ghost old_places = places@;
        places.push(i);
        table.insert(day, places);
        proof {
            assert(all.take(i + 1).drop_last() =~= all.take(i as int));
            assert forall|d: i32| #[trigger]
                listed(table@, d) == places_on(all.take(i + 1), d as int) by {
                assert(listed(before, d) == places_on(all.take(i as int), d as int));
                if d == day {
                    assert(listed(before, d) =~= old_places.map_values(|i: usize| i as int));
                    assert(listed(table@, d) =~= listed(before, d).push(i as int));
                } else {
                    assert(listed(table@, d) =~= listed(before, d));
                }
            }
        }
        i += 1;
    }
    assert(all.take(n as int) =~= all);
    table
}

/// The events of a day are events of the list that start on that day.
pub proof fn law_events_on_day(events: Seq<PlacedView>, day: int, k: int)
    requires
        0 <= k < places_on(events, day).len(),
    ensures
        0 <= places_on(events, day)[k] < events.len(),
        events[places_on(events, day)[k]].at.day == day,
        events_on(events, day)[k] == events[places_on(events, day)[k]],
        k > 0 ==> places_on(events, day)[k - 1] < places_on(events, day)[k],
    decreases events.len(),
{
    if events.len() > 0 {
        let rest = events.drop_last();
        if k < places_on(rest, day).len() {
            law_events_on_day(rest, day, k);
        } else if k > 0 {
            law_events_on_day(rest, day, k - 1);
        }
    }
}

/// The events of a day, by the places that a table lists for it.
pub(crate) proof fn lemma_listed_events(
    events: Seq<PlacedEvent>,
    table: Map<i32, Vec<usize>>,
    day: i32,
)
    requires
        listed(table, day) == places_on(placed_views(events), day as int),
    ensures
        table.contains_key(day) ==> events_on(placed_views(events), day as int)
            == table[day]@.map_values(|i: usize| events[i as int]@),
        table.contains_key(day) ==> forall|i: int|
            0 <= i < table[day]@.len() ==> (#[trigger] table[day]@[i]) < events.len(),
        !table.contains_key(day) ==> events_on(placed_views(events), day as int)
            == Seq::<PlacedView>::empty(),
{
    let all = placed_views(events);
    let places = places_on(all, day as int);
    assert forall|k: int| 0 <= k < places.len() implies 0 <= #[trigger] places[k] < all.len() by {
        law_events_on_day(all, day as int, k);
    }
    if table.contains_key(day) {
        assert forall|i: int| 0 <= i < table[day]@.len() implies (#[trigger] table[day]@[i])
            < events.len() by {
            assert(listed(table, day)[i] == table[day]@[i]);
            assert(0 <= places[i] < all.len());
        }
        assert(events_on(all, day as int) =~= table[day]@.map_values(
            |i: usize| events[i as int]@,
        )) by {
            assert forall|k: int| 0 <= k < places.len() implies all[#[trigger] places[k]]
                == events[table[day]@[k] as int]@ by {
                assert(listed(table, day)[k] == table[day]@[k]);
            }
        }
    } else {
        assert(events_on(all, day as int) =~= Seq::<PlacedView>::empty());
    }
}

/// Every event is among the events of the day on which it starts.
pub proof fn law_event_is_on_its_day(events: Seq<PlacedView>, i: int)
    requires
        0 <= i < events.len(),
    ensures
        places_on(events, events[i].at.day as int).contains(i),
    decreases events.len(),
{
    let day = events[i].at.day as int;
    let rest = events.drop_last();
    let places = places_on(events, day);
    if i == events.len() - 1 {
        assert(places[places.len() - 1] == i);
    } else {
        law_event_is_on_its_day(rest, i);
        let before = places_on(rest, day);
        let k = choose|k: int| 0 <= k < before.len() && before[k] == i;
        assert(places[k] == i);
    }
}

/// The bytes of a text in UTF-8.
pub open spec fn byte_len(s: Seq<char>) -> int {
    encode_utf8(s).len() as int
}

/// What is left of a number of characters after the time of day in front of a title.
pub open spec fn title_room(max: int) -> int {
    if max > 6 {
        max - 6
    } else {
        0
    }
}

/// A title in the room for it, with an ellipsis as the last character where it is cut off.
pub open spec fn shortened(title: Seq<char>, room: int) -> Seq<char> {
    if title.len() <= room {
        title
    } else if room <= 0 {
        Seq::empty()
    } else {
        title.take(room - 1) + "…"@
    }
}

/// The line for an event, made for `max` characters. A title that is cut off ends with an
/// ellipsis. Behind a time of day that is the last of the characters that fit. In the line of
/// a whole day it stands in place of one byte: where the kept part holds a character of
/// several bytes, no character gives way to it.
pub open spec fn event_label(e: PlacedView, max: int) -> Seq<char> {
    if !e.all_day {
        hour_minute(e.at.hour as int, e.at.minute as int) + seq![' '] + shortened(
            e.summary,
            title_room(max),
        )
    } else if e.summary.len() > max {
        first_chars(e.summary.take(max), byte_len(e.summary.take(max)) - 1) + "…"@
    } else {
        e.summary
    }
}

/// Puts a title in the room for it.
fn shorten(title: &str, room: usize) -> (r: String)
    ensures
        r@ == shortened(title@, room as int),
{
    if title.unicode_len() <= room {
        title.to_owned()
    } else if room == 0 {
        String::new()
    } else {
        let mut kept: String = take_chars(title, room - 1);
        kept.append("…");
        kept
    }
}

/// Makes the line for an event.
pub fn make_label(e: &PlacedEvent, max: usize) -> (r: String)
    requires
        e.at.wf(),
        max > 0,
    ensures
        r@ == event_label(e@, max as int),
{
    if !e.all_day {
        let mut label: String = e.at.label_prefix();
        let used: usize = label.as_str().unicode_len();
        let room: usize = if max > used {
            max - used
        } else {
            0
        };
        label.append(shorten(e.summary.as_str(), room).as_str());
        return label;
    }
    let kept: String = take_chars(e.summary.as_str(), max);
    if e.summary.as_str().unicode_len() > max {
        let bytes: usize = kept.as_str().as_bytes().len();
        proof {
            lemma_bytes_cover_chars(kept@);
        }
        let mut label: String = take_chars(kept.as_str(), bytes - 1);
        label.append("…");
        label
    } else {
        kept
    }
}

/// Each character takes at least a byte.
proof fn lemma_bytes_cover_chars(s: Seq<char>)
    ensures
        s.len() <= byte_len(s),
    decreases s.len(),
{
    broadcast use vstd::utf8::char_is_scalar;

    if s.len() > 0 {
        lemma_bytes_cover_chars(s.drop_first());
    }
}

/// A title that fits behind its time of day is shown whole. One that does not ends with an
/// ellipsis, after as much of its start as fits; the line is then just as long as it was made
/// for.
pub proof fn law_cut_titles_end_with_an_ellipsis(e: PlacedView, max: int)
    requires
        max > 6,
        !e.all_day,
    ensures
        e.summary.len() <= max - 6 ==> event_label(e, max) == hour_minute(
            e.at.hour as int,
            e.at.minute as int,
        ) + seq![' '] + e.summary,
        e.summary.len() > max - 6 ==> {
            &&& event_label(e, max).len() == max
            &&& event_label(e, max).last() == '…'
            &&& event_label(e, max).subrange(6, max - 1) == e.summary.take(max - 7)
        },
{
    reveal_strlit("…");
    if e.summary.len() > max - 6 {
        assert(event_label(e, max).subrange(6, max - 1) =~= e.summary.take(max - 7));
    }
}

/// A line is never longer than one character more than it was made for.
pub proof fn law_label_width(e: PlacedView, max: int)
    requires
        max >= 6,
    ensures
        event_label(e, max).len() <= max + 1,
        !e.all_day ==> event_label(e, max).len() <= max,
{
    reveal_strlit("…");
}

/// One event more joins the events of the day on which it starts, at the end, and those of no
/// other day.
pub proof fn law_one_event_more(events: Seq<PlacedView>, e: PlacedView, day: int)
    ensures
        events_on(Seq::<PlacedView>::empty(), day) == Seq::<PlacedView>::empty(),
        e.at.day == day ==> events_on(events.push(e), day) == events_on(events, day).push(e),
        e.at.day != day ==> events_on(events.push(e), day) == events_on(events, day),
{
    assert(events_on(Seq::<PlacedView>::empty(), day) =~= Seq::<PlacedView>::empty());
    let more = events.push(e);
    assert(more.drop_last() =~= events);
    let places = places_on(events, day);
    assert forall|k: int| 0 <= k < places.len() implies more[#[trigger] places[k]]
        == events[places[k]] by {
        law_events_on_day(events, day, k);
    }
    if e.at.day == day {
        assert(events_on(more, day) =~= events_on(events, day).push(e));
    } else {
        assert(events_on(more, day) =~= events_on(events, day));
    }
}

/// Nothing of an event is left out of its view, and nothing of a list.
pub proof fn law_placed_views_are_whole(events: Seq<PlacedEvent>, i: int)
    requires
        0 <= i < events.len(),
    ensures
        placed_views(events).len() == events.len(),
        placed_views(events)[i].summary == events[i].summary@,
        placed_views(events)[i].at == events[i].at,
        placed_views(events)[i].all_day == events[i].all_day,
{
}

/// The line for an event with a time of day starts with that time: two digits that read back to
/// its hour, a colon, two that read back to its minute, and a space.
pub proof fn law_label_starts_with_the_time(e: PlacedView, max: int)
    requires
        !e.all_day,
        e.at.hour < 24,
        e.at.minute < 60,
    ensures
        ({
            let label = event_label(e, max);
            &&& label.len() >= 6
            &&& 10 * (label[0] as int - '0' as int) + (label[1] as int - '0' as int) == e.at.hour
            &&& label[2] == ':'
            &&& 10 * (label[3] as int - '0' as int) + (label[4] as int - '0' as int) == e.at.minute
            &&& label[5] == ' '
            &&& max <= 6 ==> label.len() == 6
        }),
{
    crate::clock::law_time_of_day_reads_back(e.at.hour as int, e.at.minute as int, 0);
}

/// The line for a whole day is the title, where that fits. A longer title is cut off after
/// `max` characters, or after one less than those have bytes, and ends with an ellipsis; so of
/// one in ASCII `max - 1` characters are kept.
pub proof fn law_whole_day_labels(e: PlacedView, max: int)
    requires
        e.all_day,
        0 < max,
    ensures
        e.summary.len() <= max ==> event_label(e, max) == e.summary,
        e.summary.len() > max ==> {
            let label = event_label(e, max);
            let bytes = encode_utf8(e.summary.take(max)).len();
            &&& label.last() == '…'
            &&& label.len() == 1 + if bytes - 1 < max {
                bytes - 1
            } else {
                max
            }
            &&& label.drop_last() == e.summary.take(label.len() - 1)
        },
{
    reveal_strlit("…");
    if e.summary.len() > max {
        let kept = e.summary.take(max);
        lemma_bytes_cover_chars(kept);
        let label = event_label(e, max);
        assert(label.drop_last() =~= e.summary.take(label.len() - 1));
    }
}

} // verus!
