//! What follows from the definitions of the timeline state machine and of
//! the model: theorems that hold of every timeline and every model, proved
//! over their mathematical pictures.

use vstd::prelude::*;
use crate::fixed::clamp;
use crate::fixed::UNIT;
use crate::lookup::distinct_names;
use crate::lookup::first_named;
use crate::lookup::has_named;
use crate::lookup::lemma_first_named;
use crate::lookup::lemma_first_named_is;
use crate::lookup::Named;
use crate::model::lemma_active_index;
use crate::model::ModelView;
use crate::timeline::distinct_tracks;
use crate::timeline::elapsed;
use crate::timeline::lemma_distinct_tracks;
use crate::timeline::PlayState;
use crate::timeline::Timeline;
use crate::timeline::TimelineView;
use crate::track::occurs_between;
use crate::track::Track;

verus! {

/// An event on which the playhead stands has occurred, wherever the
/// playhead came from.
pub proof fn lemma_occurs_on_arrival(position: int, prev: int)
    ensures
        occurs_between(position, prev, position),
{
}

/// While the playhead moves forward, the events that occur are those from
/// where it was to where it is, both ends included.
pub proof fn lemma_occurs_forward(position: int, prev: int, cur: int)
    requires
        prev < cur,
    ensures
        occurs_between(position, prev, cur) <==> prev <= position <= cur,
        position != cur ==> (occurs_between(position, prev, cur) <==> prev <= position < cur),
{
}

/// When the playhead has wrapped around the end, the events that occur are
/// those behind where it was and those up to where it is.
pub proof fn lemma_occurs_wrapped(position: int, prev: int, cur: int)
    requires
        cur < prev,
    ensures
        occurs_between(position, prev, cur) <==> (position > prev || position <= cur),
        position != cur ==> (occurs_between(position, prev, cur) <==> (position > prev || position
            < cur)),
{
}

/// A playhead that has not moved passes no event but the one it stands on.
pub proof fn lemma_occurs_at_rest(position: int, cur: int)
    ensures
        occurs_between(position, cur, cur) <==> position == cur,
{
}

/// Every operation of a timeline keeps it well formed.
pub proof fn lemma_operations_keep_wf(v: TimelineView, name: Seq<char>, p: int, now: int)
    requires
        v.wf(),
        0 <= now <= u64::MAX,
    ensures
        v.rename(name).wf(),
        v.play(now).wf(),
        v.stop().wf(),
        v.seek(p, now).wf(),
        v.advance(now).wf(),
{
    match v.state {
        PlayState::Playing(started_at, start_position) => {
            lemma_playhead_bounds(v, started_at as int, start_position as int, now);
        },
        PlayState::Stopped => {},
    }
}

/// Where playback has got to is never in front of where it started.
pub proof fn lemma_playhead_bounds(v: TimelineView, started_at: int, start_position: int, now: int)
    requires
        v.wf(),
    ensures
        v.playhead(started_at, start_position, now) >= start_position,
        now <= started_at ==> v.playhead(started_at, start_position, now) == start_position,
{
    let e = elapsed(started_at, now);
    assert(e * UNIT >= 0) by (nonlinear_arith)
        requires
            e >= 0,
    ;
    vstd::arithmetic::div_mod::lemma_div_pos_is_pos(e * UNIT, v.duration);
    if now <= started_at {
        assert(e * UNIT == 0);
    }
}

/// Seeking puts the playhead at the given position limited to the interval
/// from 0 to 1: at the position itself where that lies in the interval.
pub proof fn lemma_seek_clamps(v: TimelineView, p: int, now: int)
    ensures
        0 <= v.seek(p, now).position <= UNIT,
        v.seek(p, now).position == clamp(p, 0, UNIT as int),
        0 <= p <= UNIT ==> v.seek(p, now).position == p,
        p < 0 ==> v.seek(p, now).position == 0,
        p > UNIT ==> v.seek(p, now).position == UNIT,
        v.seek(p, now).is_playing() == v.is_playing(),
{
}

/// Seeking while playing does not change the rate at which the playhead
/// advances: after a time `e` playback has gone `e / duration` beyond the
/// position sought, as it goes beyond any position it starts from.
pub proof fn lemma_seek_keeps_rate(v: TimelineView, p: int, now: int, e: int)
    requires
        v.wf(),
        v.is_playing(),
        0 <= now,
        0 <= e,
        now + e <= u64::MAX,
    ensures
        v.seek(p, now).duration == v.duration,
        v.seek(p, now).state == PlayState::Playing(now as u64, clamp(p, 0, UNIT as int) as i64),
        v.seek(p, now).playhead(now, clamp(p, 0, UNIT as int), now + e) == clamp(p, 0, UNIT as int)
            + e * UNIT / v.duration,
{
}

/// A looping timeline that plays stands, after an update behind the frame
/// gate, at the fractional part of where playback has got to, however many
/// laps that took.
pub proof fn lemma_loop_position(v: TimelineView, started_at: int, start_position: int, now: int)
    requires
        v.wf(),
        v.loop_playback,
        v.state == PlayState::Playing(started_at as u64, start_position as i64),
        0 <= started_at <= now <= u64::MAX,
        0 <= start_position <= UNIT,
        v.due(now),
    ensures
        v.advance(now).position == (start_position + (now - started_at) * UNIT / v.duration) % (
        UNIT as int),
        0 <= v.advance(now).position < UNIT,
        v.advance(now).is_playing(),
{
}

/// A timeline that does not loop never gets beyond 1; it stops exactly when
/// it arrives there; and once stopped by an update it reports no more until
/// something asks for a report.
pub proof fn lemma_one_shot(v: TimelineView, now: int, later: int)
    requires
        v.wf(),
        !v.loop_playback,
        v.is_playing(),
        0 <= now <= u64::MAX,
        v.due(now),
    ensures
        0 <= v.advance(now).position <= UNIT,
        v.advance(now).position == UNIT <==> !v.advance(now).is_playing(),
        !v.advance(now).is_playing() ==> v.advance(now).report(later).is_none()
            && v.advance(now).advance(later).position == UNIT,
        v.report(now).is_some(),
        v.report(now).unwrap().position == v.advance(now).position,
        v.report(now).unwrap().is_playing == v.advance(now).is_playing(),
{
    match v.state {
        PlayState::Playing(started_at, start_position) => {
            lemma_playhead_bounds(v, started_at as int, start_position as int, now);
        },
        PlayState::Stopped => {},
    }
}

/// The frame gate: an update that comes before a whole frame has passed
/// since the last one changes nothing and reports nothing.
pub proof fn lemma_gate_closed(v: TimelineView, now: int)
    requires
        !v.due(now),
    ensures
        v.advance(now) == v,
        v.report(now).is_none(),
{
}

/// After an update behind the frame gate at time `now`, updates report
/// nothing until a whole frame has passed, and a playing timeline reports
/// at the first update from then on, after which the frame gate is closed again.
pub proof fn lemma_one_report_per_frame(v: TimelineView, now: int, next: int)
    requires
        v.wf(),
        0 <= now <= next <= u64::MAX,
        v.due(now),
    ensures
        v.advance(now).last_updated == now,
        next - now < v.frame_duration ==> v.advance(now).report(next).is_none() && v.advance(
            now,
        ).advance(next) == v.advance(now),
        next - now >= v.frame_duration && v.advance(now).is_playing() ==> v.advance(now).report(
            next,
        ).is_some() && v.advance(now).advance(next).last_updated == next,
{
}

/// A stopped timeline reports once after a change and then keeps silent.
pub proof fn lemma_settle_report(v: TimelineView, now: int, later: int)
    requires
        v.wf(),
        !v.is_playing(),
        0 <= now <= u64::MAX,
        v.due(now),
    ensures
        v.report(now).is_some() <==> v.update_required,
        v.advance(now).position == v.position,
        v.advance(now).report(later).is_none(),
{
}

/// Asking for the selected timeline, or for one that does not exist,
/// changes nothing.
pub proof fn lemma_select_nothing(m: ModelView, name: Seq<char>)
    requires
        m.selected_timeline == Some(name) || !m.has_timeline(name),
    ensures
        m.select(name) == m,
{
}

/// Making another timeline active selects it, stops the one that was
/// active, and leaves every other timeline as it was.
pub proof fn lemma_select_stops_previous(m: ModelView, name: Seq<char>)
    requires
        m.has_timeline(name),
        m.selected_timeline != Some(name),
    ensures
        m.select(name).selected_timeline == Some(name),
        m.select(name).timelines.len() == m.timelines.len(),
        match m.active_index() {
            Some(i) => {
                &&& 0 <= i < m.timelines.len()
                &&& m.select(name).timelines[i] == m.timelines[i].stop()
                &&& !m.select(name).timelines[i].is_playing()
                &&& forall|j: int|
                    0 <= j < m.timelines.len() && j != i ==> m.select(name).timelines[j]
                        == m.timelines[j]
            },
            None => m.select(name).timelines == m.timelines,
        },
{
    lemma_active_index(m);
}

/// Only the active timeline is touched by an update.
pub proof fn lemma_update_touches_active_only(m: ModelView, now: int, j: int)
    requires
        0 <= j < m.timelines.len(),
        m.active_index() != Some(j),
    ensures
        m.advance(now).timelines.len() == m.timelines.len(),
        m.advance(now).timelines[j] == m.timelines[j],
        m.active_index().is_none() ==> m.advance(now) == m && m.report(now).is_none(),
{
    lemma_active_index(m);
}

/// A copy made at time `now` has the name, duration, frame rate and looping
/// of the timeline and the first track of each of its names; it stands
/// where the timeline stands and plays exactly if it plays.
pub proof fn lemma_rebuilt_keeps_playback(v: TimelineView, now: int)
    requires
        v.wf(),
        0 <= now <= u64::MAX,
    ensures
        v.rebuilt(now).wf(),
        v.rebuilt(now).name == v.name,
        v.rebuilt(now).duration == v.duration,
        v.rebuilt(now).fps == v.fps,
        v.rebuilt(now).loop_playback == v.loop_playback,
        v.rebuilt(now).tracks == distinct_tracks(v.tracks),
        distinct_names::<Track>(v.tracks) ==> v.rebuilt(now).tracks == v.tracks,
        v.rebuilt(now).position == v.position,
        v.rebuilt(now).is_playing() == v.is_playing(),
        v.is_playing() ==> v.rebuilt(now).state == PlayState::Playing(
            now as u64,
            v.position as i64,
        ),
{
    lemma_distinct_tracks(v.tracks);
}

/// What an incoming timeline becomes in a replacement has its name,
/// duration, frame rate and looping and the first track of each of its
/// names, whatever position or play state it came with.
pub proof fn lemma_carried_over_keeps_definition(m: ModelView, d: TimelineView, now: int)
    requires
        m.wf(),
        d.wf(),
        0 <= now <= u64::MAX,
    ensures
        m.carried_over(d, now).wf(),
        m.carried_over(d, now).name == d.name,
        m.carried_over(d, now).duration == d.duration,
        m.carried_over(d, now).fps == d.fps,
        m.carried_over(d, now).loop_playback == d.loop_playback,
        m.carried_over(d, now).tracks == distinct_tracks(d.tracks),
        distinct_names::<Track>(d.tracks) ==> m.carried_over(d, now).tracks == d.tracks,
{
    lemma_first_named::<Timeline>(m.timelines, d.name);
    let placed = d.stop().seek(m.kept_position(d.name), now);
    let started = if m.kept_playing(d.name) {
        placed.play(now)
    } else {
        placed
    };
    assert(started.wf());
    lemma_rebuilt_keeps_playback(started, now);
}

/// Replacing the timelines keeps position and playing or stopped for every
/// incoming timeline whose name a timeline of the model carries; the other
/// incoming timelines start stopped at position 0; each has the definition
/// that came in; and the timelines of the model whose name does not come in
/// are gone. This holds whatever the frame rates are and whatever position
/// or play state the incoming timelines came with.
pub proof fn lemma_replacement_keeps_playback(
    m: ModelView,
    data: Seq<TimelineView>,
    now: int,
    i: int,
)
    requires
        m.wf(),
        0 <= i < data.len(),
        data[i].wf(),
        0 <= now <= u64::MAX,
    ensures
        m.replaced(data, now).timelines.len() == data.len(),
        m.replaced(data, now).selected_timeline == m.selected_timeline,
        m.replaced(data, now).timelines[i].wf(),
        m.replaced(data, now).timelines[i].name == data[i].name,
        m.replaced(data, now).timelines[i].position == m.kept_position(data[i].name),
        m.replaced(data, now).timelines[i].is_playing() == m.kept_playing(data[i].name),
        m.replaced(data, now).timelines[i].duration == data[i].duration,
        m.replaced(data, now).timelines[i].fps == data[i].fps,
        m.replaced(data, now).timelines[i].loop_playback == data[i].loop_playback,
        m.replaced(data, now).timelines[i].tracks == distinct_tracks(data[i].tracks),
        distinct_names::<Track>(data[i].tracks) ==> m.replaced(data, now).timelines[i].tracks
            == data[i].tracks,
        match m.timeline_index(data[i].name) {
            Some(k) => {
                &&& 0 <= k < m.timelines.len()
                &&& m.timelines[k].name == data[i].name
                &&& m.replaced(data, now).timelines[i].position == m.timelines[k].position
                &&& m.replaced(data, now).timelines[i].is_playing() == m.timelines[k].is_playing()
            },
            None => {
                &&& !m.has_timeline(data[i].name)
                &&& m.replaced(data, now).timelines[i].position == 0
                &&& !m.replaced(data, now).timelines[i].is_playing()
            },
        },
{
    lemma_first_named::<Timeline>(m.timelines, data[i].name);
    lemma_carried_over_keeps_definition(m, data[i], now);
    let placed = data[i].stop().seek(m.kept_position(data[i].name), now);
    let started = if m.kept_playing(data[i].name) {
        placed.play(now)
    } else {
        placed
    };
    assert(started.wf());
    lemma_rebuilt_keeps_playback(started, now);
}

/// After a replacement the timeline found under a name is what the first
/// incoming timeline of that name became: a name that comes in is found,
/// a name that does not come in is not.
pub proof fn lemma_replacement_found_by_name(
    m: ModelView,
    data: Seq<TimelineView>,
    now: int,
    name: Seq<char>,
)
    requires
        m.wf(),
        forall|j: int| 0 <= j < data.len() ==> (#[trigger] data[j]).wf(),
        0 <= now <= u64::MAX,
    ensures
        m.replaced(data, now).wf(),
        m.replaced(data, now).timeline_index(name) == first_named::<Timeline>(data, name),
        m.replaced(data, now).has_timeline(name) <==> has_named::<Timeline>(data, name),
        distinct_names::<Timeline>(data) ==> distinct_names::<Timeline>(
            m.replaced(data, now).timelines,
        ),
        match first_named::<Timeline>(data, name) {
            Some(i) => {
                &&& 0 <= i < data.len()
                &&& data[i].name == name
                &&& m.replaced(data, now).timelines[i] == m.carried_over(data[i], now)
            },
            None => true,
        },
{
    let after = m.replaced(data, now).timelines;
    assert forall|j: int| 0 <= j < data.len() implies (#[trigger] after[j]).wf() && after[j].name
        == data[j].name by {
        lemma_carried_over_keeps_definition(m, data[j], now);
    }
    lemma_first_named::<Timeline>(data, name);
    lemma_first_named::<Timeline>(after, name);
    match first_named::<Timeline>(data, name) {
        Some(i) => {
            assert(Timeline::name_of(after[i]) == name);
            assert forall|j: int| 0 <= j < i implies Timeline::name_of(#[trigger] after[j])
                != name by {
                assert(Timeline::name_of(data[j]) != name);
            }
            lemma_first_named_is::<Timeline>(after, name, i);
        },
        None => {
            assert forall|j: int| 0 <= j < after.len() implies Timeline::name_of(
                #[trigger] after[j],
            ) != name by {
                assert(Timeline::name_of(data[j]) != name);
            }
        },
    }
    if distinct_names::<Timeline>(data) {
        assert forall|a: int, b: int| 0 <= a < b < after.len() implies Timeline::name_of(
            #[trigger] after[a],
        ) != Timeline::name_of(#[trigger] after[b]) by {
            assert(Timeline::name_of(data[a]) != Timeline::name_of(data[b]));
        }
    }
}

/// After a replacement the timeline found under the name of an incoming
/// timeline that is the first of its name has that timeline's duration,
/// frame rate and looping and the first track of each of its names (all its
/// tracks where their names are distinct); it stands where the timeline of
/// that name stood and plays exactly if that one played, and it is stopped
/// at position 0 where there was none.
pub proof fn lemma_replacement_by_name(m: ModelView, data: Seq<TimelineView>, now: int, i: int)
    requires
        m.wf(),
        forall|j: int| 0 <= j < data.len() ==> (#[trigger] data[j]).wf(),
        0 <= now <= u64::MAX,
        0 <= i < data.len(),
        first_named::<Timeline>(data, data[i].name) == Some(i),
    ensures
        m.replaced(data, now).timeline_index(data[i].name) == Some(i),
        ({
            let found = m.replaced(data, now).timelines[i];
            &&& found.name == data[i].name
            &&& found.duration == data[i].duration
            &&& found.fps == data[i].fps
            &&& found.loop_playback == data[i].loop_playback
            &&& found.tracks == distinct_tracks(data[i].tracks)
            &&& distinct_names::<Track>(data[i].tracks) ==> found.tracks == data[i].tracks
            &&& found.position == m.kept_position(data[i].name)
            &&& found.is_playing() == m.kept_playing(data[i].name)
            &&& !m.has_timeline(data[i].name) ==> found.position == 0 && !found.is_playing()
        }),
{
    lemma_replacement_found_by_name(m, data, now, data[i].name);
    lemma_replacement_keeps_playback(m, data, now, i);
    lemma_first_named::<Timeline>(m.timelines, data[i].name);
}

/// Where the names that come in are distinct, every incoming timeline is
/// the first of its name.
pub proof fn lemma_distinct_is_first(data: Seq<TimelineView>, i: int)
    requires
        distinct_names::<Timeline>(data),
        0 <= i < data.len(),
    ensures
        first_named::<Timeline>(data, data[i].name) == Some(i),
{
    assert forall|j: int| 0 <= j < i implies Timeline::name_of(#[trigger] data[j])
        != data[i].name by {
        assert(Timeline::name_of(data[j]) != Timeline::name_of(data[i]));
    }
    lemma_first_named_is::<Timeline>(data, data[i].name, i);
}

/// Halting leaves no timeline playing and none selected, so that updates
/// report nothing.
pub proof fn lemma_halted(m: ModelView, now: int, j: int)
    requires
        0 <= j < m.timelines.len(),
    ensures
        m.halted().timelines.len() == m.timelines.len(),
        !m.halted().timelines[j].is_playing(),
        m.halted().timelines[j].position == m.timelines[j].position,
        m.halted().active_index().is_none(),
        m.halted().report(now).is_none(),
{
}

} // verus!
