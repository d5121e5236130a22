//! Timelines: an ordered set of tracks with a playback clock.
//!
//! A timeline is a small state machine. What each operation does is stated
//! on `TimelineView`, the mathematical picture of a timeline; the methods of
//! `Timeline` are proved to do exactly that. Every operation that depends on
//! the time has a form that takes the time as an argument (`play_at`,
//! `seek_at`, `update_at`, ...) and a form that reads the clock.

use vstd::prelude::*;
use crate::clock::now_nanos;
use crate::fixed::clamp;
use crate::fixed::clamp_unit;
use crate::fixed::UNIT;
use crate::lookup::find_named;
use crate::lookup::first_named;
use crate::lookup::distinct_names;
use crate::lookup::has_named;
use crate::lookup::lemma_push_keeps_distinct;
use crate::lookup::lemma_first_named;
use crate::lookup::lemma_views_push;
use crate::lookup::lemma_views_update;
use crate::lookup::views;
use crate::lookup::Named;
use crate::track::Track;
use crate::track::TrackMode;
use crate::track::TrackSnapshot;
use crate::track::TrackSnapshotView;
use crate::track::TrackView;

verus! {

/// Nanoseconds in a second: a frame lasts this many divided by the frame
/// rate.
pub const NANOS_PER_SECOND: u64 = 1_000_000_000;

/// The error of an operation that was handed a name already in use.
#[derive(Debug, Clone, Copy)]
pub struct InvalidDataError;

impl InvalidDataError {
    /// The text by which the error is reported.
    pub fn message(&self) -> (r: String)
        ensures
            r@ == "Invalid data provided"@,
    {
        "Invalid data provided".to_owned()
    }
}

/// Whether a timeline plays.
#[derive(Clone, Copy, Debug, PartialEq, Eq, Structural)]
pub enum PlayState {
    /// Playing since the time given first (nanoseconds since the Unix
    /// epoch), started from the normalized position given second.
    Playing(u64, i64),
    Stopped,
}

impl Default for PlayState {
    fn default() -> (r: Self)
        ensures
            r == PlayState::Stopped,
    {
        PlayState::Stopped
    }
}

/// A named, ordered set of tracks with a playback clock.
#[derive(Debug)]
pub struct Timeline {
    name: String,
    /// Seconds in fixed point, that is nanoseconds.
    duration: i64,
    fps: u32,
    loop_playback: bool,
    /// Normalized playhead position, in fixed point.
    position: i64,
    tracks: Vec<Track>,
    state: PlayState,
    /// Nanoseconds that one frame lasts.
    frame_duration: u64,
    /// When `update` last passed the frame gate.
    last_updated: u64,
    /// Set by every change made while not advancing, so that the next
    /// `update` reports once even if the timeline is stopped.
    update_required: bool,
}

/// What a `Timeline` stands for.
pub struct TimelineView {
    pub name: Seq<char>,
    pub duration: int,
    pub fps: int,
    pub loop_playback: bool,
    pub position: int,
    pub tracks: Seq<TrackView>,
    pub state: PlayState,
    pub frame_duration: int,
    pub last_updated: int,
    pub update_required: bool,
}

/// What a timeline reports for one step of playback.
#[derive(Debug)]
pub struct TimelineSnapshot {
    pub name: String,
    pub duration: i64,
    /// The playhead in seconds: `position` times `duration`.
    pub time: i64,
    pub position: i64,
    pub is_playing: bool,
    pub tracks: Vec<TrackSnapshot>,
}

/// What a `TimelineSnapshot` stands for.
pub struct TimelineSnapshotView {
    pub name: Seq<char>,
    pub duration: int,
    pub time: int,
    pub position: int,
    pub is_playing: bool,
    pub tracks: Seq<TrackSnapshotView>,
}

impl View for TimelineSnapshot {
    type V = TimelineSnapshotView;

    open spec fn view(&self) -> TimelineSnapshotView {
        TimelineSnapshotView {
            name: self.name@,
            duration: self.duration as int,
            time: self.time as int,
            position: self.position as int,
            is_playing: self.is_playing,
            tracks: views(self.tracks@),
        }
    }
}

impl View for Timeline {
    type V = TimelineView;

    closed spec fn view(&self) -> TimelineView {
        TimelineView {
            name: self.name@,
            duration: self.duration as int,
            fps: self.fps as int,
            loop_playback: self.loop_playback,
            position: self.position as int,
            tracks: views(self.tracks@),
            state: self.state,
            frame_duration: self.frame_duration as int,
            last_updated: self.last_updated as int,
            update_required: self.update_required,
        }
    }
}

/// The time that passed from `since` to `now`; none where the clock went
/// back.
pub open spec fn elapsed(since: int, now: int) -> int {
    if now >= since {
        now - since
    } else {
        0
    }
}

/// What each track reports when the playhead went from `prev` to `cur`.
pub open spec fn track_snapshots(tracks: Seq<TrackView>, prev: int, cur: int) -> Seq<
    TrackSnapshotView,
> {
    Seq::new(tracks.len(), |i: int| tracks[i].snapshot(prev, cur))
}

/// The tracks without those whose name an earlier track has.
pub open spec fn distinct_tracks(tracks: Seq<TrackView>) -> Seq<TrackView>
    decreases tracks.len(),
{
    if tracks.len() == 0 {
        tracks
    } else {
        let front = distinct_tracks(tracks.drop_last());
        if has_named::<Track>(front, tracks.last().name) {
            front
        } else {
            front.push(tracks.last())
        }
    }
}

impl TimelineView {
    /// What holds of every timeline: a positive duration and frame rate, a
    /// frame duration that follows from the frame rate, and positions
    /// between 0 and 1.
    pub open spec fn wf(self) -> bool {
        &&& 0 < self.duration <= i64::MAX
        &&& 0 < self.fps <= u32::MAX
        &&& 0 <= self.position <= UNIT
        &&& self.frame_duration == NANOS_PER_SECOND as int / self.fps
        &&& 0 <= self.last_updated <= u64::MAX
        &&& match self.state {
            PlayState::Playing(_, start_position) => 0 <= start_position <= UNIT,
            PlayState::Stopped => true,
        }
    }

    /// A new timeline made at time `now`: stopped at position 0, without
    /// tracks, and due to report once.
    pub open spec fn fresh(
        name: Seq<char>,
        duration: int,
        fps: int,
        loop_playback: bool,
        now: int,
    ) -> TimelineView {
        TimelineView {
            name,
            duration,
            fps,
            loop_playback,
            position: 0,
            tracks: Seq::empty(),
            state: PlayState::Stopped,
            frame_duration: NANOS_PER_SECOND as int / fps,
            last_updated: now,
            update_required: true,
        }
    }

    pub open spec fn is_playing(self) -> bool {
        self.state is Playing
    }

    /// Renaming asks for a report.
    pub open spec fn rename(self, name: Seq<char>) -> TimelineView {
        TimelineView { name, update_required: true, ..self }
    }

    /// Starting at time `now`: nothing changes where the timeline plays
    /// already; else it plays from where the playhead stands.
    pub open spec fn play(self, now: int) -> TimelineView {
        if self.is_playing() {
            self
        } else {
            TimelineView {
                state: PlayState::Playing(now as u64, self.position as i64),
                update_required: true,
                ..self
            }
        }
    }

    pub open spec fn stop(self) -> TimelineView {
        TimelineView { state: PlayState::Stopped, update_required: true, ..self }
    }

    /// Moving the playhead to `p` at time `now`: `p` is limited to the
    /// interval from 0 to 1, and a playing timeline goes on from there as
    /// if started at `now`.
    pub open spec fn seek(self, p: int, now: int) -> TimelineView {
        let position = clamp(p, 0, UNIT as int);
        TimelineView {
            position,
            state: if self.is_playing() {
                PlayState::Playing(now as u64, position as i64)
            } else {
                PlayState::Stopped
            },
            update_required: true,
            ..self
        }
    }

    /// The frame gate: whether at time `now` a whole frame has passed since
    /// the last update.
    pub open spec fn due(self, now: int) -> bool {
        elapsed(self.last_updated, now) >= self.frame_duration
    }

    /// Where playback that started at `start_position` at time `started_at`
    /// has got to at time `now`, before it is wrapped or limited.
    pub open spec fn playhead(self, started_at: int, start_position: int, now: int) -> int {
        start_position + elapsed(started_at, now) * UNIT as int / self.duration
    }

    /// The timeline after an update at time `now`. Before the frame gate it
    /// is unchanged. Behind it a stopped timeline only notes the update; a
    /// playing one moves its playhead: a looping one to the fractional part
    /// of where playback has got to, another to that limited to 1, where it
    /// stops on arrival.
    pub open spec fn advance(self, now: int) -> TimelineView {
        if !self.due(now) {
            self
        } else {
            match self.state {
                PlayState::Stopped => TimelineView {
                    last_updated: now,
                    update_required: false,
                    ..self
                },
                PlayState::Playing(started_at, start_position) => {
                    let raw = self.playhead(started_at as int, start_position as int, now);
                    if self.loop_playback {
                        TimelineView {
                            position: raw % (UNIT as int),
                            last_updated: now,
                            update_required: false,
                            ..self
                        }
                    } else {
                        let position = clamp(raw, 0, UNIT as int);
                        TimelineView {
                            position,
                            state: if position == UNIT {
                                PlayState::Stopped
                            } else {
                                self.state
                            },
                            last_updated: now,
                            update_required: false,
                            ..self
                        }
                    }
                },
            }
        }
    }

    /// Whether an update at time `now` reports: behind the frame gate a
    /// playing timeline always does, a stopped one only when a report is
    /// due.
    pub open spec fn emits(self, now: int) -> bool {
        self.due(now) && (self.is_playing() || self.update_required)
    }

    /// What an update at time `now` reports: where it reports at all, the
    /// timeline after the update, seen from where the playhead stood
    /// before.
    pub open spec fn report(self, now: int) -> Option<TimelineSnapshotView> {
        if self.emits(now) {
            Some(self.advance(now).snapshot(self.position))
        } else {
            None
        }
    }

    /// The playhead in seconds.
    pub open spec fn time(self) -> int {
        self.position * self.duration / (UNIT as int)
    }

    /// The report of a timeline whose playhead came from `prev`.
    pub open spec fn snapshot(self, prev: int) -> TimelineSnapshotView {
        TimelineSnapshotView {
            name: self.name,
            duration: self.duration,
            time: self.time(),
            position: self.position,
            is_playing: self.is_playing(),
            tracks: track_snapshots(self.tracks, prev, self.position),
        }
    }

    /// The index of the first track called `name`.
    pub open spec fn track_index(self, name: Seq<char>) -> Option<int> {
        first_named::<Track>(self.tracks, name)
    }

    /// Whether a track is called `name`.
    pub open spec fn has_track(self, name: Seq<char>) -> bool {
        has_named::<Track>(self.tracks, name)
    }

    /// A copy made at time `now`: a new timeline of the same name, duration,
    /// frame rate and looping, with the first track of each name, brought to
    /// the same position and playing, as if started at `now`, if the given
    /// one plays. The copy is not updated, so that it stands exactly where
    /// the given one stands whatever the frame rate.
    pub open spec fn rebuilt(self, now: int) -> TimelineView {
        let base = TimelineView {
            tracks: distinct_tracks(self.tracks),
            ..Self::fresh(self.name, self.duration, self.fps, self.loop_playback, now)
        };
        let placed = base.seek(self.position, now);
        if self.is_playing() {
            placed.play(now)
        } else {
            placed
        }
    }
}

impl Named for Timeline {
    open spec fn name_of(v: TimelineView) -> Seq<char> {
        v.name
    }

    fn has_name(&self, name: &String) -> (r: bool) {
        self.name == *name
    }
}

impl Timeline {
    /// What holds of every timeline that this module hands out.
    pub open spec fn wf(&self) -> bool {
        self@.wf()
    }

    /// A new timeline, made at time `now`. `duration` is in nanoseconds,
    /// `fps` in frames per second; both must be positive.
    pub fn new_at(name: &str, duration: i64, fps: u32, loop_playback: bool, now: u64) -> (r: Self)
        requires
            duration > 0,
            fps > 0,
        ensures
            r.wf(),
            r@ == TimelineView::fresh(name@, duration as int, fps as int, loop_playback, now as int),
    {
        let tracks: Vec<Track> = Vec::new();
        proof {
            assert(views(tracks@) =~= Seq::<TrackView>::empty());
        }
        Timeline {
            name: name.to_owned(),
            duration,
            fps,
            loop_playback,
            position: 0,
            tracks,
            state: PlayState::Stopped,
            frame_duration: NANOS_PER_SECOND / (fps as u64),
            last_updated: now,
            update_required: true,
        }
    }

    /// A new timeline, made now.
    pub fn new(name: &str, duration: i64, fps: u32, loop_playback: bool) -> (r: Self)
        requires
            duration > 0,
            fps > 0,
        ensures
            r.wf(),
            exists|now: int|
                0 <= now <= u64::MAX && r@ == #[trigger] TimelineView::fresh(
                    name@,
                    duration as int,
                    fps as int,
                    loop_playback,
                    now,
                ),
    {
        let now: u64 = now_nanos();
        Timeline::new_at(name, duration, fps, loop_playback, now)
    }

    pub fn name(&self) -> (r: &str)
        ensures
            r@ == self@.name,
    {
        self.name.as_str()
    }

    pub fn duration(&self) -> (r: i64)
        ensures
            r == self@.duration,
    {
        self.duration
    }

    pub fn fps(&self) -> (r: u32)
        ensures
            r == self@.fps,
    {
        self.fps
    }

    pub fn loop_playback(&self) -> (r: bool)
        ensures
            r == self@.loop_playback,
    {
        self.loop_playback
    }

    pub fn state(&self) -> (r: PlayState)
        ensures
            r == self@.state,
    {
        self.state
    }

    /// Renames the timeline.
    pub fn set_name(&mut self, name: &str)
        ensures
            final(self)@ == old(self)@.rename(name@),
            old(self).wf() ==> final(self).wf(),
    {
        self.name = name.to_owned();
        self.update_required = true;
    }

    pub fn get_position(&self) -> (r: i64)
        ensures
            r == self@.position,
    {
        self.position
    }

    pub fn is_playing(&self) -> (r: bool)
        ensures
            r == self@.is_playing(),
    {
        match self.state {
            PlayState::Playing(_, _) => true,
            PlayState::Stopped => false,
        }
    }

    /// Starts playback at time `now` from where the playhead stands; does
    /// nothing where the timeline plays already.
    pub fn play_at(&mut self, now: u64)
        ensures
            final(self)@ == old(self)@.play(now as int),
            old(self).wf() ==> final(self).wf(),
    {
        if !self.is_playing() {
            self.state = PlayState::Playing(now, self.position);
            self.update_required = true;
        }
    }

    /// Starts playback now.
    pub fn play(&mut self)
        ensures
            exists|now: int| 0 <= now <= u64::MAX && final(self)@ == #[trigger] old(self)@.play(now),
            old(self).wf() ==> final(self).wf(),
    {
        let now: u64 = now_nanos();
        self.play_at(now);
    }

    /// Stops playback.
    pub fn stop(&mut self)
        ensures
            final(self)@ == old(self)@.stop(),
            old(self).wf() ==> final(self).wf(),
    {
        self.state = PlayState::Stopped;
        self.update_required = true;
    }

    /// Moves the playhead at time `now` to `position`, limited to the
    /// interval from 0 to 1. A playing timeline goes on playing from there
    /// at the same rate.
    pub fn seek_at(&mut self, position: i64, now: u64)
        ensures
            final(self)@ == old(self)@.seek(position as int, now as int),
            old(self).wf() ==> final(self).wf(),
    {
        self.position = clamp_unit(position);
        if self.is_playing() {
            self.state = PlayState::Playing(now, self.position);
        }
        self.update_required = true;
    }

    /// Moves the playhead now.
    pub fn seek(&mut self, position: i64)
        ensures
            old(self).wf() ==> final(self).wf(),
            exists|now: int|
                0 <= now <= u64::MAX && final(self)@ == #[trigger] old(self)@.seek(
                    position as int,
                    now,
                ),
    {
        let now: u64 = now_nanos();
        self.seek_at(position, now);
    }
    /// The tracks, in their order.
    pub fn get_tracks(&self) -> (r: Vec<&Track>)
        ensures
            r@.len() == self@.tracks.len(),
            forall|i: int| 0 <= i < r@.len() ==> (#[trigger] r@[i])@ == self@.tracks[i],
    {
        let mut list: Vec<&Track> = Vec::new();
        let mut i: usize = 0;
        while i < self.tracks.len()
            invariant
                i <= self.tracks.len(),
                list@.len() == i,
                forall|j: int| 0 <= j < i ==> (#[trigger] list@[j])@ == self.tracks@[j]@,
            decreases self.tracks.len() - i,
        {
            list.push(&self.tracks[i]);
            i = i + 1;
        }
        list
    }

    /// Adds a new track of the given name and mode behind the others, asks
    /// for a report and hands out the track. Where a track of that name
    /// exists the timeline is left as it is.
    pub fn add_track(&mut self, name: &str, mode: TrackMode) -> (r: Result<
        &mut Track,
        InvalidDataError,
    >)
        ensures
            old(self).wf() ==> final(self).wf(),
            match r {
                Ok(track) => {
                    &&& !old(self)@.has_track(name@)
                    &&& track@ == TrackView::fresh(name@, mode)
                    &&& final(self)@ == (TimelineView {
                        tracks: old(self)@.tracks.push(final(track)@),
                        update_required: true,
                        ..old(self)@
                    })
                },
                Err(_) => old(self)@.has_track(name@) && final(self)@ == old(self)@,
            },
    {
        let key: String = name.to_owned();
        proof {
            lemma_first_named::<Track>(self@.tracks, name@);
        }
        match find_named(&self.tracks, &key) {
            Some(_) => Err(InvalidDataError),
            None => {
                self.tracks.push(Track::new(name, mode));
                self.update_required = true;
                let last: usize = self.tracks.len() - 1;
                proof {
                    let before = views(old(self).tracks@);
                    let grown = views(self.tracks@);
                    lemma_views_update(self.tracks@, last as int);
                    lemma_views_push(old(self).tracks@);
                    assert forall|x: Track| #[trigger] grown.update(last as int, x@) == before.push(
                        x@,
                    ) by {
                        assert(grown.update(last as int, x@) =~= before.push(x@));
                    }
                }
                Ok(&mut self.tracks[last])
            },
        }
    }

    /// Removes the first track called `name`, if there is one, by putting
    /// the last track in its place, and asks for a report.
    pub fn remove_track(&mut self, name: &str)
        ensures
            old(self).wf() ==> final(self).wf(),
            match old(self)@.track_index(name@) {
                Some(i) => final(self)@ == (TimelineView {
                    tracks: old(self)@.tracks.update(i, old(self)@.tracks.last()).drop_last(),
                    update_required: true,
                    ..old(self)@
                }),
                None => final(self)@ == old(self)@,
            },
    {
        let key: String = name.to_owned();
        match find_named(&self.tracks, &key) {
            Some(index) => {
                self.tracks.swap_remove(index);
                self.update_required = true;
                proof {
                    let before = old(self).tracks@;
                    assert(views(self.tracks@) =~= views(before).update(
                        index as int,
                        views(before).last(),
                    ).drop_last());
                }
            },
            None => {},
        }
    }

    /// The first track called `name`.
    pub fn get_track(&self, name: &str) -> (r: Option<&Track>)
        ensures
            match r {
                Some(track) => self@.track_index(name@) matches Some(i) && 0 <= i
                    < self@.tracks.len() && track@ == self@.tracks[i],
                None => !self@.has_track(name@),
            },
    {
        let key: String = name.to_owned();
        proof {
            lemma_first_named::<Track>(self@.tracks, name@);
        }
        match find_named(&self.tracks, &key) {
            Some(index) => Some(&self.tracks[index]),
            None => None,
        }
    }

    /// The first track called `name`, to be changed in place.
    pub fn get_track_mut(&mut self, name: &str) -> (r: Option<&mut Track>)
        ensures
            old(self).wf() ==> final(self).wf(),
            match r {
                Some(track) => {
                    &&& old(self)@.track_index(name@) matches Some(i)
                        && 0 <= i < old(self)@.tracks.len()
                        && track@ == old(self)@.tracks[i]
                    &&& final(self)@ == (TimelineView {
                        tracks: old(self)@.tracks.update(
                            old(self)@.track_index(name@).unwrap(),
                            final(track)@,
                        ),
                        ..old(self)@
                    })
                },
                None => !old(self)@.has_track(name@) && final(self)@ == old(self)@,
            },
    {
        let key: String = name.to_owned();
        proof {
            lemma_first_named::<Track>(self@.tracks, name@);
        }
        match find_named(&self.tracks, &key) {
            Some(index) => {
                proof {
                    lemma_views_update(self.tracks@, index as int);
                }
                Some(&mut self.tracks[index])
            },
            None => None,
        }
    }

    /// The report of the timeline as it stands, for a playhead that came
    /// from `prev_position`.
    pub fn get_snapshot(&self, prev_position: i64) -> (r: TimelineSnapshot)
        requires
            self.wf(),
        ensures
            r@ == self@.snapshot(prev_position as int),
    {
        let mut list: Vec<TrackSnapshot> = Vec::new();
        let mut i: usize = 0;
        while i < self.tracks.len()
            invariant
                i <= self.tracks.len(),
                list@.len() == i,
                forall|j: int|
                    0 <= j < i ==> (#[trigger] list@[j])@ == self.tracks@[j]@.snapshot(
                        prev_position as int,
                        self.position as int,
                    ),
            decreases self.tracks.len() - i,
        {
            list.push(self.tracks[i].snapshot(prev_position, self.position));
            i = i + 1;
        }
        proof {
            assert(views(list@) =~= track_snapshots(
                self@.tracks,
                prev_position as int,
                self.position as int,
            ));
            lemma_time_within(self.position as int, self.duration as int);
        }
        let time: i128 = (self.position as i128 * self.duration as i128) / (UNIT as i128);
        TimelineSnapshot {
            name: self.name.clone(),
            duration: self.duration,
            time: time as i64,
            position: self.position,
            is_playing: self.is_playing(),
            tracks: list,
        }
    }

    /// Updates the timeline at time `now` and reports, at most once per
    /// frame: see `TimelineView::advance` and `TimelineView::emits`. The
    /// report is made against the position before the update, so that the
    /// events passed on the way are found.
    pub fn update_at(&mut self, now: u64) -> (r: Option<TimelineSnapshot>)
        requires
            old(self).wf(),
        ensures
            final(self).wf(),
            final(self)@ == old(self)@.advance(now as int),
            match r {
                Some(snapshot) => old(self)@.report(now as int) == Some(snapshot@),
                None => old(self)@.report(now as int).is_none(),
            },
    {
        let since_update: u64 = if now >= self.last_updated {
            now - self.last_updated
        } else {
            0
        };
        if since_update < self.frame_duration {
            return None;
        }
        match self.state {
            PlayState::Stopped => {
                self.last_updated = now;
                if self.update_required {
                    self.update_required = false;
                    Some(self.get_snapshot(self.position))
                } else {
                    None
                }
            },
            PlayState::Playing(started_at, start_position) => {
                let prev_position: i64 = self.position;
                let since_start: u64 = if now >= started_at {
                    now - started_at
                } else {
                    0
                };
                proof {
                    lemma_travel_bound(since_start as int, self.duration as int);
                }
                let travelled: u128 = (since_start as u128 * UNIT as u128) / (self.duration as u128);
                let raw: u128 = start_position as u128 + travelled;
                if self.loop_playback {
                    self.position = (raw % (UNIT as u128)) as i64;
                } else {
                    self.position = if raw >= UNIT as u128 {
                        UNIT
                    } else {
                        raw as i64
                    };
                    if self.position == UNIT {
                        self.stop();
                    }
                }
                self.last_updated = now;
                self.update_required = false;
                Some(self.get_snapshot(prev_position))
            },
        }
    }

    /// Updates the timeline now.
    pub fn update(&mut self) -> (r: Option<TimelineSnapshot>)
        requires
            old(self).wf(),
        ensures
            final(self).wf(),
            exists|now: int|
                0 <= now <= u64::MAX && final(self)@ == #[trigger] old(self)@.advance(now) && match r {
                    Some(snapshot) => old(self)@.report(now) == Some(snapshot@),
                    None => old(self)@.report(now).is_none(),
                },
    {
        let now: u64 = now_nanos();
        self.update_at(now)
    }

    /// A copy of `src` made at time `now`: see `TimelineView::rebuilt`.
    pub fn from_at(src: &Timeline, now: u64) -> (r: Self)
        requires
            src.wf(),
        ensures
            r.wf(),
            r@ == src@.rebuilt(now as int),
    {
        let mut s: Timeline = Timeline::new_at(
            src.name.as_str(),
            src.duration,
            src.fps,
            src.loop_playback,
            now,
        );
        let ghost base = s@;
        let mut i: usize = 0;
        proof {
            assert(src@.tracks.take(0) =~= Seq::<TrackView>::empty());
        }
        while i < src.tracks.len()
            invariant
                i <= src.tracks.len(),
                s.wf(),
                s@ == (TimelineView {
                    tracks: distinct_tracks(src@.tracks.take(i as int)),
                    ..base
                }),
                base.update_required,
            decreases src.tracks.len() - i,
        {
            let t: &Track = &src.tracks[i];
            proof {
                let wider = src@.tracks.take(i + 1);
                assert(wider.drop_last() =~= src@.tracks.take(i as int));
                assert(wider.last() == t@);
            }
            match s.add_track(t.name.as_str(), t.mode()) {
                Ok(track) => {
                    track.payload = t.payload.clone();
                },
                Err(_) => {},
            }
            i = i + 1;
        }
        proof {
            assert(src@.tracks.take(src.tracks.len() as int) =~= src@.tracks);
        }
        s.seek_at(src.get_position(), now);
        if src.is_playing() {
            s.play_at(now);
        }
        s
    }

    /// A copy of `src` made now.
    pub fn from(src: &Timeline) -> (r: Self)
        requires
            src.wf(),
        ensures
            r.wf(),
            exists|now: int| 0 <= now <= u64::MAX && r@ == #[trigger] src@.rebuilt(now),
    {
        let now: u64 = now_nanos();
        Timeline::from_at(src, now)
    }
}

/// Leaving out the tracks whose name an earlier track has leaves out no
/// name.
pub proof fn lemma_distinct_tracks_names(tracks: Seq<TrackView>, name: Seq<char>)
    ensures
        has_named::<Track>(distinct_tracks(tracks), name) <==> has_named::<Track>(tracks, name),
    decreases tracks.len(),
{
    if tracks.len() > 0 {
        let front = tracks.drop_last();
        let kept = distinct_tracks(front);
        let all = distinct_tracks(tracks);
        lemma_distinct_tracks_names(front, name);
        lemma_distinct_tracks_names(front, tracks.last().name);
        assert(forall|j: int| 0 <= j < front.len() ==> front[j] == tracks[j]);
        if has_named::<Track>(all, name) {
            let i = choose|i: int| 0 <= i < all.len() && Track::name_of(#[trigger] all[i]) == name;
            if i < kept.len() {
                assert(Track::name_of(kept[i]) == name);
                let j = choose|j: int|
                    0 <= j < front.len() && Track::name_of(#[trigger] front[j]) == name;
                assert(Track::name_of(tracks[j]) == name);
            } else {
                assert(Track::name_of(tracks[tracks.len() - 1]) == name);
            }
        }
        if has_named::<Track>(tracks, name) {
            let j = choose|j: int|
                0 <= j < tracks.len() && Track::name_of(#[trigger] tracks[j]) == name;
            if j < front.len() {
                assert(Track::name_of(front[j]) == name);
            }
            if has_named::<Track>(kept, name) {
                let i = choose|i: int|
                    0 <= i < kept.len() && Track::name_of(#[trigger] kept[i]) == name;
                assert(Track::name_of(all[i]) == name);
            } else {
                assert(j == tracks.len() - 1);
                assert(Track::name_of(all[all.len() - 1]) == name);
            }
        }
    }
}

/// The first tracks of each name carry distinct names, and where the names
/// are distinct already every track is the first of its name.
pub proof fn lemma_distinct_tracks(tracks: Seq<TrackView>)
    ensures
        distinct_names::<Track>(distinct_tracks(tracks)),
        distinct_names::<Track>(tracks) ==> distinct_tracks(tracks) == tracks,
    decreases tracks.len(),
{
    if tracks.len() > 0 {
        let front = tracks.drop_last();
        let kept = distinct_tracks(front);
        lemma_distinct_tracks(front);
        assert(forall|j: int| 0 <= j < front.len() ==> front[j] == tracks[j]);
        if !has_named::<Track>(kept, tracks.last().name) {
            lemma_push_keeps_distinct::<Track>(kept, tracks.last());
        }
        if distinct_names::<Track>(tracks) {
            assert(distinct_names::<Track>(front));
            assert(kept == front);
            if has_named::<Track>(front, tracks.last().name) {
                let j = choose|j: int|
                    0 <= j < front.len() && Track::name_of(#[trigger] front[j])
                        == tracks.last().name;
                assert(Track::name_of(tracks[j]) == Track::name_of(tracks[tracks.len() - 1]));
            }
            assert(front.push(tracks.last()) =~= tracks);
        }
    }
}

/// The playhead in seconds is at most the duration.
proof fn lemma_time_within(position: int, duration: int)
    requires
        0 <= position <= UNIT,
        0 < duration,
    ensures
        0 <= position * duration / (UNIT as int) <= duration,
        0 <= position * duration <= UNIT * duration,
{
    assert(0 <= position * duration <= UNIT * duration) by (nonlinear_arith)
        requires
            0 <= position <= UNIT,
            0 < duration,
    ;
    vstd::arithmetic::div_mod::lemma_div_is_ordered(0, position * duration, UNIT as int);
    vstd::arithmetic::div_mod::lemma_div_is_ordered(
        position * duration,
        UNIT * duration,
        UNIT as int,
    );
    vstd::arithmetic::div_mod::lemma_div_multiples_vanish(duration, UNIT as int);
    assert(UNIT * duration == (UNIT as int) * duration);
}

/// What playback travels fits the arithmetic of `update_at`.
proof fn lemma_travel_bound(since: int, duration: int)
    requires
        0 <= since <= u64::MAX,
        0 < duration,
    ensures
        0 <= since * UNIT <= u64::MAX * UNIT,
        0 <= since * UNIT / duration <= u64::MAX * UNIT,
{
    assert(0 <= since * UNIT <= u64::MAX * UNIT) by (nonlinear_arith)
        requires
            0 <= since <= u64::MAX,
    ;
    vstd::arithmetic::div_mod::lemma_div_pos_is_pos(since * UNIT, duration);
    vstd::arithmetic::div_mod::lemma_div_nonincreasing(since * UNIT, duration);
}

} // verus!
