//! What the control loop decides: how a control message changes the model,
//! whether the change must be published, and which event messages a report
//! gives rise to.

use vstd::prelude::*;
use crate::clock::now_nanos;
use crate::fixed::clamp;
use crate::fixed::div_floor;
use crate::fixed::saturate;
use crate::fixed::UNIT;
use crate::lookup::lemma_first_named;
use crate::lookup::lemma_views_push;
use crate::lookup::views;
use crate::lookup::Named;
use crate::model::lemma_active_index;
use crate::model::Model;
use crate::model::ModelView;
use crate::timeline::Timeline;
use crate::timeline::TimelineSnapshot;
use crate::timeline::TimelineSnapshotView;
use crate::timeline::TimelineView;
use crate::track::EventTrigger;
use crate::track::EventTriggerView;
use crate::track::TrackSnapshot;
use crate::track::TrackSnapshotView;

verus! {

/// A request that reaches the control loop.
#[derive(Debug)]
pub enum ControlMessage {
    /// Make the named timeline the active one and play it.
    Play(String),
    /// Stop the active timeline.
    Stop,
    /// Move the playhead of the named timeline to a normalized position.
    Seek(String, i64),
    /// Replace all timelines.
    Update(Vec<Timeline>),
}

/// What a `ControlMessage` stands for.
pub enum ControlMessageView {
    Play(Seq<char>),
    Stop,
    Seek(Seq<char>, int),
    Update(Seq<TimelineView>),
}

impl View for ControlMessage {
    type V = ControlMessageView;

    open spec fn view(&self) -> ControlMessageView {
        match self {
            ControlMessage::Play(name) => ControlMessageView::Play(name@),
            ControlMessage::Stop => ControlMessageView::Stop,
            ControlMessage::Seek(name, position) => ControlMessageView::Seek(
                name@,
                *position as int,
            ),
            ControlMessage::Update(timelines) => ControlMessageView::Update(views(timelines@)),
        }
    }
}

impl ControlMessage {
    /// The timelines that the message carries are well formed.
    pub open spec fn wf(&self) -> bool {
        match self {
            ControlMessage::Update(timelines) => forall|i: int|
                0 <= i < timelines@.len() ==> (#[trigger] timelines@[i]).wf(),
            _ => true,
        }
    }
}

/// The message that tells of one event that fired.
#[derive(Debug)]
pub struct EventSnapshot {
    /// The name of the timeline.
    pub timeline: String,
    /// The name of the track.
    pub track: String,
    /// The normalized position of the event on its track.
    pub position: i64,
    /// The time of the event on the timeline, in seconds: its position
    /// times the duration.
    pub time: i64,
    /// The label of the event.
    pub data: String,
}

/// What an `EventSnapshot` stands for.
pub struct EventSnapshotView {
    pub timeline: Seq<char>,
    pub track: Seq<char>,
    pub position: int,
    pub time: int,
    pub data: Seq<char>,
}

impl View for EventSnapshot {
    type V = EventSnapshotView;

    open spec fn view(&self) -> EventSnapshotView {
        EventSnapshotView {
            timeline: self.timeline@,
            track: self.track@,
            position: self.position as int,
            time: self.time as int,
            data: self.data@,
        }
    }
}

/// What one pass of the control loop hands to the messaging side.
#[derive(Debug)]
pub struct Tick {
    /// The report of the active timeline, if it made one.
    pub snapshot: Option<TimelineSnapshot>,
    /// Whether the whole state must be published, because the message
    /// changed which timelines there are or which one plays.
    pub publish_state: bool,
}

/// The time on a timeline of the given duration of an event at `position`,
/// limited to what the message can hold.
pub open spec fn event_time(position: int, duration: int) -> int {
    clamp(position * duration / (UNIT as int), i64::MIN as int, i64::MAX as int)
}

/// The message for one event of a track of a timeline.
pub open spec fn event_report(
    timeline: Seq<char>,
    track: Seq<char>,
    duration: int,
    event: EventTriggerView,
) -> EventSnapshotView {
    EventSnapshotView {
        timeline,
        track,
        position: event.position,
        time: event_time(event.position, duration),
        data: event.data,
    }
}

/// The messages for the events that one track reports, in their order.
pub open spec fn track_reports(timeline: Seq<char>, duration: int, track: TrackSnapshotView) -> Seq<
    EventSnapshotView,
> {
    match track.events {
        Some(events) => Seq::new(
            events.len(),
            |i: int| event_report(timeline, track.name, duration, events[i]),
        ),
        None => Seq::empty(),
    }
}

/// The messages for the events that the given tracks report, track by
/// track.
pub open spec fn tracks_reports(
    timeline: Seq<char>,
    duration: int,
    tracks: Seq<TrackSnapshotView>,
) -> Seq<EventSnapshotView>
    decreases tracks.len(),
{
    if tracks.len() == 0 {
        Seq::empty()
    } else {
        tracks_reports(timeline, duration, tracks.drop_last()) + track_reports(
            timeline,
            duration,
            tracks.last(),
        )
    }
}

impl TimelineSnapshotView {
    /// The event messages that a report gives rise to: one for each event
    /// of each track while the timeline plays, none once it has stopped.
    pub open spec fn event_reports(self) -> Seq<EventSnapshotView> {
        if self.is_playing {
            tracks_reports(self.name, self.duration, self.tracks)
        } else {
            Seq::empty()
        }
    }
}

impl ModelView {
    /// The model after the named timeline was asked to play at time `now`:
    /// it is made the active one, and played if that succeeded.
    pub open spec fn played(self, name: Seq<char>, now: int) -> ModelView {
        let chosen = self.select(name);
        match chosen.active_index() {
            Some(i) => if chosen.timelines[i].name == name {
                ModelView {
                    timelines: chosen.timelines.update(i, chosen.timelines[i].play(now)),
                    ..chosen
                }
            } else {
                chosen
            },
            None => chosen,
        }
    }

    /// The model after its active timeline was stopped.
    pub open spec fn stopped(self) -> ModelView {
        match self.active_index() {
            Some(i) => ModelView {
                timelines: self.timelines.update(i, self.timelines[i].stop()),
                ..self
            },
            None => self,
        }
    }

    /// The model after the playhead of the named timeline was moved at time
    /// `now`.
    pub open spec fn sought(self, name: Seq<char>, position: int, now: int) -> ModelView {
        match self.timeline_index(name) {
            Some(i) => ModelView {
                timelines: self.timelines.update(i, self.timelines[i].seek(position, now)),
                ..self
            },
            None => self,
        }
    }

    /// The model after a control message was applied at time `now`.
    pub open spec fn handled(self, message: ControlMessageView, now: int) -> ModelView {
        match message {
            ControlMessageView::Play(name) => self.played(name, now),
            ControlMessageView::Stop => self.stopped(),
            ControlMessageView::Seek(name, position) => self.sought(name, position, now),
            ControlMessageView::Update(timelines) => self.replaced(timelines, now),
        }
    }

    /// The model after one pass of the control loop at time `now`: the
    /// pending message, if there is one, is applied; then the active
    /// timeline is updated.
    pub open spec fn stepped(self, message: Option<ControlMessageView>, now: int) -> ModelView {
        match message {
            Some(m) => self.handled(m, now).advance(now),
            None => self.advance(now),
        }
    }

    /// What one pass of the control loop at time `now` reports: what the
    /// update reports of the model after the message.
    pub open spec fn step_report(self, message: Option<ControlMessageView>, now: int) -> Option<
        TimelineSnapshotView,
    > {
        match message {
            Some(m) => self.handled(m, now).report(now),
            None => self.report(now),
        }
    }

    /// Whether one pass of the control loop must publish the state.
    pub open spec fn step_reshapes(self, message: Option<ControlMessageView>) -> bool {
        match message {
            Some(m) => self.reshaped_by(m),
            None => false,
        }
    }

    /// Whether a control message changes the state in a way that must be
    /// published: a replacement always does, a request to play where the
    /// named timeline exists; stopping and seeking do not.
    pub open spec fn reshaped_by(self, message: ControlMessageView) -> bool {
        match message {
            ControlMessageView::Play(name) => self.has_timeline(name),
            ControlMessageView::Update(_) => true,
            _ => false,
        }
    }
}

/// After `name` was asked to become active, the active timeline is called
/// `name` exactly where a timeline of that name exists.
pub proof fn lemma_select(m: ModelView, name: Seq<char>)
    ensures
        m.select(name).timelines.len() == m.timelines.len(),
        forall|j: int|
            0 <= j < m.timelines.len() ==> (#[trigger] m.select(name).timelines[j]).name
                == m.timelines[j].name,
        m.has_timeline(name) <==> (m.select(name).active_index() matches Some(i)
            && m.select(name).timelines[i].name == name),
        m.select(name).active_index() matches Some(i) ==> 0 <= i < m.timelines.len(),
{
    let chosen = m.select(name);
    lemma_first_named::<Timeline>(m.timelines, name);
    lemma_active_index(m);
    lemma_active_index(chosen);
    lemma_first_named::<Timeline>(chosen.timelines, name);
    assert forall|j: int| 0 <= j < m.timelines.len() implies (#[trigger] chosen.timelines[j]).name
        == m.timelines[j].name by {}
    if m.has_timeline(name) {
        let w = choose|w: int|
            0 <= w < m.timelines.len() && Timeline::name_of(#[trigger] m.timelines[w]) == name;
        assert(Timeline::name_of(chosen.timelines[w]) == name);
        assert(chosen.has_timeline(name));
        assert(chosen.selected_timeline == Some(name));
    } else {
        match chosen.active_index() {
            Some(i) => {
                assert(Timeline::name_of(m.timelines[i]) != name);
            },
            None => {},
        }
    }
}

/// Applies a control message to the model at time `now` and says whether
/// the state must be published.
pub fn apply_at(model: &mut Model, message: ControlMessage, now: u64) -> (changed: bool)
    requires
        old(model).wf(),
        message.wf(),
    ensures
        final(model).wf(),
        final(model)@ == old(model)@.handled(message@, now as int),
        changed == old(model)@.reshaped_by(message@),
{
    match message {
        ControlMessage::Update(timelines) => {
            model.update_timeline_data_at(timelines, now);
            true
        },
        ControlMessage::Play(name) => {
            proof {
                lemma_select(model@, name@);
            }
            model.set_active_timeline(name.as_str());
            proof {
                match model@.active_index() {
                    Some(i) => {
                        assert(model@.timelines.update(i, model@.timelines[i])
                            =~= model@.timelines);
                    },
                    None => {},
                }
            }
            let mut changed: bool = false;
            match model.get_active_timeline_mut() {
                Some(timeline) => {
                    if timeline.has_name(&name) {
                        timeline.play_at(now);
                        changed = true;
                    }
                },
                None => {},
            }
            changed
        },
        ControlMessage::Stop => {
            proof {
                lemma_active_index(model@);
            }
            match model.get_active_timeline_mut() {
                Some(timeline) => {
                    timeline.stop();
                },
                None => {},
            }
            false
        },
        ControlMessage::Seek(name, position) => {
            proof {
                lemma_first_named::<Timeline>(model@.timelines, name@);
            }
            match model.get_timeline_mut(name.as_str()) {
                Some(timeline) => {
                    timeline.seek_at(position, now);
                },
                None => {},
            }
            false
        },
    }
}

/// What an optional message stands for.
pub open spec fn message_view(message: Option<ControlMessage>) -> Option<ControlMessageView> {
    match message {
        Some(m) => Some(m@),
        None => None,
    }
}

/// What an optional report stands for.
pub open spec fn report_view(report: Option<TimelineSnapshot>) -> Option<TimelineSnapshotView> {
    match report {
        Some(snapshot) => Some(snapshot@),
        None => None,
    }
}

/// One pass of the control loop at time `now`: the pending message, if
/// there is one, is applied; then the active timeline is updated.
pub fn step_at(model: &mut Model, message: Option<ControlMessage>, now: u64) -> (r: Tick)
    requires
        old(model).wf(),
        message matches Some(m) ==> m.wf(),
    ensures
        final(model).wf(),
        final(model)@ == old(model)@.stepped(message_view(message), now as int),
        r.publish_state == old(model)@.step_reshapes(message_view(message)),
        report_view(r.snapshot) == old(model)@.step_report(message_view(message), now as int),
{
    let publish_state: bool = match message {
        Some(m) => apply_at(model, m, now),
        None => false,
    };
    let snapshot: Option<TimelineSnapshot> = model.update_at(now);
    Tick { snapshot, publish_state }
}

/// One pass of the control loop now.
pub fn step(model: &mut Model, message: Option<ControlMessage>) -> (r: Tick)
    requires
        old(model).wf(),
        message matches Some(m) ==> m.wf(),
    ensures
        final(model).wf(),
        r.publish_state == old(model)@.step_reshapes(message_view(message)),
        exists|now: int|
            0 <= now <= u64::MAX && final(model)@ == #[trigger] old(model)@.stepped(
                message_view(message),
                now,
            ) && report_view(r.snapshot) == old(model)@.step_report(message_view(message), now),
{
    let now: u64 = now_nanos();
    step_at(model, message, now)
}

/// The time on a timeline of the given duration of an event at `position`.
fn event_time_of(position: i64, duration: i64) -> (r: i64)
    ensures
        r == event_time(position as int, duration as int),
{
    proof {
        assert(-0x8000_0000_0000_0000 * 0x8000_0000_0000_0000 <= position * duration
            <= 0x8000_0000_0000_0000 * 0x8000_0000_0000_0000) by (nonlinear_arith)
            requires
                -0x8000_0000_0000_0000 <= position < 0x8000_0000_0000_0000,
                -0x8000_0000_0000_0000 <= duration < 0x8000_0000_0000_0000,
        ;
    }
    saturate(div_floor(position as i128 * duration as i128, UNIT as i128))
}

impl TimelineSnapshot {
    /// The event messages that the report gives rise to.
    pub fn event_snapshots(&self) -> (r: Vec<EventSnapshot>)
        ensures
            views(r@) == self@.event_reports(),
    {
        let mut out: Vec<EventSnapshot> = Vec::new();
        proof {
            assert(views(out@) =~= Seq::<EventSnapshotView>::empty());
        }
        if !self.is_playing {
            return out;
        }
        let ghost all = views(self.tracks@);
        let mut i: usize = 0;
        proof {
            assert(all.take(0) =~= Seq::<TrackSnapshotView>::empty());
        }
        while i < self.tracks.len()
            invariant
                i <= self.tracks.len(),
                all == views(self.tracks@),
                views(out@) == tracks_reports(self.name@, self.duration as int, all.take(i as int)),
            decreases self.tracks.len() - i,
        {
            let track: &TrackSnapshot = &self.tracks[i];
            let ghost done = views(out@);
            let ghost wanted = track_reports(self.name@, self.duration as int, track@);
            proof {
                assert(all.take(i + 1).drop_last() =~= all.take(i as int));
                assert(all.take(i + 1).last() == track@);
            }
            match &track.events {
                Some(events) => {
                    let mut j: usize = 0;
                    proof {
                        assert(done + wanted.take(0) =~= done);
                    }
                    while j < events.len()
                        invariant
                            j <= events.len(),
                            track.events == Some(*events),
                            wanted == track_reports(self.name@, self.duration as int, track@),
                            views(out@) == done + wanted.take(j as int),
                        decreases events.len() - j,
                    {
                        let event: &EventTrigger = &events[j];
                        proof {
                            lemma_views_push(out@);
                            assert(wanted.take(j + 1) =~= wanted.take(j as int).push(
                                wanted[j as int],
                            ));
                            assert((done + wanted.take(j as int)).push(wanted[j as int]) =~= done
                                + wanted.take(j + 1));
                        }
                        out.push(
                            EventSnapshot {
                                timeline: self.name.clone(),
                                track: track.name.clone(),
                                position: event.position,
                                time: event_time_of(event.position, self.duration),
                                data: event.data.clone(),
                            },
                        );
                        j = j + 1;
                    }
                    proof {
                        assert(wanted.take(events.len() as int) =~= wanted);
                    }
                },
                None => {
                    proof {
                        assert(done + wanted =~= done);
                    }
                },
            }
            i = i + 1;
        }
        proof {
            assert(all.take(self.tracks.len() as int) =~= all);
        }
        out
    }
}

} // verus!
