//! Tracks: named channels of a timeline that either carry a curve or a set
//! of discrete events, and what a track reports for one step of playback.

use vstd::prelude::*;
use crate::bezier::curve_value;
use crate::bezier::lemma_bezier_within;
use crate::bezier::solve_t;
use crate::bezier::TOLERANCE;
use crate::convergence::lemma_value_on_curve;
use crate::ordered::after_index;
use crate::ordered::before_index;
use crate::ordered::lemma_after_exists;
use crate::ordered::lemma_before_exists;
use crate::ordered::Keyed;
use crate::bezier::AnchorPoint;
use crate::bezier::BezierCurve;
use crate::bezier::Curve;
use crate::bezier::Point2D;
use crate::lookup::lemma_views_push;
use crate::lookup::views;
use crate::lookup::Named;

verus! {

/// A labelled event at a position of a track.
#[derive(Debug)]
pub struct EventTrigger {
    pub id: String,
    /// Normalized position, in fixed point. Meant to lie between 0 and 1;
    /// nothing enforces it.
    pub position: i64,
    /// The label that is reported when the event fires.
    pub data: String,
}

/// What an `EventTrigger` stands for.
pub struct EventTriggerView {
    pub id: Seq<char>,
    pub position: int,
    pub data: Seq<char>,
}

impl View for EventTrigger {
    type V = EventTriggerView;

    open spec fn view(&self) -> EventTriggerView {
        EventTriggerView { id: self.id@, position: self.position as int, data: self.data@ }
    }
}

/// Whether an event at `position` occurred while the playhead went from
/// `prev` to `cur`. It did where the playhead stands on it; where the
/// playhead moved forward and the event lies in the stretch from `prev`
/// (included) to `cur` (excluded); and where the playhead wrapped around the
/// end (`cur < prev`) and the event lies behind `prev` or in front of `cur`.
pub open spec fn occurs_between(position: int, prev: int, cur: int) -> bool {
    ||| cur == position
    ||| (prev < cur && prev <= position < cur)
    ||| (cur < prev && (position > prev || position < cur))
}

/// The test that picks the events which occurred between `prev` and `cur`.
pub open spec fn fires(prev: int, cur: int) -> spec_fn(EventTriggerView) -> bool {
    |e: EventTriggerView| occurs_between(e.position, prev, cur)
}

/// The events that occurred between `prev` and `cur`, in their order.
pub open spec fn fired(events: Seq<EventTriggerView>, prev: int, cur: int) -> Seq<
    EventTriggerView,
> {
    events.filter(fires(prev, cur))
}

impl Clone for EventTrigger {
    fn clone(&self) -> (r: Self)
        ensures
            r@ == self@,
    {
        EventTrigger { id: self.id.clone(), position: self.position, data: self.data.clone() }
    }
}

impl EventTrigger {
    /// Whether the event occurred while the playhead went from `prev` to
    /// `cur`.
    pub fn occurred_between(&self, prev: i64, cur: i64) -> (r: bool)
        ensures
            r == occurs_between(self.position as int, prev as int, cur as int),
    {
        cur == self.position || (cur > prev && prev <= self.position && self.position < cur) || (cur
            < prev && (self.position > prev || self.position < cur))
    }
}

/// The two kinds of track.
#[derive(Clone, Copy, Debug, PartialEq, Eq, Structural)]
pub enum TrackMode {
    Curve,
    Event,
}

impl Default for TrackMode {
    fn default() -> (r: Self)
        ensures
            r == TrackMode::Curve,
    {
        TrackMode::Curve
    }
}

/// What a track carries: a curve or events, never both and never neither.
#[derive(Debug)]
pub enum TrackPayload {
    Curve(BezierCurve),
    Events(Vec<EventTrigger>),
}

/// What a `TrackPayload` stands for.
pub enum TrackPayloadView {
    Curve(Seq<AnchorPoint>),
    Events(Seq<EventTriggerView>),
}

impl View for TrackPayload {
    type V = TrackPayloadView;

    open spec fn view(&self) -> TrackPayloadView {
        match self {
            TrackPayload::Curve(c) => TrackPayloadView::Curve(c@),
            TrackPayload::Events(e) => TrackPayloadView::Events(views(e@)),
        }
    }
}

/// A named channel of a timeline.
#[derive(Debug)]
pub struct Track {
    pub name: String,
    pub payload: TrackPayload,
}

/// What a `Track` stands for.
pub struct TrackView {
    pub name: Seq<char>,
    pub payload: TrackPayloadView,
}

impl View for Track {
    type V = TrackView;

    open spec fn view(&self) -> TrackView {
        TrackView { name: self.name@, payload: self.payload@ }
    }
}

/// What a track reports for one step of playback.
#[derive(Debug)]
pub struct TrackSnapshot {
    pub name: String,
    /// The value of the curve at the playhead, for a curve track that has
    /// one there.
    pub value: Option<i64>,
    /// The events that occurred during the step, for an event track.
    pub events: Option<Vec<EventTrigger>>,
}

/// What a `TrackSnapshot` stands for.
pub struct TrackSnapshotView {
    pub name: Seq<char>,
    pub value: Option<int>,
    pub events: Option<Seq<EventTriggerView>>,
}

impl View for TrackSnapshot {
    type V = TrackSnapshotView;

    open spec fn view(&self) -> TrackSnapshotView {
        TrackSnapshotView {
            name: self.name@,
            value: match self.value {
                Some(v) => Some(v as int),
                None => None,
            },
            events: match self.events {
                Some(e) => Some(views(e@)),
                None => None,
            },
        }
    }
}

/// The curve that a new curve track starts with: level at one half, from 0
/// to 1.
pub open spec fn default_curve() -> Seq<AnchorPoint> {
    seq![
        AnchorPoint {
            anchor: Point2D { x: 0, y: 500_000_000 },
            control_1: Point2D { x: 0, y: 500_000_000 },
            control_2: Point2D { x: 200_000_000, y: 500_000_000 },
        },
        AnchorPoint {
            anchor: Point2D { x: 1_000_000_000, y: 500_000_000 },
            control_1: Point2D { x: 800_000_000, y: 500_000_000 },
            control_2: Point2D { x: 1_000_000_000, y: 500_000_000 },
        },
    ]
}

impl TrackPayloadView {
    /// What a new track of the given mode carries.
    pub open spec fn fresh(mode: TrackMode) -> TrackPayloadView {
        match mode {
            TrackMode::Curve => TrackPayloadView::Curve(default_curve()),
            TrackMode::Event => TrackPayloadView::Events(Seq::empty()),
        }
    }
}

impl TrackView {
    /// A new track of the given name and mode.
    pub open spec fn fresh(name: Seq<char>, mode: TrackMode) -> TrackView {
        TrackView { name, payload: TrackPayloadView::fresh(mode) }
    }

    /// The mode that the payload belongs to.
    pub open spec fn mode(self) -> TrackMode {
        match self.payload {
            TrackPayloadView::Curve(_) => TrackMode::Curve,
            TrackPayloadView::Events(_) => TrackMode::Event,
        }
    }

    /// What the track reports when the playhead went from `prev` to `cur`:
    /// a curve track the value of its curve at `cur`, an event track the
    /// events that occurred on the way.
    pub open spec fn snapshot(self, prev: int, cur: int) -> TrackSnapshotView {
        match self.payload {
            TrackPayloadView::Curve(points) => TrackSnapshotView {
                name: self.name,
                value: curve_value(points, cur),
                events: None,
            },
            TrackPayloadView::Events(events) => TrackSnapshotView {
                name: self.name,
                value: None,
                events: Some(fired(events, prev, cur)),
            },
        }
    }
}

/// The curve of a new curve track has the value one half everywhere from
/// 0 to 1 and no value elsewhere.
pub proof fn lemma_default_curve_value(x: int)
    ensures
        curve_value(default_curve(), x) == if 0 <= x <= 1_000_000_000 {
            Some(500_000_000int)
        } else {
            None
        },
{
    let points = default_curve();
    if 0 <= x {
        assert(points[0].key() <= x);
    }
    if x <= 1_000_000_000 {
        assert(points[1].key() >= x);
    }
    if 0 <= x <= 1_000_000_000 {
        lemma_value_on_curve(points, x);
        lemma_before_exists(points, x);
        lemma_after_exists(points, x);
        let prev = points[before_index(points, x)];
        let next = points[after_index(points, x)];
        let t = solve_t(
            prev.anchor.x as int,
            prev.control_2.x as int,
            next.control_1.x as int,
            next.anchor.x as int,
            x,
            TOLERANCE as int,
        );
        lemma_bezier_within(
            prev.anchor.y as int,
            prev.control_2.y as int,
            next.control_1.y as int,
            next.anchor.y as int,
            t,
            500_000_000,
            500_000_000,
        );
    }
}

impl Named for Track {
    open spec fn name_of(v: TrackView) -> Seq<char> {
        v.name
    }

    fn has_name(&self, name: &String) -> (r: bool) {
        self.name == *name
    }
}

/// Copies a curve.
fn copy_curve(curve: &BezierCurve) -> (r: BezierCurve)
    ensures
        r@ == curve@,
{
    let mut r: BezierCurve = Vec::new();
    let mut i: usize = 0;
    while i < curve.len()
        invariant
            i <= curve.len(),
            r@ == curve@.take(i as int),
        decreases curve.len() - i,
    {
        r.push(curve[i]);
        proof {
            assert(curve@.take(i + 1) =~= curve@.take(i as int).push(curve@[i as int]));
        }
        i = i + 1;
    }
    proof {
        assert(curve@.take(curve.len() as int) =~= curve@);
    }
    r
}

/// Copies a list of events.
fn copy_events(events: &Vec<EventTrigger>) -> (r: Vec<EventTrigger>)
    ensures
        views(r@) == views(events@),
{
    let mut r: Vec<EventTrigger> = Vec::new();
    let mut i: usize = 0;
    while i < events.len()
        invariant
            i <= events.len(),
            views(r@) == views(events@.take(i as int)),
        decreases events.len() - i,
    {
        proof {
            lemma_views_push(r@);
            lemma_views_push(events@.take(i as int));
            assert(events@.take(i + 1) =~= events@.take(i as int).push(events@[i as int]));
        }
        r.push(events[i].clone());
        i = i + 1;
    }
    proof {
        assert(events@.take(events.len() as int) =~= events@);
    }
    r
}

impl Clone for TrackPayload {
    fn clone(&self) -> (r: Self)
        ensures
            r@ == self@,
    {
        match self {
            TrackPayload::Curve(c) => TrackPayload::Curve(copy_curve(c)),
            TrackPayload::Events(e) => TrackPayload::Events(copy_events(e)),
        }
    }
}

impl Clone for Track {
    fn clone(&self) -> (r: Self)
        ensures
            r@ == self@,
    {
        Track { name: self.name.clone(), payload: self.payload.clone() }
    }
}

impl Track {
    /// A new track: a curve track starts with the default curve, an event
    /// track without events.
    pub fn new(name: &str, mode: TrackMode) -> (r: Self)
        ensures
            r@ == TrackView::fresh(name@, mode),
    {
        match mode {
            TrackMode::Curve => {
                let mut curve: BezierCurve = Vec::new();
                curve.push(
                    AnchorPoint {
                        anchor: Point2D { x: 0, y: 500_000_000 },
                        control_1: Point2D { x: 0, y: 500_000_000 },
                        control_2: Point2D { x: 200_000_000, y: 500_000_000 },
                    },
                );
                curve.push(
                    AnchorPoint {
                        anchor: Point2D { x: 1_000_000_000, y: 500_000_000 },
                        control_1: Point2D { x: 800_000_000, y: 500_000_000 },
                        control_2: Point2D { x: 1_000_000_000, y: 500_000_000 },
                    },
                );
                proof {
                    assert(curve@ =~= default_curve());
                }
                Track { name: name.to_owned(), payload: TrackPayload::Curve(curve) }
            },
            TrackMode::Event => {
                let events: Vec<EventTrigger> = Vec::new();
                proof {
                    assert(views(events@) =~= Seq::<EventTriggerView>::empty());
                }
                Track { name: name.to_owned(), payload: TrackPayload::Events(events) }
            },
        }
    }

    /// The mode of the track, which its payload fixes.
    pub fn mode(&self) -> (r: TrackMode)
        ensures
            r == self@.mode(),
    {
        match &self.payload {
            TrackPayload::Curve(_) => TrackMode::Curve,
            TrackPayload::Events(_) => TrackMode::Event,
        }
    }

    /// Renames the track.
    pub fn set_name(&mut self, name: &str)
        ensures
            final(self)@ == (TrackView { name: name@, ..old(self)@ }),
    {
        self.name = name.to_owned();
    }

    /// What the track reports when the playhead went from `prev_position`
    /// to `cur_position`.
    pub fn snapshot(&self, prev_position: i64, cur_position: i64) -> (r: TrackSnapshot)
        ensures
            r@ == self@.snapshot(prev_position as int, cur_position as int),
    {
        match &self.payload {
            TrackPayload::Curve(curve) => TrackSnapshot {
                name: self.name.clone(),
                value: curve.get_value_at_position(cur_position),
                events: None,
            },
            TrackPayload::Events(events) => {
                let ghost pred = fires(prev_position as int, cur_position as int);
                let ghost all = views(events@);
                let mut list: Vec<EventTrigger> = Vec::new();
                let mut i: usize = 0;
                proof {
                    assert(all.take(0).filter(pred) =~= Seq::<EventTriggerView>::empty());
                    assert(views(list@) =~= Seq::<EventTriggerView>::empty());
                }
                while i < events.len()
                    invariant
                        i <= events.len(),
                        all == views(events@),
                        pred == fires(prev_position as int, cur_position as int),
                        views(list@) == all.take(i as int).filter(pred),
                    decreases events.len() - i,
                {
                    proof {
                        lemma_views_push(list@);
                        all.take(i as int).lemma_filter_push(all[i as int], pred);
                        assert(all.take(i + 1) =~= all.take(i as int).push(all[i as int]));
                    }
                    if events[i].occurred_between(prev_position, cur_position) {
                        list.push(events[i].clone());
                    }
                    i = i + 1;
                }
                proof {
                    assert(all.take(events.len() as int) =~= all);
                }
                TrackSnapshot { name: self.name.clone(), value: None, events: Some(list) }
            },
        }
    }
}

} // verus!
