use tether_timeline::bezier::AnchorPoint;
use tether_timeline::bezier::Curve;
use tether_timeline::bezier::Point2D;
use tether_timeline::fixed::UNIT;
use tether_timeline::track::EventTrigger;
use tether_timeline::track::Track;
use tether_timeline::track::TrackMode;
use tether_timeline::track::TrackPayload;

fn fixed(v: f64) -> i64 {
    (v * UNIT as f64).round() as i64
}

fn event(id: &str, position: f64) -> EventTrigger {
    EventTrigger { id: id.to_string(), position: fixed(position), data: format!("{}-data", id) }
}

fn event_track(name: &str, events: Vec<EventTrigger>) -> Track {
    let mut t = Track::new(name, TrackMode::Event);
    t.payload = TrackPayload::Events(events);
    t
}

fn fired_ids(track: &Track, prev: f64, cur: f64) -> Vec<String> {
    let snapshot = track.snapshot(fixed(prev), fixed(cur));
    snapshot.events.unwrap().iter().map(|e: &EventTrigger| e.id.clone()).collect()
}

#[test]
fn occurred_on_exact_hit() {
    let e = event("e", 0.5);
    assert!(e.occurred_between(fixed(0.1), fixed(0.5)));
    assert!(e.occurred_between(fixed(0.9), fixed(0.5)));
    assert!(e.occurred_between(fixed(0.5), fixed(0.5)));
}

#[test]
fn occurred_forward() {
    let e = event("e", 0.5);
    assert!(e.occurred_between(fixed(0.5), fixed(0.6)));
    assert!(e.occurred_between(fixed(0.4), fixed(0.6)));
    assert!(e.occurred_between(fixed(0.4), fixed(0.5) + 1));
    assert!(!e.occurred_between(fixed(0.4), fixed(0.5) - 1));
    assert!(!e.occurred_between(fixed(0.5) + 1, fixed(0.6)));
    assert!(!e.occurred_between(fixed(0.1), fixed(0.2)));
    assert!(!e.occurred_between(fixed(0.7), fixed(0.8)));
}

#[test]
fn occurred_wrapped() {
    let e = event("e", 0.95);
    assert!(e.occurred_between(fixed(0.98), fixed(0.02)) == false);
    let e = event("e", 0.99);
    assert!(e.occurred_between(fixed(0.98), fixed(0.02)));
    let e = event("e", 0.01);
    assert!(e.occurred_between(fixed(0.98), fixed(0.02)));
    let e = event("e", 0.5);
    assert!(!e.occurred_between(fixed(0.98), fixed(0.02)));
    // the position left behind is not passed again
    let e = event("e", 0.98);
    assert!(!e.occurred_between(fixed(0.98), fixed(0.02)));
    // the position arrived at is
    let e = event("e", 0.02);
    assert!(e.occurred_between(fixed(0.98), fixed(0.02)));
}

#[test]
fn not_occurred_at_rest() {
    let e = event("e", 0.5);
    assert!(!e.occurred_between(fixed(0.3), fixed(0.3)));
    assert!(e.occurred_between(fixed(0.5), fixed(0.5)));
}

#[test]
fn wrap_around_tick_fires_boundary_event_once() {
    let track = event_track("cues", vec![event("late", 0.99)]);
    assert_eq!(fired_ids(&track, 0.98, 0.02), vec!["late".to_string()]);
    // the next tick, forward from 0.02, does not fire it again
    assert_eq!(fired_ids(&track, 0.02, 0.06), Vec::<String>::new());
    // nor did the tick before
    assert_eq!(fired_ids(&track, 0.94, 0.98), Vec::<String>::new());
}

#[test]
fn each_event_fires_once_per_lap() {
    let positions = [0.0, 0.1, 0.25, 0.5, 0.95, 0.999];
    let events: Vec<EventTrigger> =
        positions.iter().enumerate().map(|(i, p)| event(&format!("e{}", i), *p)).collect();
    let track = event_track("cues", events);
    let mut counts = vec![0; positions.len()];
    // a step that never lands the playhead on an event
    let step = fixed(0.03) + 7;
    let mut prev = fixed(0.02);
    let mut cur = prev;
    let mut laps = 0;
    while laps < 1 || cur < fixed(0.02) {
        let mut next = cur + step;
        if next >= UNIT {
            next -= UNIT;
            laps += 1;
        }
        prev = cur;
        cur = next;
        let snapshot = track.snapshot(prev, cur);
        for e in snapshot.events.unwrap() {
            let i: usize = e.id[1..].parse().unwrap();
            counts[i] += 1;
        }
    }
    assert_eq!(counts, vec![1; positions.len()]);
}

#[test]
fn an_event_the_playhead_lands_on_fires_on_arrival_and_on_departure() {
    let track = event_track("cues", vec![event("e", 0.5)]);
    assert_eq!(fired_ids(&track, 0.47, 0.5), vec!["e".to_string()]);
    assert_eq!(fired_ids(&track, 0.5, 0.53), vec!["e".to_string()]);
    assert_eq!(fired_ids(&track, 0.53, 0.56), Vec::<String>::new());
}

#[test]
fn an_event_in_front_of_the_seam_fires_on_the_tick_that_passes_it() {
    let track = event_track("cues", vec![event("e", 0.95)]);
    assert_eq!(fired_ids(&track, 0.94, 0.98), vec!["e".to_string()]);
    assert_eq!(fired_ids(&track, 0.98, 0.02), Vec::<String>::new());
}

#[test]
fn snapshot_keeps_the_order_of_events() {
    let track = event_track(
        "cues",
        vec![event("c", 0.3), event("a", 0.1), event("z", 0.9), event("b", 0.2)],
    );
    assert_eq!(
        fired_ids(&track, 0.05, 0.35),
        vec!["c".to_string(), "a".to_string(), "b".to_string()]
    );
    let snapshot = track.snapshot(fixed(0.05), fixed(0.35));
    assert_eq!(snapshot.name, "cues");
    assert_eq!(snapshot.value, None);
    let first = &snapshot.events.unwrap()[0];
    assert_eq!(first.position, fixed(0.3));
    assert_eq!(first.data, "c-data");
}

#[test]
fn new_curve_track_has_the_default_curve() {
    let t = Track::new("level", TrackMode::Curve);
    assert_eq!(t.name, "level");
    assert_eq!(t.mode(), TrackMode::Curve);
    match &t.payload {
        TrackPayload::Curve(c) => {
            assert_eq!(c.len(), 2);
            let a: &AnchorPoint = &c[0];
            assert_eq!((a.anchor.x, a.anchor.y), (0, 500_000_000));
            assert_eq!((a.control_1.x, a.control_1.y), (0, 500_000_000));
            assert_eq!((a.control_2.x, a.control_2.y), (200_000_000, 500_000_000));
            let b: &AnchorPoint = &c[1];
            assert_eq!((b.anchor.x, b.anchor.y), (UNIT, 500_000_000));
            assert_eq!((b.control_1.x, b.control_1.y), (800_000_000, 500_000_000));
            assert_eq!((b.control_2.x, b.control_2.y), (UNIT, 500_000_000));
        }
        TrackPayload::Events(_) => panic!("a curve track carries a curve"),
    }
}

#[test]
fn new_event_track_has_no_events() {
    let t = Track::new("cues", TrackMode::Event);
    assert_eq!(t.mode(), TrackMode::Event);
    match &t.payload {
        TrackPayload::Events(e) => assert!(e.is_empty()),
        TrackPayload::Curve(_) => panic!("an event track carries events"),
    }
}

#[test]
fn default_mode_is_curve() {
    assert_eq!(TrackMode::default(), TrackMode::Curve);
}

#[test]
fn set_name_renames() {
    let mut t = Track::new("a", TrackMode::Event);
    t.set_name("b");
    assert_eq!(t.name, "b");
    assert_eq!(t.mode(), TrackMode::Event);
}

#[test]
fn curve_track_snapshot_has_the_value_at_the_playhead() {
    let t = Track::new("level", TrackMode::Curve);
    for k in 0..=10 {
        let s = t.snapshot(0, UNIT / 10 * k);
        assert_eq!(s.name, "level");
        assert!(s.events.is_none());
        assert_eq!(s.value, Some(500_000_000));
    }
    let s = t.snapshot(0, UNIT + 1);
    assert_eq!(s.value, None);
}

#[test]
fn curve_track_snapshot_follows_the_curve() {
    let mut t = Track::new("ramp", TrackMode::Curve);
    let mut c = Vec::new();
    c.add_anchor_point(
        Point2D { x: 0, y: 0 },
        Point2D { x: 0, y: 0 },
        Point2D { x: fixed(1.0 / 3.0), y: fixed(1.0 / 3.0) },
    );
    c.add_anchor_point(
        Point2D { x: UNIT, y: UNIT },
        Point2D { x: fixed(2.0 / 3.0), y: fixed(2.0 / 3.0) },
        Point2D { x: UNIT, y: UNIT },
    );
    t.payload = TrackPayload::Curve(c);
    for k in 0..=10 {
        let x = UNIT / 10 * k;
        let y = t.snapshot(0, x).value.unwrap();
        assert!((y - x).abs() <= 200_000, "x {} y {}", x, y);
    }
}

#[test]
fn clone_copies_everything() {
    let t = event_track("cues", vec![event("a", 0.1), event("b", 0.2)]);
    let c = t.clone();
    assert_eq!(c.name, "cues");
    assert_eq!(fired_ids(&c, 0.0, 1.0), vec!["a".to_string(), "b".to_string()]);
    let e = event("x", 0.25).clone();
    assert_eq!((e.id.as_str(), e.position, e.data.as_str()), ("x", fixed(0.25), "x-data"));
}
