use tether_timeline::fixed::UNIT;
use tether_timeline::timeline::InvalidDataError;
use tether_timeline::timeline::PlayState;
use tether_timeline::timeline::Timeline;
use tether_timeline::timeline::NANOS_PER_SECOND;
use tether_timeline::track::EventTrigger;
use tether_timeline::track::Track;
use tether_timeline::track::TrackMode;
use tether_timeline::track::TrackPayload;

const SECOND: i64 = 1_000_000_000;
const MS: u64 = 1_000_000;
const T0: u64 = 1_700_000_000_000_000_000;

fn fixed(v: f64) -> i64 {
    (v * UNIT as f64).round() as i64
}

fn names(t: &Timeline) -> Vec<String> {
    t.get_tracks().iter().map(|t: &&Track| t.name.clone()).collect()
}

#[test]
fn new_timeline_is_stopped_at_zero() {
    let t = Timeline::new_at("main", 10 * SECOND, 60, true, T0);
    assert_eq!(t.name(), "main");
    assert_eq!(t.duration(), 10 * SECOND);
    assert_eq!(t.fps(), 60);
    assert!(t.loop_playback());
    assert_eq!(t.get_position(), 0);
    assert!(!t.is_playing());
    assert_eq!(t.state(), PlayState::Stopped);
    assert!(t.get_tracks().is_empty());
}

#[test]
fn default_state_is_stopped() {
    assert_eq!(PlayState::default(), PlayState::Stopped);
}

#[test]
fn error_message() {
    assert_eq!(InvalidDataError.message(), "Invalid data provided");
}

#[test]
fn frame_gate_then_position_follows_elapsed_time() {
    let mut t = Timeline::new_at("main", 10 * SECOND, 60, true, T0);
    t.play_at(T0);
    assert_eq!(t.state(), PlayState::Playing(T0, 0));
    assert!(t.update_at(T0 + 5 * MS).is_none());
    assert_eq!(t.get_position(), 0);
    let s = t.update_at(T0 + 17 * MS).unwrap();
    // 17 ms of 10 s
    assert_eq!(s.position, 1_700_000);
    assert_eq!(s.time, 17_000_000);
    assert_eq!(s.duration, 10 * SECOND);
    assert_eq!(s.name, "main");
    assert!(s.is_playing);
    assert_eq!(t.get_position(), 1_700_000);
}

#[test]
fn frame_duration_follows_from_the_frame_rate() {
    let mut t = Timeline::new_at("main", 10 * SECOND, 60, true, T0);
    t.play_at(T0);
    // a frame at 60 fps lasts 16 666 666 ns
    assert!(t.update_at(T0 + 16_666_665).is_none());
    assert!(t.update_at(T0 + 16_666_666).is_some());
    let mut t = Timeline::new_at("main", 10 * SECOND, 1, true, T0);
    t.play_at(T0);
    assert!(t.update_at(T0 + NANOS_PER_SECOND - 1).is_none());
    assert!(t.update_at(T0 + NANOS_PER_SECOND).is_some());
}

#[test]
fn one_report_per_frame_however_often_polled() {
    let mut t = Timeline::new_at("main", 10 * SECOND, 50, true, T0);
    t.play_at(T0);
    let mut reports = 0;
    let mut now = T0;
    // poll every 100 microseconds for one second
    while now < T0 + NANOS_PER_SECOND {
        now += 100_000;
        if t.update_at(now).is_some() {
            reports += 1;
        }
    }
    assert_eq!(reports, 50);
}

#[test]
fn one_shot_arrives_at_the_end_and_stops() {
    let mut t = Timeline::new_at("once", SECOND, 60, false, T0);
    t.seek_at(fixed(0.99), T0);
    t.play_at(T0);
    let s = t.update_at(T0 + 20 * MS).unwrap();
    assert_eq!(s.position, UNIT);
    assert_eq!(s.time, SECOND);
    assert!(!s.is_playing);
    assert!(!t.is_playing());
    assert_eq!(t.get_position(), UNIT);
    assert!(t.update_at(T0 + 40 * MS).is_none());
    assert!(t.update_at(T0 + 60 * MS).is_none());
    assert!(t.update_at(T0 + 10_000 * MS).is_none());
    assert_eq!(t.get_position(), UNIT);
}

#[test]
fn one_shot_never_exceeds_one() {
    let mut t = Timeline::new_at("once", SECOND, 60, false, T0);
    t.play_at(T0);
    let mut now = T0;
    for _ in 0..200 {
        now += 17 * MS;
        if let Some(s) = t.update_at(now) {
            assert!(0 <= s.position && s.position <= UNIT);
            assert_eq!(s.is_playing, s.position < UNIT);
        }
    }
    assert_eq!(t.get_position(), UNIT);
    assert!(!t.is_playing());
}

#[test]
fn one_shot_before_the_end_keeps_playing() {
    let mut t = Timeline::new_at("once", SECOND, 60, false, T0);
    t.play_at(T0);
    let s = t.update_at(T0 + 500 * MS).unwrap();
    assert_eq!(s.position, UNIT / 2);
    assert!(s.is_playing);
    let s = t.update_at(T0 + 1_000 * MS - 1).unwrap();
    assert_eq!(s.position, UNIT - 1);
    assert!(s.is_playing);
    let s = t.update_at(T0 + 1_000 * MS + 17 * MS).unwrap();
    assert_eq!(s.position, UNIT);
    assert!(!s.is_playing);
}

#[test]
fn looping_wraps_over_many_laps() {
    let mut t = Timeline::new_at("loop", 10 * SECOND, 60, true, T0);
    t.seek_at(fixed(0.25), T0);
    t.play_at(T0);
    // 25 s are two and a half laps
    let s = t.update_at(T0 + 25 * NANOS_PER_SECOND).unwrap();
    assert_eq!(s.position, fixed(0.75));
    assert!(s.is_playing);
    // 1 000 003 s are 100 000 laps and three tenths
    let s = t.update_at(T0 + 1_000_003 * NANOS_PER_SECOND).unwrap();
    assert_eq!(s.position, fixed(0.55));
    assert_eq!(s.time, 5_500_000_000);
}

#[test]
fn looping_position_stays_below_one() {
    let mut t = Timeline::new_at("loop", SECOND, 60, true, T0);
    t.play_at(T0);
    let s = t.update_at(T0 + NANOS_PER_SECOND).unwrap();
    assert_eq!(s.position, 0);
    let s = t.update_at(T0 + 2 * NANOS_PER_SECOND - 1).unwrap();
    assert_eq!(s.position, UNIT - 1);
    assert!(t.is_playing());
}

#[test]
fn seek_clamps() {
    let mut t = Timeline::new_at("main", SECOND, 60, true, T0);
    t.seek_at(fixed(0.4), T0);
    assert_eq!(t.get_position(), fixed(0.4));
    t.seek_at(fixed(1.5), T0);
    assert_eq!(t.get_position(), UNIT);
    t.seek_at(-1, T0);
    assert_eq!(t.get_position(), 0);
    t.seek_at(i64::MIN, T0);
    assert_eq!(t.get_position(), 0);
    t.seek_at(i64::MAX, T0);
    assert_eq!(t.get_position(), UNIT);
    t.seek_at(0, T0);
    assert_eq!(t.get_position(), 0);
    t.seek_at(UNIT, T0);
    assert_eq!(t.get_position(), UNIT);
    assert!(!t.is_playing());
}

#[test]
fn seek_while_playing_keeps_the_rate() {
    let mut a = Timeline::new_at("a", 10 * SECOND, 60, false, T0);
    a.play_at(T0);
    let before = a.update_at(T0 + 100 * MS).unwrap().position;
    let after = a.update_at(T0 + 200 * MS).unwrap().position;
    a.seek_at(fixed(0.5), T0 + 200 * MS);
    assert_eq!(a.state(), PlayState::Playing(T0 + 200 * MS, fixed(0.5)));
    let first = a.update_at(T0 + 300 * MS).unwrap().position;
    let second = a.update_at(T0 + 400 * MS).unwrap().position;
    assert_eq!(after - before, fixed(0.01));
    assert_eq!(first - fixed(0.5), fixed(0.01));
    assert_eq!(second - first, fixed(0.01));
}

#[test]
fn play_twice_does_not_restart() {
    let mut t = Timeline::new_at("a", 10 * SECOND, 60, true, T0);
    t.play_at(T0);
    t.play_at(T0 + 500 * MS);
    assert_eq!(t.state(), PlayState::Playing(T0, 0));
}

#[test]
fn stop_keeps_the_position() {
    let mut t = Timeline::new_at("a", 10 * SECOND, 60, true, T0);
    t.play_at(T0);
    t.update_at(T0 + NANOS_PER_SECOND);
    t.stop();
    assert!(!t.is_playing());
    assert_eq!(t.get_position(), fixed(0.1));
    // one settling report, then silence
    let s = t.update_at(T0 + 2 * NANOS_PER_SECOND).unwrap();
    assert_eq!(s.position, fixed(0.1));
    assert!(!s.is_playing);
    assert!(t.update_at(T0 + 3 * NANOS_PER_SECOND).is_none());
    // playing again goes on from there
    t.play_at(T0 + 4 * NANOS_PER_SECOND);
    let s = t.update_at(T0 + 5 * NANOS_PER_SECOND).unwrap();
    assert_eq!(s.position, fixed(0.2));
}

#[test]
fn stopped_timeline_reports_once_after_a_change() {
    let mut t = Timeline::new_at("a", SECOND, 60, true, T0);
    // new timelines are due to report
    assert!(t.update_at(T0 + 5 * MS).is_none());
    assert!(t.update_at(T0 + 20 * MS).is_some());
    assert!(t.update_at(T0 + 40 * MS).is_none());
    t.seek_at(fixed(0.3), T0 + 50 * MS);
    let s = t.update_at(T0 + 60 * MS).unwrap();
    assert_eq!(s.position, fixed(0.3));
    assert!(t.update_at(T0 + 80 * MS).is_none());
    t.set_name("b");
    assert_eq!(t.update_at(T0 + 100 * MS).unwrap().name, "b");
    assert!(t.update_at(T0 + 120 * MS).is_none());
    t.add_track("x", TrackMode::Curve).unwrap();
    assert_eq!(t.update_at(T0 + 140 * MS).unwrap().tracks.len(), 1);
    assert!(t.update_at(T0 + 160 * MS).is_none());
    t.remove_track("x");
    assert_eq!(t.update_at(T0 + 180 * MS).unwrap().tracks.len(), 0);
    assert!(t.update_at(T0 + 200 * MS).is_none());
}

#[test]
fn a_clock_that_went_back_opens_no_gate() {
    let mut t = Timeline::new_at("a", SECOND, 60, true, T0);
    t.play_at(T0);
    assert!(t.update_at(T0 - 1_000 * MS).is_none());
    assert!(t.update_at(0).is_none());
    assert_eq!(t.get_position(), 0);
    // a start in the future counts as no time elapsed
    let mut t = Timeline::new_at("a", SECOND, 60, true, T0);
    t.seek_at(fixed(0.5), T0);
    t.play_at(T0 + 10 * NANOS_PER_SECOND);
    let s = t.update_at(T0 + NANOS_PER_SECOND).unwrap();
    assert_eq!(s.position, fixed(0.5));
}

#[test]
fn add_track_rejects_a_name_in_use() {
    let mut t = Timeline::new_at("a", SECOND, 60, true, T0);
    assert!(t.add_track("x", TrackMode::Curve).is_ok());
    assert!(t.add_track("y", TrackMode::Event).is_ok());
    t.update_at(T0 + 20 * MS);
    assert!(t.add_track("x", TrackMode::Event).is_err());
    assert_eq!(names(&t), vec!["x".to_string(), "y".to_string()]);
    assert_eq!(t.get_track("x").unwrap().mode(), TrackMode::Curve);
    // the failed call asked for no report
    assert!(t.update_at(T0 + 40 * MS).is_none());
}

#[test]
fn add_track_hands_out_the_new_track() {
    let mut t = Timeline::new_at("a", SECOND, 60, true, T0);
    let track = t.add_track("cues", TrackMode::Event).unwrap();
    assert_eq!(track.name, "cues");
    track.payload = TrackPayload::Events(vec![EventTrigger {
        id: "e".to_string(),
        position: fixed(0.5),
        data: "go".to_string(),
    }]);
    match &t.get_track("cues").unwrap().payload {
        TrackPayload::Events(e) => assert_eq!(e.len(), 1),
        TrackPayload::Curve(_) => panic!("an event track carries events"),
    }
}

#[test]
fn remove_track_puts_the_last_in_its_place() {
    let mut t = Timeline::new_at("a", SECOND, 60, true, T0);
    for n in ["a", "b", "c", "d"] {
        t.add_track(n, TrackMode::Curve).unwrap();
    }
    t.remove_track("b");
    assert_eq!(names(&t), vec!["a".to_string(), "d".to_string(), "c".to_string()]);
    t.remove_track("nope");
    assert_eq!(names(&t), vec!["a".to_string(), "d".to_string(), "c".to_string()]);
    t.remove_track("c");
    assert_eq!(names(&t), vec!["a".to_string(), "d".to_string()]);
    assert!(t.get_track("b").is_none());
}

#[test]
fn get_track_mut_changes_in_place() {
    let mut t = Timeline::new_at("a", SECOND, 60, true, T0);
    t.add_track("x", TrackMode::Curve).unwrap();
    t.add_track("y", TrackMode::Curve).unwrap();
    t.get_track_mut("y").unwrap().set_name("z");
    assert!(t.get_track_mut("y").is_none());
    assert_eq!(names(&t), vec!["x".to_string(), "z".to_string()]);
}

#[test]
fn snapshot_reports_every_track() {
    let mut t = Timeline::new_at("a", 2 * SECOND, 60, true, T0);
    t.add_track("level", TrackMode::Curve).unwrap();
    let cues = t.add_track("cues", TrackMode::Event).unwrap();
    cues.payload = TrackPayload::Events(vec![
        EventTrigger { id: "1".to_string(), position: fixed(0.1), data: "one".to_string() },
        EventTrigger { id: "2".to_string(), position: fixed(0.6), data: "two".to_string() },
    ]);
    t.play_at(T0);
    let s = t.update_at(T0 + 400 * MS).unwrap();
    assert_eq!(s.position, fixed(0.2));
    assert_eq!(s.time, 400_000_000);
    assert_eq!(s.tracks.len(), 2);
    assert_eq!(s.tracks[0].name, "level");
    assert_eq!(s.tracks[0].value, Some(500_000_000));
    assert!(s.tracks[0].events.is_none());
    assert_eq!(s.tracks[1].name, "cues");
    assert_eq!(s.tracks[1].value, None);
    let fired: Vec<&str> =
        s.tracks[1].events.as_ref().unwrap().iter().map(|e: &EventTrigger| e.data.as_str()).collect();
    assert_eq!(fired, vec!["one"]);
    let s = t.update_at(T0 + 1_000 * MS).unwrap();
    assert!(s.tracks[1].events.as_ref().unwrap().is_empty());
    let s = t.update_at(T0 + 1_400 * MS).unwrap();
    assert_eq!(s.tracks[1].events.as_ref().unwrap().len(), 1);
    assert_eq!(s.tracks[1].events.as_ref().unwrap()[0].data, "two");
}

#[test]
fn get_snapshot_of_the_state_as_it_is() {
    let mut t = Timeline::new_at("a", 4 * SECOND, 60, true, T0);
    t.seek_at(fixed(0.25), T0);
    let s = t.get_snapshot(0);
    assert_eq!(s.position, fixed(0.25));
    assert_eq!(s.time, SECOND);
    assert!(!s.is_playing);
    // the widest duration still has its time
    let mut t = Timeline::new_at("a", i64::MAX, 60, true, T0);
    t.seek_at(UNIT, T0);
    assert_eq!(t.get_snapshot(0).time, i64::MAX);
}

#[test]
fn tick_over_the_seam_reports_the_event_once() {
    let mut t = Timeline::new_at("loop", SECOND, 60, true, T0);
    let cues = t.add_track("cues", TrackMode::Event).unwrap();
    cues.payload = TrackPayload::Events(vec![EventTrigger {
        id: "e".to_string(),
        position: fixed(0.99),
        data: "seam".to_string(),
    }]);
    t.seek_at(fixed(0.94), T0);
    t.play_at(T0);
    let mut fired = 0;
    let mut seen = Vec::new();
    for k in 1..=5u64 {
        let s = t.update_at(T0 + k * 40 * MS).unwrap();
        seen.push(s.position);
        fired += s.tracks[0].events.as_ref().unwrap().len();
    }
    assert_eq!(seen, vec![fixed(0.98), fixed(0.02), fixed(0.06), fixed(0.10), fixed(0.14)]);
    assert_eq!(fired, 1);
}

#[test]
fn copy_keeps_position_and_play_state() {
    let mut t = Timeline::new_at("a", 3 * SECOND, 30, true, T0);
    t.add_track("x", TrackMode::Curve).unwrap();
    t.add_track("y", TrackMode::Event).unwrap();
    t.seek_at(fixed(0.4), T0);
    let c = Timeline::from_at(&t, T0 + 7);
    assert_eq!(c.name(), "a");
    assert_eq!(c.duration(), 3 * SECOND);
    assert_eq!(c.fps(), 30);
    assert!(c.loop_playback());
    assert_eq!(c.get_position(), fixed(0.4));
    assert!(!c.is_playing());
    assert_eq!(names(&c), vec!["x".to_string(), "y".to_string()]);
    assert_eq!(c.get_track("y").unwrap().mode(), TrackMode::Event);
    t.play_at(T0 + 8);
    let c = Timeline::from_at(&t, T0 + 9);
    assert_eq!(c.state(), PlayState::Playing(T0 + 9, fixed(0.4)));
}

#[test]
fn copy_keeps_playback_at_any_frame_rate() {
    // frames shorter than a nanosecond: the frame gate is always open
    for looping in [true, false] {
        let mut t = Timeline::new_at("a", SECOND, 2_000_000_000, looping, T0);
        t.seek_at(UNIT, T0);
        t.play_at(T0);
        let c = Timeline::from_at(&t, T0 + 5);
        assert_eq!(c.get_position(), UNIT);
        assert_eq!(c.state(), PlayState::Playing(T0 + 5, UNIT));
        assert_eq!(c.fps(), 2_000_000_000);
        let mut t = Timeline::new_at("a", SECOND, u32::MAX, looping, T0);
        t.seek_at(fixed(0.3), T0);
        let c = Timeline::from_at(&t, T0 + 5);
        assert_eq!(c.get_position(), fixed(0.3));
        assert!(!c.is_playing());
    }
}

#[test]
fn copy_is_due_to_report_and_not_yet_updated() {
    let mut t = Timeline::new_at("a", 10 * SECOND, 60, true, T0);
    t.play_at(T0);
    t.update_at(T0 + 1_000 * MS);
    let mut c = Timeline::from_at(&t, T0 + 1_500 * MS);
    assert_eq!(c.get_position(), fixed(0.1));
    assert!(c.update_at(T0 + 1_501 * MS).is_none());
    let s = c.update_at(T0 + 2_500 * MS).unwrap();
    assert_eq!(s.position, fixed(0.2));
}

#[test]
fn copy_keeps_the_first_track_of_each_name() {
    let mut t = Timeline::new_at("a", SECOND, 60, true, T0);
    t.add_track("x", TrackMode::Curve).unwrap();
    t.add_track("y", TrackMode::Event).unwrap();
    t.add_track("z", TrackMode::Event).unwrap();
    t.get_track_mut("z").unwrap().set_name("x");
    assert_eq!(names(&t), vec!["x".to_string(), "y".to_string(), "x".to_string()]);
    let c = Timeline::from_at(&t, T0);
    assert_eq!(names(&c), vec!["x".to_string(), "y".to_string()]);
    assert_eq!(c.get_track("x").unwrap().mode(), TrackMode::Curve);
}

#[test]
fn the_clock_forms_agree_with_the_timed_forms() {
    let mut t = Timeline::new("a", 3_600 * SECOND, 1_000_000_000, true);
    assert!(!t.is_playing());
    t.seek(fixed(0.5));
    assert_eq!(t.get_position(), fixed(0.5));
    t.play();
    assert!(t.is_playing());
    // a frame lasts one nanosecond, so the next update is behind the frame gate
    let mut s = t.update();
    while s.is_none() {
        s = t.update();
    }
    let s = s.unwrap();
    assert!(s.is_playing);
    assert!(s.position >= fixed(0.5) && s.position < fixed(0.51));
    let c = Timeline::from(&t);
    assert!(c.is_playing());
    assert_eq!(c.name(), "a");
}
