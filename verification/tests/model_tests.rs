use tether_timeline::fixed::UNIT;
use tether_timeline::model::Model;
use tether_timeline::timeline::PlayState;
use tether_timeline::timeline::Timeline;
use tether_timeline::track::Track;
use tether_timeline::track::TrackMode;

const SECOND: i64 = 1_000_000_000;
const MS: u64 = 1_000_000;
const T0: u64 = 1_700_000_000_000_000_000;

fn fixed(v: f64) -> i64 {
    (v * UNIT as f64).round() as i64
}

fn names(m: &Model) -> Vec<String> {
    m.timelines().iter().map(|t: &Timeline| t.name().to_string()).collect()
}

fn track_names(t: &Timeline) -> Vec<String> {
    t.get_tracks().iter().map(|t: &&Track| t.name.clone()).collect()
}

fn definition(name: &str, tracks: &[&str]) -> Timeline {
    let mut t = Timeline::new_at(name, 10 * SECOND, 60, true, T0);
    for n in tracks {
        t.add_track(n, TrackMode::Curve).unwrap();
    }
    t
}

// "A" (active, playing, at 0.4) and "B"
fn model_a_b() -> Model {
    let mut m = Model::new(60);
    m.add_timeline_at("A", 10 * SECOND, true, T0).unwrap().add_track("old", TrackMode::Curve).unwrap();
    m.add_timeline_at("B", 10 * SECOND, true, T0).unwrap();
    m.set_active_timeline("A");
    let a = m.get_timeline_mut("A").unwrap();
    a.seek_at(fixed(0.4), T0);
    a.play_at(T0);
    m
}

#[test]
fn new_model_is_empty() {
    let mut m = Model::new(25);
    assert_eq!(m.fps(), 25);
    assert!(m.timelines().is_empty());
    assert_eq!(m.selected_timeline(), None);
    assert!(m.update_at(T0).is_none());
    assert!(m.get_active_timeline_mut().is_none());
}

#[test]
fn add_timeline_selects_it_and_gives_it_the_frame_rate() {
    let mut m = Model::new(25);
    let t = m.add_timeline_at("A", 2 * SECOND, false, T0).unwrap();
    assert_eq!(t.name(), "A");
    assert_eq!(t.fps(), 25);
    assert_eq!(t.duration(), 2 * SECOND);
    assert!(!t.loop_playback());
    assert!(!t.is_playing());
    assert_eq!(m.selected_timeline(), Some("A"));
    m.add_timeline_at("B", SECOND, true, T0).unwrap();
    assert_eq!(m.selected_timeline(), Some("B"));
    assert_eq!(names(&m), vec!["A".to_string(), "B".to_string()]);
}

#[test]
fn add_timeline_rejects_a_name_in_use() {
    let mut m = model_a_b();
    m.set_active_timeline("A");
    assert!(m.add_timeline_at("B", 99 * SECOND, false, T0 + 5).is_err());
    assert_eq!(names(&m), vec!["A".to_string(), "B".to_string()]);
    assert_eq!(m.selected_timeline(), Some("A"));
    assert_eq!(m.get_timeline("B").unwrap().duration(), 10 * SECOND);
    assert!(m.get_timeline("B").unwrap().loop_playback());
    assert_eq!(m.get_timeline("A").unwrap().state(), PlayState::Playing(T0, fixed(0.4)));
}

#[test]
fn get_timeline_finds_by_name() {
    let mut m = model_a_b();
    assert_eq!(m.get_timeline("A").unwrap().get_position(), fixed(0.4));
    assert_eq!(m.get_timeline("B").unwrap().get_position(), 0);
    assert!(m.get_timeline("C").is_none());
    assert!(m.get_timeline_mut("C").is_none());
    m.get_timeline_mut("B").unwrap().seek_at(fixed(0.7), T0);
    assert_eq!(m.get_timeline("B").unwrap().get_position(), fixed(0.7));
    assert_eq!(m.get_timeline("A").unwrap().get_position(), fixed(0.4));
}

#[test]
fn set_active_stops_the_previous_one() {
    let mut m = model_a_b();
    assert!(m.get_timeline("A").unwrap().is_playing());
    m.set_active_timeline("B");
    assert_eq!(m.selected_timeline(), Some("B"));
    assert!(!m.get_timeline("A").unwrap().is_playing());
    assert_eq!(m.get_timeline("A").unwrap().get_position(), fixed(0.4));
    assert!(!m.get_timeline("B").unwrap().is_playing());
}

#[test]
fn set_active_does_nothing_for_the_active_or_an_absent_timeline() {
    let mut m = model_a_b();
    m.set_active_timeline("A");
    assert_eq!(m.selected_timeline(), Some("A"));
    assert_eq!(m.get_timeline("A").unwrap().state(), PlayState::Playing(T0, fixed(0.4)));
    m.set_active_timeline("nope");
    assert_eq!(m.selected_timeline(), Some("A"));
    assert_eq!(m.get_timeline("A").unwrap().state(), PlayState::Playing(T0, fixed(0.4)));
}

#[test]
fn only_the_active_timeline_advances() {
    let mut m = model_a_b();
    m.get_timeline_mut("B").unwrap().play_at(T0);
    let s = m.update_at(T0 + 1_000 * MS).unwrap();
    assert_eq!(s.name, "A");
    assert_eq!(s.position, fixed(0.5));
    assert_eq!(m.get_timeline("A").unwrap().get_position(), fixed(0.5));
    assert_eq!(m.get_timeline("B").unwrap().get_position(), 0);
    assert!(m.get_timeline("B").unwrap().is_playing());
    assert!(m.update_at(T0 + 1_001 * MS).is_none());
}

#[test]
fn active_timeline_is_the_selected_one() {
    let mut m = model_a_b();
    assert_eq!(m.get_active_timeline_mut().unwrap().name(), "A");
    m.set_active_timeline("B");
    assert_eq!(m.get_active_timeline_mut().unwrap().name(), "B");
    m.clean_up();
    assert!(m.get_active_timeline_mut().is_none());
}

#[test]
fn replacement_keeps_playback_of_matching_names() {
    let mut m = model_a_b();
    m.update_at(T0 + 20 * MS);
    let at = m.get_timeline("A").unwrap().get_position();
    assert_eq!(at, fixed(0.402));
    m.update_timeline_data_at(vec![definition("A", &["new", "newer"]), definition("C", &[])], T0 + 30 * MS);
    assert_eq!(names(&m), vec!["A".to_string(), "C".to_string()]);
    let a = m.get_timeline("A").unwrap();
    assert!(a.is_playing());
    assert_eq!(a.get_position(), at);
    assert_eq!(a.state(), PlayState::Playing(T0 + 30 * MS, at));
    assert_eq!(track_names(a), vec!["new".to_string(), "newer".to_string()]);
    let c = m.get_timeline("C").unwrap();
    assert!(!c.is_playing());
    assert_eq!(c.get_position(), 0);
    assert!(m.get_timeline("B").is_none());
    assert_eq!(m.selected_timeline(), Some("A"));
    // playback goes on from where it stood
    let s = m.update_at(T0 + 130 * MS).unwrap();
    assert_eq!(s.name, "A");
    assert_eq!(s.position, at + fixed(0.01));
    assert!(s.is_playing);
}

#[test]
fn replacement_keeps_a_stopped_position() {
    let mut m = model_a_b();
    m.get_timeline_mut("B").unwrap().seek_at(fixed(0.7), T0);
    m.update_timeline_data_at(vec![definition("B", &[])], T0 + MS);
    let b = m.get_timeline("B").unwrap();
    assert_eq!(b.get_position(), fixed(0.7));
    assert!(!b.is_playing());
    assert_eq!(names(&m), vec!["B".to_string()]);
}

#[test]
fn replacement_starts_unmatched_timelines_fresh() {
    let mut m = model_a_b();
    let mut incoming = definition("C", &[]);
    incoming.seek_at(fixed(0.9), T0);
    incoming.play_at(T0);
    m.update_timeline_data_at(vec![incoming], T0 + MS);
    let c = m.get_timeline("C").unwrap();
    assert_eq!(c.get_position(), 0);
    assert!(!c.is_playing());
}

#[test]
fn replacement_takes_the_state_of_the_model_not_of_the_incoming() {
    let mut m = model_a_b();
    m.get_timeline_mut("B").unwrap().seek_at(fixed(0.2), T0);
    let mut incoming = definition("B", &[]);
    incoming.seek_at(fixed(0.9), T0);
    incoming.play_at(T0);
    m.update_timeline_data_at(vec![incoming], T0 + MS);
    let b = m.get_timeline("B").unwrap();
    assert_eq!(b.get_position(), fixed(0.2));
    assert!(!b.is_playing());
}

#[test]
fn replacement_keeps_playback_at_any_frame_rate() {
    for looping in [true, false] {
        let mut m = Model::new(60);
        let a = m.add_timeline_at("A", 10 * SECOND, looping, T0).unwrap();
        a.seek_at(UNIT, T0);
        a.play_at(T0);
        let incoming = Timeline::new_at("A", 3 * SECOND, 2_000_000_000, looping, T0);
        m.update_timeline_data_at(vec![incoming], T0 + MS);
        let a = m.get_timeline("A").unwrap();
        assert_eq!(a.get_position(), UNIT);
        assert!(a.is_playing());
        assert_eq!(a.state(), PlayState::Playing(T0 + MS, UNIT));
        assert_eq!(a.duration(), 3 * SECOND);
        assert_eq!(a.fps(), 2_000_000_000);
    }
}

#[test]
fn replacement_gives_each_name_the_definition_that_came_in() {
    let mut m = model_a_b();
    let mut c = Timeline::new_at("C", 7 * SECOND, 24, false, T0);
    c.add_track("x", TrackMode::Event).unwrap();
    c.add_track("y", TrackMode::Curve).unwrap();
    let mut a = Timeline::new_at("A", 2 * SECOND, 30, false, T0);
    a.add_track("z", TrackMode::Event).unwrap();
    m.update_timeline_data_at(vec![c, a], T0 + MS);
    let c = m.get_timeline("C").unwrap();
    assert_eq!((c.duration(), c.fps(), c.loop_playback()), (7 * SECOND, 24, false));
    assert_eq!(track_names(c), vec!["x".to_string(), "y".to_string()]);
    assert_eq!(c.get_track("x").unwrap().mode(), TrackMode::Event);
    assert_eq!((c.get_position(), c.is_playing()), (0, false));
    let a = m.get_timeline("A").unwrap();
    assert_eq!((a.duration(), a.fps(), a.loop_playback()), (2 * SECOND, 30, false));
    assert_eq!(track_names(a), vec!["z".to_string()]);
    assert_eq!((a.get_position(), a.is_playing()), (fixed(0.4), true));
}

#[test]
fn of_two_incoming_timelines_of_one_name_the_first_is_found() {
    let mut m = model_a_b();
    let first = Timeline::new_at("A", 2 * SECOND, 30, false, T0);
    let second = Timeline::new_at("A", 5 * SECOND, 30, false, T0);
    m.update_timeline_data_at(vec![first, second], T0 + MS);
    assert_eq!(names(&m), vec!["A".to_string(), "A".to_string()]);
    assert_eq!(m.get_timeline("A").unwrap().duration(), 2 * SECOND);
    // both took over the playback of the timeline of their name
    assert!(m.timelines().iter().all(|t: &Timeline| t.get_position() == fixed(0.4)));
    assert!(m.timelines().iter().all(|t: &Timeline| t.is_playing()));
}

#[test]
fn load_takes_over_what_the_file_held() {
    let mut m = model_a_b();
    let rewrite = m.load_at(Some((vec![definition("A", &["x"]), definition("D", &[])], Some("D".to_string()))), T0);
    assert!(!rewrite);
    assert_eq!(names(&m), vec!["A".to_string(), "D".to_string()]);
    assert_eq!(m.selected_timeline(), Some("D"));
    assert_eq!(m.get_timeline("A").unwrap().get_position(), fixed(0.4));
    assert!(!m.get_timeline("A").unwrap().is_playing());
}

#[test]
fn load_of_a_file_without_a_model_asks_for_a_rewrite() {
    let mut m = model_a_b();
    let rewrite = m.load_at(None, T0 + 5);
    assert!(rewrite);
    assert_eq!(names(&m), vec!["A".to_string(), "B".to_string()]);
    assert_eq!(m.selected_timeline(), Some("A"));
    assert_eq!(m.get_timeline("A").unwrap().state(), PlayState::Playing(T0, fixed(0.4)));
    let mut m = Model::new(60);
    assert!(m.load(None));
    assert!(!m.load(Some((vec![definition("A", &[])], None))));
    assert_eq!(names(&m), vec!["A".to_string()]);
}

#[test]
fn replacement_by_nothing_empties_the_model() {
    let mut m = model_a_b();
    m.update_timeline_data_at(Vec::new(), T0);
    assert!(m.timelines().is_empty());
    assert_eq!(m.selected_timeline(), Some("A"));
    assert!(m.update_at(T0 + 1_000 * MS).is_none());
}

#[test]
fn restore_takes_timelines_and_selection() {
    let mut m = Model::new(60);
    m.restore_at(vec![definition("A", &["x"]), definition("B", &[])], Some("B".to_string()), T0);
    assert_eq!(names(&m), vec!["A".to_string(), "B".to_string()]);
    assert_eq!(m.selected_timeline(), Some("B"));
    let mut m = Model::new(60);
    m.restore_at(vec![definition("A", &["x"])], Some("gone".to_string()), T0);
    assert_eq!(m.selected_timeline(), None);
    let mut m = model_a_b();
    m.restore_at(vec![definition("A", &[]), definition("B", &[])], None, T0);
    assert_eq!(m.selected_timeline(), Some("A"));
    assert!(m.get_timeline("A").unwrap().is_playing());
    let mut m = model_a_b();
    m.restore_at(vec![definition("A", &[]), definition("B", &[])], Some("B".to_string()), T0);
    assert_eq!(m.selected_timeline(), Some("B"));
    assert!(!m.get_timeline("A").unwrap().is_playing());
    assert_eq!(m.get_timeline("A").unwrap().get_position(), fixed(0.4));
}

#[test]
fn clean_up_stops_everything() {
    let mut m = model_a_b();
    m.get_timeline_mut("B").unwrap().play_at(T0);
    m.clean_up();
    assert_eq!(m.selected_timeline(), None);
    assert!(m.timelines().iter().all(|t: &Timeline| !t.is_playing()));
    assert_eq!(m.get_timeline("A").unwrap().get_position(), fixed(0.4));
    assert_eq!(names(&m), vec!["A".to_string(), "B".to_string()]);
    assert!(m.update_at(T0 + 1_000 * MS).is_none());
}

#[test]
fn the_clock_forms_of_the_model() {
    let mut m = Model::new(1_000_000_000);
    m.add_timeline("A", 3_600 * SECOND, true).unwrap().play();
    assert!(m.add_timeline("A", SECOND, true).is_err());
    let mut s = m.update();
    while s.is_none() {
        s = m.update();
    }
    assert!(s.unwrap().is_playing);
    m.update_timeline_data(vec![definition("A", &[]), definition("Z", &[])]);
    assert!(m.get_timeline("A").unwrap().is_playing());
    assert!(!m.get_timeline("Z").unwrap().is_playing());
}
