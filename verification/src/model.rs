//! The model: the timelines by name, and the one among them that is
//! active, which alone is advanced by `update`.

use vstd::prelude::*;
use crate::clock::now_nanos;
use crate::lookup::find_named;
use crate::lookup::first_named;
use crate::lookup::has_named;
use crate::lookup::lemma_first_named;
use crate::lookup::lemma_views_push;
use crate::lookup::lemma_views_update;
use crate::lookup::views;
use crate::playback::lemma_replacement_keeps_playback;
use crate::timeline::InvalidDataError;
use crate::timeline::Timeline;
use crate::timeline::TimelineSnapshot;
use crate::timeline::TimelineSnapshotView;
use crate::timeline::TimelineView;

verus! {

/// The timelines and the name of the active one.
#[derive(Debug)]
pub struct Model {
    timelines: Vec<Timeline>,
    selected_timeline: Option<String>,
    /// The frame rate that `add_timeline` gives a new timeline.
    fps: u32,
}

/// What a `Model` stands for.
pub struct ModelView {
    pub timelines: Seq<TimelineView>,
    pub selected_timeline: Option<Seq<char>>,
    pub fps: int,
}

/// What an optional name stands for.
pub open spec fn name_view(name: Option<String>) -> Option<Seq<char>> {
    match name {
        Some(name) => Some(name@),
        None => None,
    }
}

impl View for Model {
    type V = ModelView;

    closed spec fn view(&self) -> ModelView {
        ModelView {
            timelines: views(self.timelines@),
            selected_timeline: name_view(self.selected_timeline),
            fps: self.fps as int,
        }
    }
}

impl ModelView {
    /// What holds of every model: a positive frame rate, and timelines that
    /// are all well formed.
    pub open spec fn wf(self) -> bool {
        &&& 0 < self.fps <= u32::MAX
        &&& forall|i: int| 0 <= i < self.timelines.len() ==> (#[trigger] self.timelines[i]).wf()
    }

    /// The index of the first timeline called `name`.
    pub open spec fn timeline_index(self, name: Seq<char>) -> Option<int> {
        first_named::<Timeline>(self.timelines, name)
    }

    /// Whether a timeline is called `name`.
    pub open spec fn has_timeline(self, name: Seq<char>) -> bool {
        has_named::<Timeline>(self.timelines, name)
    }

    /// The index of the active timeline: the first one that carries the
    /// selected name.
    pub open spec fn active_index(self) -> Option<int> {
        match self.selected_timeline {
            Some(name) => self.timeline_index(name),
            None => None,
        }
    }

    /// The model after `name` was asked to become active. Nothing changes
    /// where `name` is selected already or no timeline is called so; else
    /// the timeline that was active is stopped and `name` is selected.
    pub open spec fn select(self, name: Seq<char>) -> ModelView {
        if self.selected_timeline == Some(name) || !self.has_timeline(name) {
            self
        } else {
            ModelView {
                timelines: match self.active_index() {
                    Some(i) => self.timelines.update(i, self.timelines[i].stop()),
                    None => self.timelines,
                },
                selected_timeline: Some(name),
                ..self
            }
        }
    }

    /// The model after an update at time `now`: the active timeline is
    /// updated, the others are left alone.
    pub open spec fn advance(self, now: int) -> ModelView {
        match self.active_index() {
            Some(i) => ModelView {
                timelines: self.timelines.update(i, self.timelines[i].advance(now)),
                ..self
            },
            None => self,
        }
    }

    /// What an update at time `now` reports: what the active timeline
    /// reports, and nothing without one.
    pub open spec fn report(self, now: int) -> Option<TimelineSnapshotView> {
        match self.active_index() {
            Some(i) => self.timelines[i].report(now),
            None => None,
        }
    }

    /// The position that a timeline called `name` takes over in a
    /// replacement: that of the timeline of that name, and 0 where there is
    /// none.
    pub open spec fn kept_position(self, name: Seq<char>) -> int {
        match self.timeline_index(name) {
            Some(i) => self.timelines[i].position,
            None => 0,
        }
    }

    /// Whether a timeline called `name` plays after a replacement: as the
    /// timeline of that name does, and not where there is none.
    pub open spec fn kept_playing(self, name: Seq<char>) -> bool {
        match self.timeline_index(name) {
            Some(i) => self.timelines[i].is_playing(),
            None => false,
        }
    }

    /// What an incoming timeline becomes when it replaces the timelines of
    /// this model at time `now`. It takes over position and playing or
    /// stopped from the timeline of its name here; where there is none it
    /// starts stopped at position 0.
    pub open spec fn carried_over(self, incoming: TimelineView, now: int) -> TimelineView {
        let placed = incoming.stop().seek(self.kept_position(incoming.name), now);
        let started = if self.kept_playing(incoming.name) {
            placed.play(now)
        } else {
            placed
        };
        started.rebuilt(now)
    }

    /// The model after its timelines were replaced by `data` at time `now`.
    pub open spec fn replaced(self, data: Seq<TimelineView>, now: int) -> ModelView {
        ModelView {
            timelines: Seq::new(data.len(), |i: int| self.carried_over(data[i], now)),
            ..self
        }
    }

    /// The model after it took over at time `now` what was stored: the
    /// timelines replace those of the model, then the stored selection, if
    /// there was one, is asked to become active.
    pub open spec fn restored(
        self,
        timelines: Seq<TimelineView>,
        selected: Option<Seq<char>>,
        now: int,
    ) -> ModelView {
        match selected {
            Some(name) => self.replaced(timelines, now).select(name),
            None => self.replaced(timelines, now),
        }
    }

    /// The model with every timeline stopped and none selected.
    pub open spec fn halted(self) -> ModelView {
        ModelView {
            timelines: Seq::new(self.timelines.len(), |i: int| self.timelines[i].stop()),
            selected_timeline: None,
            ..self
        }
    }
}

/// The active timeline is one of the timelines and carries the selected
/// name.
pub proof fn lemma_active_index(m: ModelView)
    ensures
        match m.active_index() {
            Some(i) => 0 <= i < m.timelines.len() && Some(m.timelines[i].name)
                == m.selected_timeline,
            None => true,
        },
{
    match m.selected_timeline {
        Some(name) => {
            lemma_first_named::<Timeline>(m.timelines, name);
        },
        None => {},
    }
}

impl Model {
    /// What holds of every model that this module hands out.
    pub open spec fn wf(&self) -> bool {
        self@.wf()
    }

    /// An empty model whose new timelines run at `fps` frames per second.
    pub fn new(fps: u32) -> (r: Self)
        requires
            fps > 0,
        ensures
            r.wf(),
            r@ == (ModelView { timelines: Seq::empty(), selected_timeline: None, fps: fps as int }),
    {
        let timelines: Vec<Timeline> = Vec::new();
        proof {
            assert(views(timelines@) =~= Seq::<TimelineView>::empty());
        }
        Model { timelines, selected_timeline: None, fps }
    }

    pub fn fps(&self) -> (r: u32)
        ensures
            r == self@.fps,
    {
        self.fps
    }

    /// The timelines, in their order.
    pub fn timelines(&self) -> (r: &Vec<Timeline>)
        ensures
            views(r@) == self@.timelines,
    {
        &self.timelines
    }

    /// The selected name.
    pub fn selected_timeline(&self) -> (r: Option<&str>)
        ensures
            match r {
                Some(name) => self@.selected_timeline == Some(name@),
                None => self@.selected_timeline.is_none(),
            },
    {
        match &self.selected_timeline {
            Some(name) => Some(name.as_str()),
            None => None,
        }
    }

    /// Adds at time `now` a new timeline of the given name, duration (in
    /// nanoseconds) and looping behind the others, selects it and hands it
    /// out. Where a timeline of that name exists the model is left as it
    /// is.
    pub fn add_timeline_at(&mut self, name: &str, duration: i64, loop_playback: bool, now: u64) -> (r:
        Result<&mut Timeline, InvalidDataError>)
        requires
            old(self).wf(),
            duration > 0,
        ensures
            match r {
                Ok(timeline) => {
                    &&& !old(self)@.has_timeline(name@)
                    &&& timeline.wf()
                    &&& timeline@ == TimelineView::fresh(
                        name@,
                        duration as int,
                        old(self)@.fps,
                        loop_playback,
                        now as int,
                    )
                    &&& final(self)@ == (ModelView {
                        timelines: old(self)@.timelines.push(final(timeline)@),
                        selected_timeline: Some(name@),
                        ..old(self)@
                    })
                },
                Err(_) => old(self)@.has_timeline(name@) && final(self)@ == old(self)@,
            },
    {
        let key: String = name.to_owned();
        proof {
            lemma_first_named::<Timeline>(self@.timelines, name@);
        }
        match find_named(&self.timelines, &key) {
            Some(_) => Err(InvalidDataError),
            None => {
                self.timelines.push(Timeline::new_at(name, duration, self.fps, loop_playback, now));
                self.selected_timeline = Some(key);
                let last: usize = self.timelines.len() - 1;
                proof {
                    let before = views(old(self).timelines@);
                    let grown = views(self.timelines@);
                    lemma_views_update(self.timelines@, last as int);
                    lemma_views_push(old(self).timelines@);
                    assert forall|x: Timeline| #[trigger]
                        grown.update(last as int, x@) == before.push(x@) by {
                        assert(grown.update(last as int, x@) =~= before.push(x@));
                    }
                }
                Ok(&mut self.timelines[last])
            },
        }
    }

    /// Adds a new timeline now.
    pub fn add_timeline(&mut self, name: &str, duration: i64, loop_playback: bool) -> (r: Result<
        &mut Timeline,
        InvalidDataError,
    >)
        requires
            old(self).wf(),
            duration > 0,
        ensures
            match r {
                Ok(timeline) => {
                    &&& !old(self)@.has_timeline(name@)
                    &&& timeline.wf()
                    &&& exists|now: int|
                        0 <= now <= u64::MAX && timeline@ == #[trigger] TimelineView::fresh(
                            name@,
                            duration as int,
                            old(self)@.fps,
                            loop_playback,
                            now,
                        )
                    &&& final(self)@ == (ModelView {
                        timelines: old(self)@.timelines.push(final(timeline)@),
                        selected_timeline: Some(name@),
                        ..old(self)@
                    })
                },
                Err(_) => old(self)@.has_timeline(name@) && final(self)@ == old(self)@,
            },
    {
        let now: u64 = now_nanos();
        self.add_timeline_at(name, duration, loop_playback, now)
    }

    /// The first timeline called `name`.
    pub fn get_timeline(&self, name: &str) -> (r: Option<&Timeline>)
        ensures
            match r {
                Some(timeline) => {
                    &&& self@.timeline_index(name@) matches Some(i) && 0 <= i
                        < self@.timelines.len() && timeline@ == self@.timelines[i]
                    &&& self.wf() ==> timeline.wf()
                },
                None => !self@.has_timeline(name@),
            },
    {
        let key: String = name.to_owned();
        proof {
            lemma_first_named::<Timeline>(self@.timelines, name@);
        }
        match find_named(&self.timelines, &key) {
            Some(index) => Some(&self.timelines[index]),
            None => None,
        }
    }

    /// The first timeline called `name`, to be changed in place.
    pub fn get_timeline_mut(&mut self, name: &str) -> (r: Option<&mut Timeline>)
        ensures
            match r {
                Some(timeline) => {
                    &&& old(self)@.timeline_index(name@) matches Some(i)
                        && 0 <= i < old(self)@.timelines.len()
                        && timeline@ == old(self)@.timelines[i]
                    &&& old(self).wf() ==> timeline.wf()
                    &&& final(self)@ == (ModelView {
                        timelines: old(self)@.timelines.update(
                            old(self)@.timeline_index(name@).unwrap(),
                            final(timeline)@,
                        ),
                        ..old(self)@
                    })
                },
                None => !old(self)@.has_timeline(name@) && final(self)@ == old(self)@,
            },
    {
        let key: String = name.to_owned();
        proof {
            lemma_first_named::<Timeline>(self@.timelines, name@);
        }
        match find_named(&self.timelines, &key) {
            Some(index) => {
                proof {
                    lemma_views_update(self.timelines@, index as int);
                }
                Some(&mut self.timelines[index])
            },
            None => None,
        }
    }

    /// The active timeline, to be changed in place.
    pub fn get_active_timeline_mut(&mut self) -> (r: Option<&mut Timeline>)
        ensures
            match r {
                Some(timeline) => {
                    &&& old(self)@.active_index() matches Some(i)
                        && 0 <= i < old(self)@.timelines.len()
                        && timeline@ == old(self)@.timelines[i]
                    &&& old(self).wf() ==> timeline.wf()
                    &&& final(self)@ == (ModelView {
                        timelines: old(self)@.timelines.update(
                            old(self)@.active_index().unwrap(),
                            final(timeline)@,
                        ),
                        ..old(self)@
                    })
                },
                None => old(self)@.active_index().is_none() && final(self)@ == old(self)@,
            },
    {
        proof {
            lemma_active_index(self@);
        }
        match &self.selected_timeline {
            Some(selected) => match find_named(&self.timelines, selected) {
                Some(index) => {
                    proof {
                        lemma_views_update(self.timelines@, index as int);
                    }
                    Some(&mut self.timelines[index])
                },
                None => None,
            },
            None => None,
        }
    }

    /// Makes the timeline called `name` the active one and stops the one
    /// that was active. Does nothing where `name` is selected already or no
    /// timeline is called so.
    pub fn set_active_timeline(&mut self, name: &str)
        ensures
            final(self)@ == old(self)@.select(name@),
            old(self).wf() ==> final(self).wf(),
    {
        let key: String = name.to_owned();
        proof {
            lemma_first_named::<Timeline>(self@.timelines, name@);
            lemma_active_index(self@);
        }
        match &self.selected_timeline {
            Some(selected) => {
                if *selected == key {
                    return ;
                }
            },
            None => {},
        }
        if find_named(&self.timelines, &key).is_some() {
            match self.get_active_timeline_mut() {
                Some(current) => {
                    current.stop();
                },
                None => {},
            }
            self.selected_timeline = Some(key);
        }
    }

    /// Updates the active timeline at time `now` and hands on its report.
    /// Without an active timeline nothing happens.
    pub fn update_at(&mut self, now: u64) -> (r: Option<TimelineSnapshot>)
        requires
            old(self).wf(),
        ensures
            final(self).wf(),
            final(self)@ == old(self)@.advance(now as int),
            match r {
                Some(snapshot) => old(self)@.report(now as int) == Some(snapshot@),
                None => old(self)@.report(now as int).is_none(),
            },
    {
        proof {
            lemma_active_index(self@);
        }
        match self.get_active_timeline_mut() {
            Some(timeline) => timeline.update_at(now),
            None => None,
        }
    }

    /// Updates the active timeline now.
    pub fn update(&mut self) -> (r: Option<TimelineSnapshot>)
        requires
            old(self).wf(),
        ensures
            final(self).wf(),
            exists|now: int|
                0 <= now <= u64::MAX && final(self)@ == #[trigger] old(self)@.advance(now) && match r {
                    Some(snapshot) => old(self)@.report(now) == Some(snapshot@),
                    None => old(self)@.report(now).is_none(),
                },
    {
        let now: u64 = now_nanos();
        self.update_at(now)
    }

    /// Replaces the timelines by `data` at time `now`. A timeline of `data`
    /// whose name a timeline of the model carries goes on where that one
    /// stands, playing if that one plays; the others start stopped at
    /// position 0. The selected name stays.
    pub fn update_timeline_data_at(&mut self, data: Vec<Timeline>, now: u64)
        requires
            old(self).wf(),
            forall|i: int| 0 <= i < data@.len() ==> (#[trigger] data@[i]).wf(),
        ensures
            final(self).wf(),
            final(self)@ == old(self)@.replaced(views(data@), now as int),
            final(self)@.timelines.len() == data@.len(),
            forall|i: int|
                0 <= i < data@.len() ==> {
                    let after = #[trigger] final(self)@.timelines[i];
                    &&& after.name == data@[i]@.name
                    &&& after.duration == data@[i]@.duration
                    &&& after.fps == data@[i]@.fps
                    &&& after.loop_playback == data@[i]@.loop_playback
                    &&& after.position == old(self)@.kept_position(data@[i]@.name)
                    &&& after.is_playing() == old(self)@.kept_playing(data@[i]@.name)
                },
    {
        proof {
            let given = views(data@);
            assert forall|i: int| 0 <= i < data@.len() implies {
                let after = #[trigger] old(self)@.replaced(given, now as int).timelines[i];
                &&& after.name == given[i].name
                &&& after.duration == given[i].duration
                &&& after.fps == given[i].fps
                &&& after.loop_playback == given[i].loop_playback
                &&& after.position == old(self)@.kept_position(given[i].name)
                &&& after.is_playing() == old(self)@.kept_playing(given[i].name)
            } by {
                assert(given[i] == data@[i]@);
                lemma_replacement_keeps_playback(old(self)@, given, now as int, i);
            }
        }
        let mut data = data;
        let ghost given = views(data@);
        let mut list: Vec<Timeline> = Vec::new();
        let n: usize = data.len();
        let mut i: usize = 0;
        while i < n
            invariant
                i <= n,
                n == data@.len(),
                self.wf(),
                *self == *old(self),
                given.len() == n,
                forall|j: int| 0 <= j < n ==> (#[trigger] data@[j]).wf(),
                forall|j: int| i <= j < n ==> (#[trigger] data@[j])@ == given[j],
                list@.len() == i,
                forall|j: int| 0 <= j < i ==> (#[trigger] list@[j]).wf(),
                forall|j: int|
                    0 <= j < i ==> (#[trigger] list@[j])@ == self@.carried_over(given[j], now as int),
            decreases n - i,
        {
            let key: String = data[i].name().to_owned();
            proof {
                lemma_first_named::<Timeline>(self@.timelines, key@);
            }
            let found: Option<usize> = find_named(&self.timelines, &key);
            let position: i64 = match found {
                Some(index) => self.timelines[index].get_position(),
                None => 0,
            };
            let playing: bool = match found {
                Some(index) => self.timelines[index].is_playing(),
                None => false,
            };
            let incoming: &mut Timeline = &mut data[i];
            incoming.stop();
            incoming.seek_at(position, now);
            if playing {
                incoming.play_at(now);
            }
            let timeline: Timeline = Timeline::from_at(incoming, now);
            list.push(timeline);
            i = i + 1;
        }
        proof {
            assert(views(list@) =~= old(self)@.replaced(given, now as int).timelines);
        }
        self.timelines = list;
    }

    /// Replaces the timelines by `data` now.
    pub fn update_timeline_data(&mut self, data: Vec<Timeline>)
        requires
            old(self).wf(),
            forall|i: int| 0 <= i < data@.len() ==> (#[trigger] data@[i]).wf(),
        ensures
            final(self).wf(),
            exists|now: int|
                0 <= now <= u64::MAX && final(self)@ == #[trigger] old(self)@.replaced(
                    views(data@),
                    now,
                ),
    {
        let now: u64 = now_nanos();
        self.update_timeline_data_at(data, now);
    }

    /// Takes over at time `now` what was stored: the timelines as by
    /// `update_timeline_data_at`, then the stored selection, if there was
    /// one, as by `set_active_timeline`.
    pub fn restore_at(&mut self, timelines: Vec<Timeline>, selected: Option<String>, now: u64)
        requires
            old(self).wf(),
            forall|i: int| 0 <= i < timelines@.len() ==> (#[trigger] timelines@[i]).wf(),
        ensures
            final(self).wf(),
            final(self)@ == old(self)@.restored(views(timelines@), name_view(selected), now as int),
    {
        self.update_timeline_data_at(timelines, now);
        match selected {
            Some(name) => {
                self.set_active_timeline(name.as_str());
            },
            None => {},
        }
    }

    /// Takes over at time `now` what a file held. Where the file held a
    /// model, that is taken over as by `restore_at`. Where it held none the
    /// model stays as it is, and the result tells the caller to write the
    /// model over the file.
    pub fn load_at(
        &mut self,
        stored: Option<(Vec<Timeline>, Option<String>)>,
        now: u64,
    ) -> (rewrite: bool)
        requires
            old(self).wf(),
            stored matches Some(s) ==> forall|i: int|
                0 <= i < s.0@.len() ==> (#[trigger] s.0@[i]).wf(),
        ensures
            final(self).wf(),
            match stored {
                Some(s) => !rewrite && final(self)@ == old(self)@.restored(
                    views(s.0@),
                    name_view(s.1),
                    now as int,
                ),
                None => rewrite && final(self)@ == old(self)@,
            },
    {
        match stored {
            Some((timelines, selected)) => {
                self.restore_at(timelines, selected, now);
                false
            },
            None => true,
        }
    }

    /// Takes over now what a file held.
    pub fn load(&mut self, stored: Option<(Vec<Timeline>, Option<String>)>) -> (rewrite: bool)
        requires
            old(self).wf(),
            stored matches Some(s) ==> forall|i: int|
                0 <= i < s.0@.len() ==> (#[trigger] s.0@[i]).wf(),
        ensures
            final(self).wf(),
            match stored {
                Some(s) => !rewrite && exists|now: int|
                    0 <= now <= u64::MAX && final(self)@ == #[trigger] old(self)@.restored(
                        views(s.0@),
                        name_view(s.1),
                        now,
                    ),
                None => rewrite && final(self)@ == old(self)@,
            },
    {
        let now: u64 = now_nanos();
        self.load_at(stored, now)
    }

    /// Takes over now what was stored.
    pub fn restore(&mut self, timelines: Vec<Timeline>, selected: Option<String>)
        requires
            old(self).wf(),
            forall|i: int| 0 <= i < timelines@.len() ==> (#[trigger] timelines@[i]).wf(),
        ensures
            final(self).wf(),
            exists|now: int|
                0 <= now <= u64::MAX && final(self)@ == #[trigger] old(self)@.restored(
                    views(timelines@),
                    name_view(selected),
                    now,
                ),
    {
        let now: u64 = now_nanos();
        self.restore_at(timelines, selected, now);
    }

    /// Stops every timeline and clears the selection.
    pub fn clean_up(&mut self)
        ensures
            final(self)@ == old(self)@.halted(),
            old(self).wf() ==> final(self).wf(),
    {
        let n: usize = self.timelines.len();
        let mut i: usize = 0;
        while i < n
            invariant
                i <= n,
                n == self.timelines@.len(),
                n == old(self).timelines@.len(),
                self.fps == old(self).fps,
                forall|j: int|
                    0 <= j < i ==> (#[trigger] self.timelines@[j])@ == old(self).timelines@[j]@.stop(),
                forall|j: int|
                    i <= j < n ==> (#[trigger] self.timelines@[j]) == old(self).timelines@[j],
            decreases n - i,
        {
            self.timelines[i].stop();
            i = i + 1;
        }
        self.selected_timeline = None;
        proof {
            assert(views(self.timelines@) =~= old(self)@.halted().timelines);
        }
    }
}

} // verus!
