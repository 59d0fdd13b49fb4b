//! The editor instance: owns the current timeline snapshot and editor state,
//! exposes the validated mutation commands, keeps a bounded history of prior
//! snapshots for undo/redo as plain snapshot substitution, and coordinates
//! the playback clock and the audio renderer with timeline changes. On any
//! command failure the instance is unchanged and the error is returned; on
//! success the new snapshot is swapped in atomically from the readers' point
//! of view, since every reader works on a snapshot value of its own.

use vstd::prelude::*;

use crate::audio::AudioRenderer;
use crate::audio::RenderOutput;
use crate::audio::missing_in_window;
use crate::audio::rendered_value_at;
use crate::audio::sample_tick;
use crate::audio::window_sample_count;
use crate::audio::AMP_LIMIT;
use crate::audio::MAX_SAMPLE_RATE;
use crate::playback::PlayState;
use crate::playback::PlaybackClock;
use crate::segments::EditError;
use crate::segments::MAX_TIME_TICKS;
use crate::segments::Segment;
use crate::segments::SegmentTimeline;
use crate::segments::TimeRange;
use crate::segments::delete_segments;
use crate::segments::get_audio_segments;
use crate::segments::merge_error;
use crate::segments::merge_segments;
use crate::segments::mergeable;
use crate::segments::split_segments;
use crate::segments::splittable;
use crate::segments::total_of;
use crate::segments::trim_ok;
use crate::segments::trim_segments;

verus! {

/// How many prior snapshots the undo history keeps.
pub const HISTORY_LIMIT: usize = 64;

/// Cached metadata of one source-media entry, resolved once by the
/// surrounding application and immutable afterwards.
#[derive(Clone, Copy, PartialEq, Eq, Structural, Debug)]
pub struct SegmentMedia {
    pub source_id: u64,
    /// Duration of the source, in ticks.
    pub duration: u64,
    /// Audio sample rate of the source, in samples per second.
    pub sample_rate: u64,
    /// Video frame rate of the source, in frames per second.
    pub frame_rate: u64,
}

/// Mutable editor state, owned exclusively by the editor instance.
#[derive(Clone, Copy, Debug)]
pub struct EditorState {
    /// The editing playhead, in edited-time ticks.
    pub playhead: u64,
    /// The selected edited-time range, if any.
    pub selection: Option<TimeRange>,
    /// Zoom level of the surrounding editor view; opaque to the engine.
    pub zoom: u64,
}

/// The views of a stack of timeline snapshots.
pub open spec fn views_of(h: Seq<SegmentTimeline>) -> Seq<Seq<Segment>> {
    h.map_values(|t: SegmentTimeline| t@)
}

/// A history stack after recording one more snapshot: the snapshot goes on
/// top, and the oldest entry falls out when the stack is full.
pub open spec fn pushed_history(h: Seq<Seq<Segment>>, v: Seq<Segment>) -> Seq<Seq<Segment>> {
    if h.len() < HISTORY_LIMIT {
        h.push(v)
    } else {
        h.subrange(1, h.len() as int).push(v)
    }
}

/// The sum of the durations of the first `i` media entries: where entry `i`'s
/// segment starts in edited time.
pub open spec fn prefix_duration(media: Seq<SegmentMedia>, i: int) -> int
    decreases i,
{
    if i <= 0 {
        0
    } else {
        prefix_duration(media, i - 1) + media[i - 1].duration
    }
}

/// Prefix durations grow with the prefix.
proof fn lemma_prefix_duration_monotone(media: Seq<SegmentMedia>, i: int, j: int)
    requires
        0 <= i <= j <= media.len(),
    ensures
        prefix_duration(media, i) <= prefix_duration(media, j),
    decreases j - i,
{
    if i < j {
        lemma_prefix_duration_monotone(media, i, j - 1);
    }
}

/// The segment that media entry `i` contributes: its whole source, placed
/// after the entries before it.
pub open spec fn media_segment(media: Seq<SegmentMedia>, i: int) -> Segment {
    Segment {
        source_id: media[i].source_id,
        source_start: 0,
        source_end: media[i].duration,
        edited_start: prefix_duration(media, i) as u64,
        edited_end: (prefix_duration(media, i) + media[i].duration) as u64,
    }
}

/// Builds the initial timeline from resolved media entries, one segment per
/// entry covering the entry's whole source, in order. Fails with
/// `InvalidRange` exactly when an entry has zero duration or the combined
/// duration exceeds the engine's tick limit.
pub fn create_segments(media: &Vec<SegmentMedia>) -> (r: Result<SegmentTimeline, EditError>)
    ensures
        r is Ok <==> ((forall|i: int| 0 <= i < media@.len() ==> (#[trigger] media@[i]).duration
            >= 1) && prefix_duration(media@, media@.len() as int) <= MAX_TIME_TICKS),
        match r {
            Ok(tl) => {
                &&& tl.wf()
                &&& tl@.len() == media@.len()
                &&& forall|i: int| 0 <= i < media@.len() ==> #[trigger] tl@[i] == media_segment(
                    media@,
                    i,
                )
                &&& total_of(tl@) == prefix_duration(media@, media@.len() as int)
            },
            Err(e) => e == EditError::InvalidRange,
        },
{
    let n = media.len();
    let mut v: Vec<Segment> = Vec::new();
    let mut cursor: u64 = 0;
    let mut i: usize = 0;
    while i < n
        invariant
            n == media@.len(),
            i <= n,
            cursor == prefix_duration(media@, i as int),
            cursor <= MAX_TIME_TICKS,
            forall|j: int| 0 <= j < i ==> (#[trigger] media@[j]).duration >= 1,
            v@.len() == i,
            forall|j: int| 0 <= j < i ==> #[trigger] v@[j] == media_segment(media@, j),
        decreases n - i,
    {
        let m = media[i];
        if m.duration == 0 {
            return Err(EditError::InvalidRange);
        }
        if m.duration > MAX_TIME_TICKS - cursor {
            proof {
                lemma_prefix_duration_monotone(media@, i + 1, n as int);
            }
            return Err(EditError::InvalidRange);
        }
        v.push(
            Segment {
                source_id: m.source_id,
                source_start: 0,
                source_end: m.duration,
                edited_start: cursor,
                edited_end: cursor + m.duration,
            },
        );
        cursor = cursor + m.duration;
        i = i + 1;
    }
    let tl = SegmentTimeline { segments: v };
    proof {
        assert forall|j: int| 0 <= j < tl@.len() implies (#[trigger] tl@[j]).wf() by {
            assert(tl@[j] == media_segment(media@, j));
            lemma_prefix_duration_monotone(media@, j + 1, n as int);
            lemma_prefix_duration_monotone(media@, 0, j);
        }
        assert forall|j: int| 0 <= j && j + 1 < tl@.len() implies (#[trigger] tl@[j]).edited_end
            == tl@[j + 1].edited_start by {
            assert(tl@[j] == media_segment(media@, j));
            assert(tl@[j + 1] == media_segment(media@, j + 1));
            lemma_prefix_duration_monotone(media@, 0, j);
            lemma_prefix_duration_monotone(media@, j + 1, n as int);
        }
        if tl@.len() > 0 {
            assert(tl@[0] == media_segment(media@, 0));
            assert(tl@[tl@.len() - 1] == media_segment(media@, n as int - 1));
            lemma_prefix_duration_monotone(media@, 0, n as int - 1);
        }
    }
    Ok(tl)
}

/// Records a snapshot on a history stack, dropping the oldest entry when the
/// stack is full.
fn record_snapshot(stack: &mut Vec<SegmentTimeline>, snap: SegmentTimeline)
    requires
        old(stack)@.len() <= HISTORY_LIMIT,
    ensures
        views_of(final(stack)@) == pushed_history(views_of(old(stack)@), snap@),
        final(stack)@.len() <= HISTORY_LIMIT,
        final(stack)@.len() >= 1,
        forall|i: int|
            0 <= i < final(stack)@.len() ==> (#[trigger] final(stack)@[i]) == snap || exists|j: int|
                0 <= j < old(stack)@.len() && final(stack)@[i] == old(stack)@[j],
{
    let ghost before = stack@;
    if stack.len() == HISTORY_LIMIT {
        stack.remove(0);
        proof {
            assert(stack@ =~= before.subrange(1, before.len() as int));
        }
    }
    let ghost mid = stack@;
    stack.push(snap);
    proof {
        assert(views_of(stack@) =~= pushed_history(views_of(before), snap@));
        assert forall|i: int|
            0 <= i < stack@.len() implies (#[trigger] stack@[i]) == snap || exists|j: int|
                0 <= j < before.len() && stack@[i] == before[j] by {
            if i < mid.len() {
                if before.len() == HISTORY_LIMIT {
                    assert(stack@[i] == before[i + 1]);
                } else {
                    assert(stack@[i] == before[i]);
                }
            }
        }
    }
}

/// Owns one timeline and the editor state; exposes the mutation command
/// surface, undo/redo over snapshot history, playback control, and audio
/// rendering against the current snapshot.
pub struct EditorInstance {
    /// The current timeline snapshot.
    pub timeline: SegmentTimeline,
    /// Playhead, selection and zoom.
    pub state: EditorState,
    /// The playback clock.
    pub clock: PlaybackClock,
    /// The audio renderer with its decoded sources and fade configuration.
    pub renderer: AudioRenderer,
    /// Prior snapshots, oldest first, for undo.
    pub undo_stack: Vec<SegmentTimeline>,
    /// Undone snapshots for redo; cleared by every fresh mutation.
    pub redo_stack: Vec<SegmentTimeline>,
}

impl EditorInstance {
    /// The instance invariant: every held snapshot is a well-formed timeline
    /// and the history is bounded.
    pub open spec fn wf(&self) -> bool {
        &&& self.timeline.wf()
        &&& self.clock.wf()
        &&& self.renderer.wf()
        &&& forall|i: int|
            0 <= i < self.undo_stack@.len() ==> (#[trigger] self.undo_stack@[i]).wf()
        &&& forall|i: int|
            0 <= i < self.redo_stack@.len() ==> (#[trigger] self.redo_stack@[i]).wf()
        &&& self.undo_stack@.len() + self.redo_stack@.len() <= HISTORY_LIMIT
    }

    /// Everything but the timeline and the history is unchanged.
    pub open spec fn same_but_timeline(&self, other: &EditorInstance) -> bool {
        &&& self.state.playhead == other.state.playhead
        &&& self.state.selection == other.state.selection
        &&& self.state.zoom == other.state.zoom
        &&& self.clock == other.clock
        &&& self.renderer.sources@ == other.renderer.sources@
        &&& self.renderer.fade_len == other.renderer.fade_len
    }

    /// A new instance over a validated timeline, decoded sources, a crossfade
    /// length and a playback quantum.
    pub fn new(
        timeline: SegmentTimeline,
        renderer: AudioRenderer,
        quantum: u64,
    ) -> (r: EditorInstance)
        requires
            timeline.wf(),
            renderer.wf(),
            quantum > 0,
        ensures
            r.wf(),
            r.timeline@ == timeline@,
            r.state.playhead == 0,
            r.state.selection is None,
            r.undo_stack@.len() == 0,
            r.redo_stack@.len() == 0,
            r.clock.state == PlayState::Stopped,
            r.renderer.sources@ == renderer.sources@,
            r.renderer.fade_len == renderer.fade_len,
    {
        EditorInstance {
            timeline,
            state: EditorState { playhead: 0, selection: None, zoom: 1 },
            clock: PlaybackClock::new(quantum),
            renderer,
            undo_stack: Vec::new(),
            redo_stack: Vec::new(),
        }
    }

    /// Swaps in a validated new snapshot: the prior snapshot goes on the undo
    /// history and the redo history is cleared.
    fn commit(&mut self, new_timeline: SegmentTimeline)
        requires
            old(self).wf(),
            new_timeline.wf(),
        ensures
            final(self).wf(),
            final(self).timeline@ == new_timeline@,
            views_of(final(self).undo_stack@) == pushed_history(
                views_of(old(self).undo_stack@),
                old(self).timeline@,
            ),
            final(self).redo_stack@.len() == 0,
            final(self).same_but_timeline(&*old(self)),
    {
        let prev = self.timeline.clone();
        self.timeline = new_timeline;
        record_snapshot(&mut self.undo_stack, prev);
        self.redo_stack = Vec::new();
        proof {
            assert forall|i: int|
                0 <= i < self.undo_stack@.len() implies (#[trigger] self.undo_stack@[i]).wf() by {
                if self.undo_stack@[i] == prev {
                } else {
                    let j = choose|j: int|
                        0 <= j < old(self).undo_stack@.len() && self.undo_stack@[i] == old(
                            self,
                        ).undo_stack@[j];
                    assert(old(self).undo_stack@[j].wf());
                }
            }
        }
    }

    /// Splits the segment containing `edited_time`; see
    /// `SegmentTimeline::split_at`. On success the new snapshot replaces the
    /// current one and the prior snapshot is recorded for undo; on failure
    /// the instance is unchanged.
    pub fn split_at(&mut self, edited_time: u64) -> (r: Result<(), EditError>)
        requires
            old(self).wf(),
        ensures
            final(self).wf(),
            r is Ok <==> splittable(old(self).timeline@, edited_time),
            match r {
                Ok(_) => {
                    &&& exists|i: int|
                        0 <= i < old(self).timeline@.len() && (
                        #[trigger] old(self).timeline@[i]).edited_start < edited_time < old(
                            self,
                        ).timeline@[i].edited_end && final(self).timeline@ == split_segments(
                            old(self).timeline@,
                            i,
                            edited_time,
                        )
                    &&& total_of(final(self).timeline@) == total_of(old(self).timeline@)
                    &&& views_of(final(self).undo_stack@) == pushed_history(
                        views_of(old(self).undo_stack@),
                        old(self).timeline@,
                    )
                    &&& final(self).redo_stack@.len() == 0
                    &&& final(self).same_but_timeline(&*old(self))
                },
                Err(e) => e == EditError::InvalidRange && *final(self) == *old(self),
            },
    {
        let split = self.timeline.split_at(edited_time);
        match split {
            Ok(tl) => {
                self.commit(tl);
                Ok(())
            },
            Err(e) => Err(e),
        }
    }

    /// Splits at the current editing playhead.
    pub fn split_at_playhead(&mut self) -> (r: Result<(), EditError>)
        requires
            old(self).wf(),
        ensures
            final(self).wf(),
            r is Ok <==> splittable(old(self).timeline@, old(self).state.playhead),
            match r {
                Ok(_) => {
                    &&& ({
                        let s = old(self).timeline@;
                        let ph = old(self).state.playhead;
                        let sn = final(self).timeline@;
                        exists|i: int|
                            0 <= i < s.len() && (#[trigger] s[i]).edited_start < ph
                                < s[i].edited_end && sn == split_segments(s, i, ph)
                    })
                    &&& views_of(final(self).undo_stack@) == pushed_history(
                        views_of(old(self).undo_stack@),
                        old(self).timeline@,
                    )
                    &&& final(self).redo_stack@.len() == 0
                    &&& final(self).same_but_timeline(&*old(self))
                },
                Err(e) => e == EditError::InvalidRange && *final(self) == *old(self),
            },
    {
        let t = self.state.playhead;
        self.split_at(t)
    }

    /// Deletes the portion of the timeline overlapping `range`; see
    /// `SegmentTimeline::delete_range`. On success the prior snapshot is
    /// recorded for undo; on failure the instance is unchanged.
    pub fn delete_range(&mut self, range: TimeRange) -> (r: Result<(), EditError>)
        requires
            old(self).wf(),
        ensures
            final(self).wf(),
            r is Ok <==> (range.start < range.end && range.end <= total_of(old(self).timeline@)),
            match r {
                Ok(_) => {
                    &&& final(self).timeline@ == delete_segments(
                        old(self).timeline@,
                        range.start as int,
                        range.end as int,
                    )
                    &&& total_of(final(self).timeline@) == total_of(old(self).timeline@) - (
                    range.end - range.start)
                    &&& views_of(final(self).undo_stack@) == pushed_history(
                        views_of(old(self).undo_stack@),
                        old(self).timeline@,
                    )
                    &&& final(self).redo_stack@.len() == 0
                    &&& final(self).same_but_timeline(&*old(self))
                },
                Err(e) => e == EditError::InvalidRange && *final(self) == *old(self),
            },
    {
        let deleted = self.timeline.delete_range(range);
        match deleted {
            Ok(tl) => {
                self.commit(tl);
                Ok(())
            },
            Err(e) => Err(e),
        }
    }

    /// Deletes the current selection and clears it. Fails with
    /// `InvalidRange` when nothing is selected or the selection is not a
    /// valid range of the timeline; the instance is then unchanged.
    pub fn delete_selection(&mut self) -> (r: Result<(), EditError>)
        requires
            old(self).wf(),
        ensures
            final(self).wf(),
            r is Ok <==> (old(self).state.selection matches Some(sel) && sel.start < sel.end
                && sel.end <= total_of(old(self).timeline@)),
            match r {
                Ok(_) => {
                    &&& old(self).state.selection matches Some(sel) && final(self).timeline@
                        == delete_segments(old(self).timeline@, sel.start as int, sel.end as int)
                    &&& final(self).state.selection is None
                    &&& final(self).state.playhead == old(self).state.playhead
                    &&& views_of(final(self).undo_stack@) == pushed_history(
                        views_of(old(self).undo_stack@),
                        old(self).timeline@,
                    )
                    &&& final(self).redo_stack@.len() == 0
                },
                Err(e) => e == EditError::InvalidRange && *final(self) == *old(self),
            },
    {
        match self.state.selection {
            None => Err(EditError::InvalidRange),
            Some(sel) => {
                let deleted = self.delete_range(sel);
                match deleted {
                    Ok(_) => {
                        self.state.selection = None;
                        Ok(())
                    },
                    Err(e) => Err(e),
                }
            },
        }
    }

    /// Trims segment `id` to new source bounds; see
    /// `SegmentTimeline::trim_segment`. On success the prior snapshot is
    /// recorded for undo; on failure the instance is unchanged.
    pub fn trim_segment(&mut self, id: usize, new_source_start: u64, new_source_end: u64) -> (r:
        Result<(), EditError>)
        requires
            old(self).wf(),
        ensures
            final(self).wf(),
            r is Ok <==> trim_ok(old(self).timeline@, id as int, new_source_start, new_source_end),
            match r {
                Ok(_) => {
                    &&& final(self).timeline@ == trim_segments(
                        old(self).timeline@,
                        id as int,
                        new_source_start,
                        new_source_end,
                    )
                    &&& views_of(final(self).undo_stack@) == pushed_history(
                        views_of(old(self).undo_stack@),
                        old(self).timeline@,
                    )
                    &&& final(self).redo_stack@.len() == 0
                    &&& final(self).same_but_timeline(&*old(self))
                },
                Err(e) => e == EditError::InvalidRange && *final(self) == *old(self),
            },
    {
        let trimmed = self.timeline.trim_segment(id, new_source_start, new_source_end);
        match trimmed {
            Ok(tl) => {
                self.commit(tl);
                Ok(())
            },
            Err(e) => Err(e),
        }
    }

    /// Merges two adjacent segments; see `SegmentTimeline::merge_adjacent`.
    /// On success the prior snapshot is recorded for undo; on failure the
    /// instance is unchanged.
    pub fn merge(&mut self, id_a: usize, id_b: usize) -> (r: Result<(), EditError>)
        requires
            old(self).wf(),
        ensures
            final(self).wf(),
            r is Ok <==> mergeable(old(self).timeline@, id_a as int, id_b as int),
            match r {
                Ok(_) => {
                    &&& final(self).timeline@ == merge_segments(old(self).timeline@, id_a as int)
                    &&& total_of(final(self).timeline@) == total_of(old(self).timeline@)
                    &&& views_of(final(self).undo_stack@) == pushed_history(
                        views_of(old(self).undo_stack@),
                        old(self).timeline@,
                    )
                    &&& final(self).redo_stack@.len() == 0
                    &&& final(self).same_but_timeline(&*old(self))
                },
                Err(e) => e == merge_error(old(self).timeline@, id_a as int, id_b as int)
                    && *final(self) == *old(self),
            },
    {
        let merged = self.timeline.merge_adjacent(id_a, id_b);
        match merged {
            Ok(tl) => {
                self.commit(tl);
                Ok(())
            },
            Err(e) => Err(e),
        }
    }

    /// Restores the most recent prior snapshot; the current snapshot moves to
    /// the redo history. Fails with `InvalidRange` when there is nothing to
    /// undo; the instance is then unchanged.
    pub fn undo(&mut self) -> (r: Result<(), EditError>)
        requires
            old(self).wf(),
        ensures
            final(self).wf(),
            r is Ok <==> old(self).undo_stack@.len() > 0,
            match r {
                Ok(_) => {
                    &&& final(self).timeline@ == old(self).undo_stack@.last()@
                    &&& views_of(final(self).undo_stack@) == views_of(
                        old(self).undo_stack@,
                    ).drop_last()
                    &&& views_of(final(self).redo_stack@) == views_of(
                        old(self).redo_stack@,
                    ).push(old(self).timeline@)
                    &&& final(self).same_but_timeline(&*old(self))
                },
                Err(e) => e == EditError::InvalidRange && *final(self) == *old(self),
            },
    {
        let n = self.undo_stack.len();
        if n == 0 {
            return Err(EditError::InvalidRange);
        }
        let top = self.undo_stack.pop().unwrap();
        let prev = self.timeline.clone();
        self.timeline = top;
        self.redo_stack.push(prev);
        proof {
            assert(views_of(self.undo_stack@) =~= views_of(old(self).undo_stack@).drop_last());
            assert(views_of(self.redo_stack@) =~= views_of(old(self).redo_stack@).push(
                old(self).timeline@,
            ));
            assert(old(self).undo_stack@.last().wf());
        }
        Ok(())
    }

    /// Re-applies the most recently undone snapshot; the current snapshot
    /// moves back to the undo history. Fails with `InvalidRange` when there
    /// is nothing to redo; the instance is then unchanged.
    pub fn redo(&mut self) -> (r: Result<(), EditError>)
        requires
            old(self).wf(),
        ensures
            final(self).wf(),
            r is Ok <==> old(self).redo_stack@.len() > 0,
            match r {
                Ok(_) => {
                    &&& final(self).timeline@ == old(self).redo_stack@.last()@
                    &&& views_of(final(self).redo_stack@) == views_of(
                        old(self).redo_stack@,
                    ).drop_last()
                    &&& views_of(final(self).undo_stack@) == views_of(
                        old(self).undo_stack@,
                    ).push(old(self).timeline@)
                    &&& final(self).same_but_timeline(&*old(self))
                },
                Err(e) => e == EditError::InvalidRange && *final(self) == *old(self),
            },
    {
        let n = self.redo_stack.len();
        if n == 0 {
            return Err(EditError::InvalidRange);
        }
        let top = self.redo_stack.pop().unwrap();
        let prev = self.timeline.clone();
        self.timeline = top;
        self.undo_stack.push(prev);
        proof {
            assert(views_of(self.redo_stack@) =~= views_of(old(self).redo_stack@).drop_last());
            assert(views_of(self.undo_stack@) =~= views_of(old(self).undo_stack@).push(
                old(self).timeline@,
            ));
            assert(old(self).redo_stack@.last().wf());
        }
        Ok(())
    }

    /// The ordered segments of the current snapshot.
    pub fn get_segments(&self) -> (r: Vec<Segment>)
        ensures
            r@ == self.timeline@,
    {
        get_audio_segments(&self.timeline)
    }

    /// The current editor state.
    pub fn get_state(&self) -> (r: EditorState)
        ensures
            r.playhead == self.state.playhead,
            r.selection == self.state.selection,
            r.zoom == self.state.zoom,
    {
        self.state
    }

    /// Selects an edited-time range.
    pub fn set_selection(&mut self, selection: Option<TimeRange>)
        ensures
            final(self).state.selection == selection,
            final(self).state.playhead == old(self).state.playhead,
            final(self).state.zoom == old(self).state.zoom,
            final(self).timeline == old(self).timeline,
            final(self).clock == old(self).clock,
            final(self).renderer == old(self).renderer,
            final(self).undo_stack == old(self).undo_stack,
            final(self).redo_stack == old(self).redo_stack,
            old(self).wf() ==> final(self).wf(),
    {
        self.state.selection = selection;
    }

    /// A snapshot of the current timeline: an immutable value of its own, so
    /// rendering against it is unaffected by later mutations of the instance.
    pub fn snapshot(&self) -> (r: SegmentTimeline)
        ensures
            r@ == self.timeline@,
            self.wf() ==> r.wf(),
    {
        self.timeline.clone()
    }

    /// Starts or resumes playback.
    pub fn play(&mut self)
        requires
            old(self).wf(),
        ensures
            final(self).wf(),
            final(self).clock.state == PlayState::Playing,
            final(self).clock.playhead == old(self).clock.playhead,
            final(self).timeline@ == old(self).timeline@,
    {
        self.clock.play();
    }

    /// Pauses playback at quantum granularity.
    pub fn pause(&mut self)
        requires
            old(self).wf(),
        ensures
            final(self).wf(),
            final(self).clock.state == (if old(self).clock.state == PlayState::Playing {
                PlayState::Paused
            } else {
                old(self).clock.state
            }),
            final(self).clock.playhead == old(self).clock.playhead,
            final(self).timeline@ == old(self).timeline@,
    {
        self.clock.pause();
    }

    /// Stops playback and returns the playback position to the start.
    pub fn stop(&mut self)
        requires
            old(self).wf(),
        ensures
            final(self).wf(),
            final(self).clock.state == PlayState::Stopped,
            final(self).clock.playhead == 0,
            final(self).timeline@ == old(self).timeline@,
    {
        self.clock.stop();
    }

    /// Moves both the playback position and the editing playhead.
    pub fn seek(&mut self, edited_time: u64)
        requires
            old(self).wf(),
        ensures
            final(self).wf(),
            final(self).clock.state == old(self).clock.state,
            final(self).clock.playhead == edited_time,
            final(self).state.playhead == edited_time,
            final(self).timeline@ == old(self).timeline@,
    {
        self.clock.seek(edited_time);
        self.state.playhead = edited_time;
    }

    /// Renders an edited-time window against the current snapshot; see
    /// `AudioRenderer::render_audio_window`.
    pub fn render_audio_window(&self, window: TimeRange, rate: u64) -> (r: RenderOutput)
        requires
            self.wf(),
            window.start <= window.end <= MAX_TIME_TICKS,
            1 <= rate <= MAX_SAMPLE_RATE,
        ensures
            r.samples@.len() == window_sample_count(
                window.start as int,
                window.end as int,
                rate as int,
            ),
            forall|k: int|
                0 <= k < r.samples@.len() ==> #[trigger] r.samples@[k] == rendered_value_at(
                    self.timeline@,
                    self.renderer.sources@,
                    self.renderer.fade_half(),
                    sample_tick(window.start as int, rate as int, k),
                ),
            forall|k: int|
                0 <= k < r.samples@.len() ==> -AMP_LIMIT <= #[trigger] r.samples@[k] <= AMP_LIMIT,
            r.missing_sources@.no_duplicates(),
            forall|id: u64|
                #[trigger] r.missing_sources@.contains(id) <==> missing_in_window(
                    self.timeline@,
                    self.renderer.sources@,
                    window.start as int,
                    window.end as int,
                ).contains(id),
            r.error == if r.missing_sources@.len() > 0 {
                Some(EditError::SourceUnavailable)
            } else {
                None::<EditError>
            },
    {
        self.renderer.render_audio_window(&self.timeline, window, rate)
    }
}

} // verus!
