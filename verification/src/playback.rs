//! The playback clock: a state machine `Stopped -> Playing -> Paused ->
//! Playing -> Stopped` that drives real-time playback at fixed-size audio
//! quanta. The surrounding application runs the real-time loop; the clock
//! decides, per quantum, which edited-time window to render and where the
//! playhead stands for video-frame selection.

use vstd::prelude::*;

use crate::segments::TimeRange;

verus! {

/// Playback states.
#[derive(Clone, Copy, PartialEq, Eq, Structural, Debug)]
pub enum PlayState {
    Stopped,
    Playing,
    Paused,
}

/// Drives playback by fixed-duration quanta. Pause and stop take effect at
/// quantum granularity: the loop asks for the next window once per quantum
/// and the answer reflects the state at that moment.
pub struct PlaybackClock {
    /// Current state of the playback state machine.
    pub state: PlayState,
    /// Current playhead, in edited-time ticks.
    pub playhead: u64,
    /// Duration of one audio quantum, in ticks.
    pub quantum: u64,
}

impl PlaybackClock {
    /// A quantum must have positive duration.
    pub open spec fn wf(&self) -> bool {
        self.quantum > 0
    }

    /// A stopped clock at the start of the timeline.
    pub fn new(quantum: u64) -> (r: PlaybackClock)
        requires
            quantum > 0,
        ensures
            r.wf(),
            r.state == PlayState::Stopped,
            r.playhead == 0,
            r.quantum == quantum,
    {
        PlaybackClock { state: PlayState::Stopped, playhead: 0, quantum }
    }

    /// Starts or resumes playback; the playhead is kept.
    pub fn play(&mut self)
        ensures
            final(self).state == PlayState::Playing,
            final(self).playhead == old(self).playhead,
            final(self).quantum == old(self).quantum,
    {
        self.state = PlayState::Playing;
    }

    /// Pauses playback when playing; in any other state nothing changes.
    pub fn pause(&mut self)
        ensures
            final(self).state == (if old(self).state == PlayState::Playing {
                PlayState::Paused
            } else {
                old(self).state
            }),
            final(self).playhead == old(self).playhead,
            final(self).quantum == old(self).quantum,
    {
        if self.state == PlayState::Playing {
            self.state = PlayState::Paused;
        }
    }

    /// Stops playback and returns the playhead to the start. Any partially
    /// rendered quantum is the application's to discard.
    pub fn stop(&mut self)
        ensures
            final(self).state == PlayState::Stopped,
            final(self).playhead == 0,
            final(self).quantum == old(self).quantum,
    {
        self.state = PlayState::Stopped;
        self.playhead = 0;
    }

    /// Resets the playhead; the state is kept. Any buffered audio is the
    /// application's to flush.
    pub fn seek(&mut self, edited_time: u64)
        ensures
            final(self).state == old(self).state,
            final(self).playhead == edited_time,
            final(self).quantum == old(self).quantum,
    {
        self.playhead = edited_time;
    }

    /// The edited-time window of the next quantum against a timeline snapshot
    /// of total duration `total`: one quantum from the playhead, clipped to
    /// the end of the snapshot. `None` exactly when the clock is not playing
    /// or the playhead has reached the end.
    pub fn next_quantum(&self, total: u64) -> (r: Option<TimeRange>)
        requires
            self.wf(),
        ensures
            match r {
                Some(w) => {
                    &&& self.state == PlayState::Playing
                    &&& self.playhead < total
                    &&& w.start == self.playhead
                    &&& w.end == if self.playhead + self.quantum <= total {
                        self.playhead + self.quantum
                    } else {
                        total as int
                    }
                    &&& w.start < w.end <= total
                },
                None => self.state != PlayState::Playing || self.playhead >= total,
            },
    {
        if self.state != PlayState::Playing || self.playhead >= total {
            return None;
        }
        let end = if total - self.playhead <= self.quantum {
            total
        } else {
            self.playhead + self.quantum
        };
        Some(TimeRange { start: self.playhead, end })
    }

    /// Advances the playhead by one completed quantum, clipped to the end of
    /// the snapshot the quantum was rendered against.
    pub fn advance(&mut self, total: u64)
        requires
            old(self).wf(),
            old(self).state == PlayState::Playing,
        ensures
            final(self).state == old(self).state,
            final(self).quantum == old(self).quantum,
            final(self).playhead == if old(self).playhead + old(self).quantum <= total {
                old(self).playhead + old(self).quantum
            } else {
                total as int
            },
    {
        if self.playhead >= total {
            self.playhead = total;
        } else if total - self.playhead <= self.quantum {
            self.playhead = total;
        } else {
            self.playhead = self.playhead + self.quantum;
        }
    }
}

} // verus!
