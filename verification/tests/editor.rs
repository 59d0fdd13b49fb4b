//! The editor instance: commands, undo/redo, snapshot isolation and the
//! playback clock.

use editor_core::AudioRenderer;
use editor_core::AudioSource;
use editor_core::EditError;
use editor_core::EditorInstance;
use editor_core::PlayState;
use editor_core::PlaybackClock;
use editor_core::Segment;
use editor_core::SegmentTimeline;
use editor_core::TimeRange;
use editor_core::TICKS_PER_SECOND;

fn seconds(s: u64) -> u64 {
    s * TICKS_PER_SECOND
}

fn ramp_source(id: u64) -> AudioSource {
    let samples: Vec<i64> = (0..100).map(|i| (i as i64) * 100).collect();
    AudioSource { source_id: id, sample_rate: 10, samples }
}

fn instance() -> EditorInstance {
    let tl = SegmentTimeline {
        segments: vec![Segment {
            source_id: 1,
            source_start: 0,
            source_end: seconds(10),
            edited_start: 0,
            edited_end: seconds(10),
        }],
    };
    let renderer = AudioRenderer::new(vec![ramp_source(1)], 20_000);
    EditorInstance::new(tl, renderer, 20_000)
}

#[test]
fn split_at_playhead_uses_the_playhead() {
    let mut inst = instance();
    inst.seek(seconds(6));
    inst.split_at_playhead().unwrap();
    let segs = inst.get_segments();
    assert_eq!(segs.len(), 2);
    assert_eq!(segs[0].edited_end, seconds(6));
    assert_eq!(segs[1].edited_start, seconds(6));
    // The playhead sits on the new boundary now: splitting again fails and
    // changes nothing.
    assert_eq!(inst.split_at_playhead().unwrap_err(), EditError::InvalidRange);
    assert_eq!(inst.get_segments().len(), 2);
}

#[test]
fn delete_selection_requires_a_selection() {
    let mut inst = instance();
    assert_eq!(inst.delete_selection().unwrap_err(), EditError::InvalidRange);
    inst.set_selection(Some(TimeRange { start: seconds(2), end: seconds(4) }));
    inst.delete_selection().unwrap();
    assert!(inst.get_state().selection.is_none());
    let segs = inst.get_segments();
    let total: u64 = segs.iter().map(|s| s.edited_end - s.edited_start).sum();
    assert_eq!(total, seconds(8));
    // The selection was consumed.
    assert_eq!(inst.delete_selection().unwrap_err(), EditError::InvalidRange);
}

#[test]
fn failed_command_leaves_instance_unchanged() {
    let mut inst = instance();
    let before = inst.get_segments();
    assert_eq!(inst.split_at(0).unwrap_err(), EditError::InvalidRange);
    assert_eq!(inst.merge(0, 1).unwrap_err(), EditError::NotAdjacent);
    assert_eq!(
        inst.trim_segment(3, 0, seconds(1)).unwrap_err(),
        EditError::InvalidRange
    );
    assert_eq!(
        inst.delete_range(TimeRange { start: seconds(2), end: seconds(2) }).unwrap_err(),
        EditError::InvalidRange
    );
    assert_eq!(inst.get_segments(), before);
    assert_eq!(inst.undo().unwrap_err(), EditError::InvalidRange);
}

#[test]
fn undo_redo_walk_the_snapshot_history() {
    let mut inst = instance();
    let a = inst.get_segments();
    inst.split_at(seconds(5)).unwrap();
    let b = inst.get_segments();
    inst.delete_range(TimeRange { start: seconds(5), end: seconds(10) }).unwrap();
    let c = inst.get_segments();

    inst.undo().unwrap();
    assert_eq!(inst.get_segments(), b);
    inst.undo().unwrap();
    assert_eq!(inst.get_segments(), a);
    assert_eq!(inst.undo().unwrap_err(), EditError::InvalidRange);

    inst.redo().unwrap();
    assert_eq!(inst.get_segments(), b);
    inst.redo().unwrap();
    assert_eq!(inst.get_segments(), c);
    assert_eq!(inst.redo().unwrap_err(), EditError::InvalidRange);

    // A fresh mutation clears the redo history.
    inst.undo().unwrap();
    inst.merge(0, 1).unwrap();
    assert_eq!(inst.redo().unwrap_err(), EditError::InvalidRange);
}

#[test]
fn undo_history_is_bounded() {
    let mut inst = instance();
    // More mutations than the history keeps: each deletes one leading tick.
    for _ in 0..(editor_core::HISTORY_LIMIT + 6) {
        inst.delete_range(TimeRange { start: 0, end: 1 }).unwrap();
    }
    let mut undone = 0;
    while inst.undo().is_ok() {
        undone += 1;
    }
    assert_eq!(undone, editor_core::HISTORY_LIMIT);
}

#[test]
fn delete_during_playback_keeps_the_quantum_snapshot_intact() {
    // The in-flight quantum renders against the snapshot it started with;
    // a concurrent delete affects only later quanta.
    let mut inst = instance();
    inst.play();
    let snapshot = inst.snapshot();
    let renderer = AudioRenderer::new(vec![ramp_source(1)], 20_000);
    let w = TimeRange { start: seconds(2), end: seconds(2) + 20_000 };
    let before = renderer.render_audio_window(&snapshot, w, 1000);

    inst.delete_range(TimeRange { start: 0, end: seconds(4) }).unwrap();

    let after = renderer.render_audio_window(&snapshot, w, 1000);
    assert_eq!(before.samples, after.samples);
    // The next quantum, taken from the instance, sees the new timeline.
    let next = inst.render_audio_window(w, 1000);
    assert_ne!(before.samples, next.samples);
}

#[test]
fn playback_state_machine_transitions() {
    let mut clock = PlaybackClock::new(20_000);
    assert_eq!(clock.state, PlayState::Stopped);
    clock.pause();
    assert_eq!(clock.state, PlayState::Stopped);
    clock.play();
    assert_eq!(clock.state, PlayState::Playing);
    clock.pause();
    assert_eq!(clock.state, PlayState::Paused);
    clock.play();
    assert_eq!(clock.state, PlayState::Playing);
    clock.seek(seconds(3));
    assert_eq!(clock.playhead, seconds(3));
    assert_eq!(clock.state, PlayState::Playing);
    clock.stop();
    assert_eq!(clock.state, PlayState::Stopped);
    assert_eq!(clock.playhead, 0);
}

#[test]
fn quanta_cover_the_timeline_and_clip_at_the_end() {
    let mut clock = PlaybackClock::new(20_000);
    let total: u64 = 50_000;
    assert!(clock.next_quantum(total).is_none());
    clock.play();
    let w = clock.next_quantum(total).unwrap();
    assert_eq!((w.start, w.end), (0, 20_000));
    clock.advance(total);
    let w = clock.next_quantum(total).unwrap();
    assert_eq!((w.start, w.end), (20_000, 40_000));
    clock.advance(total);
    let w = clock.next_quantum(total).unwrap();
    assert_eq!((w.start, w.end), (40_000, 50_000));
    clock.advance(total);
    assert!(clock.next_quantum(total).is_none());
    clock.pause();
    assert!(clock.next_quantum(total).is_none());
}
