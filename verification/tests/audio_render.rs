//! Audio rendering: determinism, silence for missing sources, crossfade
//! behaviour across segment boundaries.

use editor_core::AudioRenderer;
use editor_core::AudioSource;
use editor_core::Segment;
use editor_core::SegmentTimeline;
use editor_core::TimeRange;
use editor_core::TICKS_PER_SECOND;

fn seconds(s: u64) -> u64 {
    s * TICKS_PER_SECOND
}

/// A 10 s source whose amplitude ramps linearly: sample i (at 10 samples per
/// second) has value 100 * i.
fn ramp_source(id: u64) -> AudioSource {
    let samples: Vec<i64> = (0..100).map(|i| (i as i64) * 100).collect();
    AudioSource { source_id: id, sample_rate: 10, samples }
}

fn single_10s_timeline() -> SegmentTimeline {
    SegmentTimeline {
        segments: vec![Segment {
            source_id: 1,
            source_start: 0,
            source_end: seconds(10),
            edited_start: 0,
            edited_end: seconds(10),
        }],
    }
}

#[test]
fn render_is_deterministic_for_a_snapshot() {
    let tl = single_10s_timeline().split_at(seconds(3)).unwrap();
    let renderer = AudioRenderer { sources: vec![ramp_source(1)], fade_len: 20_000 };
    let w = TimeRange { start: seconds(2), end: seconds(4) };
    let a = renderer.render_audio_window(&tl, w, 1000);
    let b = renderer.render_audio_window(&tl, w, 1000);
    assert_eq!(a.samples, b.samples);
    assert_eq!(a.missing_sources, b.missing_sources);
}

#[test]
fn render_has_exact_duration_and_bounded_amplitude() {
    let tl = single_10s_timeline();
    let renderer = AudioRenderer { sources: vec![ramp_source(1)], fade_len: 20_000 };
    let w = TimeRange { start: seconds(1), end: seconds(2) };
    let out = renderer.render_audio_window(&tl, w, 1000);
    // 1 s at 1000 samples per second.
    assert_eq!(out.samples.len(), 1000);
    assert!(out.samples.iter().all(|&v| -32767 <= v && v <= 32767));
    assert!(out.missing_sources.is_empty());
    assert!(out.error.is_none());
    // The ramp value at 1 s into the source is sample 10, value 1000.
    assert_eq!(out.samples[0], 1000);
}

#[test]
fn split_of_contiguous_source_renders_without_click() {
    // A split whose halves keep the source contiguous must sound identical
    // to the unsplit timeline, crossfade included: no click at 5 s.
    let original = single_10s_timeline();
    let split = original.split_at(seconds(5)).unwrap();
    let renderer = AudioRenderer { sources: vec![ramp_source(1)], fade_len: 20_000 };
    let w = TimeRange { start: 4_950_000, end: 5_050_000 };
    let a = renderer.render_audio_window(&original, w, 1000);
    let b = renderer.render_audio_window(&split, w, 1000);
    assert_eq!(a.samples.len(), 100);
    assert_eq!(a.samples, b.samples);
    // The ramp is smooth: adjacent rendered samples differ by about one unit.
    for pair in b.samples.windows(2) {
        assert!((pair[1] - pair[0]).abs() <= 2, "click at a split of a contiguous source");
    }
}

/// Two segments of one source with a cut between their source ranges: the
/// rendered amplitude jumps unless a crossfade tapers the boundary.
fn cut_timeline() -> SegmentTimeline {
    SegmentTimeline {
        segments: vec![
            Segment {
                source_id: 1,
                source_start: 0,
                source_end: seconds(1),
                edited_start: 0,
                edited_end: seconds(1),
            },
            Segment {
                source_id: 1,
                source_start: seconds(5),
                source_end: seconds(6),
                edited_start: seconds(1),
                edited_end: seconds(2),
            },
        ],
    }
}

#[test]
fn crossfade_tapers_a_cut_boundary() {
    let tl = cut_timeline();
    let w = TimeRange { start: 900_000, end: 1_100_000 };

    // Without a crossfade the cut is an audible step of about 4000 units.
    let hard = AudioRenderer { sources: vec![ramp_source(1)], fade_len: 0 };
    let out = hard.render_audio_window(&tl, w, 1000);
    let max_step = out.samples.windows(2).map(|p| (p[1] - p[0]).abs()).max().unwrap();
    assert!(max_step >= 3000, "expected a hard step without crossfade, got {max_step}");

    // A 20 ms crossfade spreads the step over 20 rendered samples.
    let soft = AudioRenderer { sources: vec![ramp_source(1)], fade_len: 20_000 };
    let out = soft.render_audio_window(&tl, w, 1000);
    let max_step = out.samples.windows(2).map(|p| (p[1] - p[0]).abs()).max().unwrap();
    assert!(max_step <= 300, "crossfade left a step of {max_step}");
}

#[test]
fn missing_source_renders_silence_and_is_reported_once() {
    let tl = SegmentTimeline {
        segments: vec![
            Segment {
                source_id: 99,
                source_start: 0,
                source_end: seconds(1),
                edited_start: 0,
                edited_end: seconds(1),
            },
            Segment {
                source_id: 99,
                source_start: seconds(2),
                source_end: seconds(3),
                edited_start: seconds(1),
                edited_end: seconds(2),
            },
        ],
    };
    let renderer = AudioRenderer { sources: vec![ramp_source(1)], fade_len: 20_000 };
    let out = renderer.render_audio_window(&tl, TimeRange { start: 0, end: seconds(2) }, 1000);
    assert_eq!(out.samples.len(), 2000);
    assert!(out.samples.iter().all(|&v| v == 0));
    // Both segments reference source 99; it is reported once.
    assert_eq!(out.missing_sources, vec![99]);
    assert_eq!(out.error, Some(editor_core::EditError::SourceUnavailable));
}

#[test]
fn window_beyond_timeline_renders_silence() {
    let tl = SegmentTimeline {
        segments: vec![Segment {
            source_id: 1,
            source_start: 0,
            source_end: seconds(1),
            edited_start: 0,
            edited_end: seconds(1),
        }],
    };
    let renderer = AudioRenderer { sources: vec![ramp_source(1)], fade_len: 0 };
    let out = renderer.render_audio_window(
        &tl,
        TimeRange { start: seconds(2), end: seconds(3) },
        1000,
    );
    assert_eq!(out.samples.len(), 1000);
    assert!(out.samples.iter().all(|&v| v == 0));
    assert!(out.missing_sources.is_empty());
}
