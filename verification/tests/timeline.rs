//! Timeline invariants and the pure mutation operations.

use editor_core::EditError;
use editor_core::Segment;
use editor_core::SegmentMedia;
use editor_core::SegmentTimeline;
use editor_core::TimeRange;
use editor_core::TICKS_PER_SECOND;
use editor_core::create_segments;
use editor_core::get_audio_segments;

fn seconds(s: u64) -> u64 {
    s * TICKS_PER_SECOND
}

fn single_10s_timeline() -> SegmentTimeline {
    SegmentTimeline {
        segments: vec![Segment {
            source_id: 1,
            source_start: 0,
            source_end: seconds(10),
            edited_start: 0,
            edited_end: seconds(10),
        }],
    }
}

#[test]
fn split_10s_at_5s_then_delete_second() {
    let tl = single_10s_timeline();
    let split = tl.split_at(seconds(5)).unwrap();
    let segs = get_audio_segments(&split);
    assert_eq!(segs.len(), 2);
    assert_eq!(segs[0].edited_start, 0);
    assert_eq!(segs[0].edited_end, seconds(5));
    assert_eq!(segs[0].source_start, 0);
    assert_eq!(segs[0].source_end, seconds(5));
    assert_eq!(segs[1].edited_start, seconds(5));
    assert_eq!(segs[1].edited_end, seconds(10));
    assert_eq!(segs[1].source_start, seconds(5));
    assert_eq!(segs[1].source_end, seconds(10));
    assert_eq!(segs[0].source_id, 1);
    assert_eq!(segs[1].source_id, 1);

    let deleted = split
        .delete_range(TimeRange { start: seconds(5), end: seconds(10) })
        .unwrap();
    let segs = get_audio_segments(&deleted);
    assert_eq!(segs.len(), 1);
    assert_eq!(segs[0].edited_start, 0);
    assert_eq!(segs[0].edited_end, seconds(5));
    assert_eq!(segs[0].source_start, 0);
    assert_eq!(segs[0].source_end, seconds(5));
    assert_eq!(deleted.total_duration(), seconds(5));
}

#[test]
fn split_on_boundary_or_outside_fails() {
    let tl = single_10s_timeline();
    assert_eq!(tl.split_at(0).unwrap_err(), EditError::InvalidRange);
    assert_eq!(tl.split_at(seconds(10)).unwrap_err(), EditError::InvalidRange);
    assert_eq!(tl.split_at(seconds(11)).unwrap_err(), EditError::InvalidRange);
    let split = tl.split_at(seconds(5)).unwrap();
    assert_eq!(split.split_at(seconds(5)).unwrap_err(), EditError::InvalidRange);
}

#[test]
fn map_is_total_in_range_and_fails_out_of_range() {
    let tl = single_10s_timeline().split_at(seconds(4)).unwrap();
    for t in [0, 1, seconds(3), seconds(4), seconds(7), seconds(10) - 1] {
        let (idx, st) = tl.map(t).unwrap();
        let segs = get_audio_segments(&tl);
        assert!(segs[idx].edited_start <= t && t < segs[idx].edited_end);
        assert_eq!(st, segs[idx].source_start + (t - segs[idx].edited_start));
    }
    assert_eq!(tl.map(seconds(10)), Err(EditError::InvalidRange));
    assert_eq!(tl.map(u64::MAX), Err(EditError::InvalidRange));
    let empty = SegmentTimeline { segments: vec![] };
    assert_eq!(empty.map(0), Err(EditError::InvalidRange));
}

#[test]
fn split_then_merge_round_trip() {
    let tl = single_10s_timeline();
    let split = tl.split_at(seconds(7)).unwrap();
    let merged = split.merge_adjacent(0, 1).unwrap();
    assert_eq!(get_audio_segments(&merged), get_audio_segments(&tl));
}

#[test]
fn merge_errors_are_typed() {
    let tl = single_10s_timeline().split_at(seconds(5)).unwrap();
    assert_eq!(tl.merge_adjacent(0, 0).unwrap_err(), EditError::NotAdjacent);
    assert_eq!(tl.merge_adjacent(1, 2).unwrap_err(), EditError::NotAdjacent);
    assert_eq!(tl.merge_adjacent(1, 0).unwrap_err(), EditError::NotAdjacent);

    // Two segments of the same source whose source ranges do not line up.
    let gap = SegmentTimeline {
        segments: vec![
            Segment {
                source_id: 1,
                source_start: 0,
                source_end: seconds(2),
                edited_start: 0,
                edited_end: seconds(2),
            },
            Segment {
                source_id: 1,
                source_start: seconds(3),
                source_end: seconds(4),
                edited_start: seconds(2),
                edited_end: seconds(3),
            },
        ],
    };
    assert_eq!(gap.merge_adjacent(0, 1).unwrap_err(), EditError::Overlap);

    // Adjacent segments of different sources.
    let other = SegmentTimeline {
        segments: vec![
            Segment {
                source_id: 1,
                source_start: 0,
                source_end: seconds(2),
                edited_start: 0,
                edited_end: seconds(2),
            },
            Segment {
                source_id: 2,
                source_start: seconds(2),
                source_end: seconds(3),
                edited_start: seconds(2),
                edited_end: seconds(3),
            },
        ],
    };
    assert_eq!(other.merge_adjacent(0, 1).unwrap_err(), EditError::NotAdjacent);
}

#[test]
fn delete_middle_range_closes_gap() {
    let tl = single_10s_timeline();
    let cut = tl
        .delete_range(TimeRange { start: seconds(2), end: seconds(4) })
        .unwrap();
    let segs = get_audio_segments(&cut);
    assert_eq!(segs.len(), 2);
    assert_eq!(segs[0].edited_start, 0);
    assert_eq!(segs[0].edited_end, seconds(2));
    assert_eq!(segs[0].source_start, 0);
    assert_eq!(segs[0].source_end, seconds(2));
    assert_eq!(segs[1].edited_start, seconds(2));
    assert_eq!(segs[1].edited_end, seconds(8));
    assert_eq!(segs[1].source_start, seconds(4));
    assert_eq!(segs[1].source_end, seconds(10));
    assert_eq!(cut.total_duration(), seconds(8));
}

#[test]
fn delete_empty_or_out_of_bounds_fails() {
    let tl = single_10s_timeline();
    assert_eq!(
        tl.delete_range(TimeRange { start: seconds(3), end: seconds(3) }).unwrap_err(),
        EditError::InvalidRange
    );
    assert_eq!(
        tl.delete_range(TimeRange { start: seconds(4), end: seconds(3) }).unwrap_err(),
        EditError::InvalidRange
    );
    assert_eq!(
        tl.delete_range(TimeRange { start: seconds(9), end: seconds(11) }).unwrap_err(),
        EditError::InvalidRange
    );
}

#[test]
fn trim_recomputes_duration_and_shifts_later_segments() {
    let tl = single_10s_timeline().split_at(seconds(5)).unwrap();
    // Shorten the first segment to source [1s, 3s): duration 2s.
    let trimmed = tl.trim_segment(0, seconds(1), seconds(3)).unwrap();
    let segs = get_audio_segments(&trimmed);
    assert_eq!(segs.len(), 2);
    assert_eq!(segs[0].source_start, seconds(1));
    assert_eq!(segs[0].source_end, seconds(3));
    assert_eq!(segs[0].edited_start, 0);
    assert_eq!(segs[0].edited_end, seconds(2));
    assert_eq!(segs[1].edited_start, seconds(2));
    assert_eq!(segs[1].edited_end, seconds(7));
    assert_eq!(trimmed.total_duration(), seconds(7));
}

#[test]
fn trim_to_empty_or_missing_segment_fails() {
    let tl = single_10s_timeline();
    assert_eq!(
        tl.trim_segment(0, seconds(3), seconds(3)).unwrap_err(),
        EditError::InvalidRange
    );
    assert_eq!(
        tl.trim_segment(0, seconds(4), seconds(3)).unwrap_err(),
        EditError::InvalidRange
    );
    assert_eq!(
        tl.trim_segment(5, seconds(1), seconds(2)).unwrap_err(),
        EditError::InvalidRange
    );
}

#[test]
fn total_duration_equals_sum_of_durations() {
    let tl = single_10s_timeline()
        .split_at(seconds(3)).unwrap()
        .split_at(seconds(8)).unwrap();
    let segs = get_audio_segments(&tl);
    let sum: u64 = segs.iter().map(|s| s.edited_end - s.edited_start).sum();
    assert_eq!(sum, tl.total_duration());
    assert_eq!(sum, seconds(10));
}

#[test]
fn create_segments_builds_contiguous_timeline() {
    let media = vec![
        SegmentMedia { source_id: 7, duration: seconds(3), sample_rate: 48_000, frame_rate: 30 },
        SegmentMedia { source_id: 9, duration: seconds(2), sample_rate: 44_100, frame_rate: 60 },
    ];
    let tl = create_segments(&media).unwrap();
    let segs = get_audio_segments(&tl);
    assert_eq!(segs.len(), 2);
    assert_eq!(segs[0].source_id, 7);
    assert_eq!(segs[0].edited_start, 0);
    assert_eq!(segs[0].edited_end, seconds(3));
    assert_eq!(segs[0].source_start, 0);
    assert_eq!(segs[0].source_end, seconds(3));
    assert_eq!(segs[1].source_id, 9);
    assert_eq!(segs[1].edited_start, seconds(3));
    assert_eq!(segs[1].edited_end, seconds(5));
    assert_eq!(tl.total_duration(), seconds(5));
}

#[test]
fn create_segments_rejects_zero_duration() {
    let media = vec![
        SegmentMedia { source_id: 7, duration: 0, sample_rate: 48_000, frame_rate: 30 },
    ];
    assert_eq!(create_segments(&media).unwrap_err(), EditError::InvalidRange);
}
