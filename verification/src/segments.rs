//! The segment timeline: an ordered, contiguous, non-overlapping sequence of
//! segments mapping edited time to source-media time, with pure mutation
//! operations (split, delete, trim, merge) that return a new validated
//! timeline value and never expose a partially updated state.

use vstd::prelude::*;

verus! {

/// Number of ticks in one second of media time.
pub const TICKS_PER_SECOND: u64 = 1_000_000;

/// Upper bound on every tick value the engine accepts; keeps all tick
/// arithmetic well inside `u64`.
pub const MAX_TIME_TICKS: u64 = 0x100_0000_0000;

/// Error taxonomy of the engine.
#[derive(Clone, Copy, PartialEq, Eq, Structural, Debug)]
pub enum EditError {
    /// Zero/negative or out-of-bounds time range, or a split on a boundary.
    InvalidRange,
    /// Merging segments whose source ranges do not line up.
    Overlap,
    /// Merging segments that are not adjacent or draw on different sources.
    NotAdjacent,
    /// A referenced source is missing or revoked.
    SourceUnavailable,
    /// The underlying media decode failed.
    DecodeError,
    /// The playback sink could not keep up.
    BufferUnderrun,
}

/// A half-open range `[start, end)` in edited time, in ticks.
#[derive(Clone, Copy, PartialEq, Eq, Structural, Debug)]
pub struct TimeRange {
    pub start: u64,
    pub end: u64,
}

/// A contiguous mapped range between edited timeline time and source media
/// time. The mapping is one-to-one: the segment plays `source_start..source_end`
/// of its source over `edited_start..edited_end` of the edited timeline.
#[derive(Clone, Copy, PartialEq, Eq, Structural, Debug)]
pub struct Segment {
    pub source_id: u64,
    pub source_start: u64,
    pub source_end: u64,
    pub edited_start: u64,
    pub edited_end: u64,
}

impl Segment {
    /// Both ranges are non-empty and of equal length, and stay within the
    /// engine's tick bound.
    pub open spec fn wf(self) -> bool {
        &&& self.source_start < self.source_end
        &&& self.edited_start < self.edited_end
        &&& self.source_end - self.source_start == self.edited_end - self.edited_start
        &&& self.source_end <= MAX_TIME_TICKS
        &&& self.edited_end <= MAX_TIME_TICKS
    }

    /// Duration of the segment, equal in edited and in source time.
    pub open spec fn duration(self) -> int {
        self.edited_end - self.edited_start
    }

    /// The source tick that edited tick `t` maps to under this segment.
    pub open spec fn source_time_at(self, t: int) -> int {
        self.source_start + (t - self.edited_start)
    }
}

/// The timeline invariant: every segment is well formed, the first segment
/// starts at edited tick 0, and each segment ends exactly where the next one
/// starts (contiguous and non-overlapping).
pub open spec fn wf_segments(s: Seq<Segment>) -> bool {
    &&& forall|i: int| 0 <= i < s.len() ==> (#[trigger] s[i]).wf()
    &&& s.len() > 0 ==> s[0].edited_start == 0
    &&& forall|i: int| 0 <= i && i + 1 < s.len() ==> (#[trigger] s[i]).edited_end == s[i + 1].edited_start
}

/// Total edited duration: the end of the last segment, or 0 for an empty
/// timeline.
pub open spec fn total_of(s: Seq<Segment>) -> int {
    if s.len() == 0 {
        0
    } else {
        s[s.len() - 1].edited_end as int
    }
}

/// Sum of the segments' durations.
pub open spec fn sum_of_durations(s: Seq<Segment>) -> int
    decreases s.len(),
{
    if s.len() == 0 {
        0
    } else {
        sum_of_durations(s.drop_last()) + s.last().duration()
    }
}

/// Ordered, non-overlapping sequence of segments defining the edited output.
/// Mutations are pure: they take the timeline by reference and return a new
/// validated value, so concurrent readers of an old snapshot never observe a
/// partial update.
#[derive(Debug)]
pub struct SegmentTimeline {
    pub segments: Vec<Segment>,
}

impl View for SegmentTimeline {
    type V = Seq<Segment>;

    open spec fn view(&self) -> Seq<Segment> {
        self.segments@
    }
}

/// On a well-formed timeline, segments with smaller index end no later than
/// later segments begin: the timeline is sorted and free of overlap.
pub proof fn lemma_segments_ordered(s: Seq<Segment>, i: int, j: int)
    requires
        wf_segments(s),
        0 <= i < j < s.len(),
    ensures
        s[i].edited_end <= s[j].edited_start,
    decreases j - i,
{
    if j == i + 1 {
    } else {
        lemma_segments_ordered(s, i, j - 1);
        assert(s[j - 1].edited_end == s[j].edited_start);
    }
}

/// Every segment of a well-formed timeline lies within `[0, total)`.
pub proof fn lemma_segment_within_total(s: Seq<Segment>, i: int)
    requires
        wf_segments(s),
        0 <= i < s.len(),
    ensures
        s[i].edited_end <= total_of(s),
{
    if i < s.len() - 1 {
        lemma_segments_ordered(s, i, s.len() - 1);
    }
}

/// At most one segment of a well-formed timeline contains a given edited tick.
pub proof fn lemma_containing_segment_unique(s: Seq<Segment>, i: int, j: int, t: int)
    requires
        wf_segments(s),
        0 <= i < s.len(),
        0 <= j < s.len(),
        s[i].edited_start <= t < s[i].edited_end,
        s[j].edited_start <= t < s[j].edited_end,
    ensures
        i == j,
{
    if i < j {
        lemma_segments_ordered(s, i, j);
    } else if j < i {
        lemma_segments_ordered(s, j, i);
    }
}

/// Every edited tick in `[0, total)` is covered by some segment: the edited
/// time mapping is total on the timeline's domain.
pub proof fn lemma_edited_time_covered(s: Seq<Segment>, t: int)
    requires
        wf_segments(s),
        0 <= t < total_of(s),
    ensures
        exists|i: int| 0 <= i < s.len() && (#[trigger] s[i]).edited_start <= t < s[i].edited_end,
    decreases s.len(),
{
    let last = s.len() - 1;
    if s[last].edited_start <= t {
        assert(s[last].edited_start <= t < s[last].edited_end);
    } else {
        let p = s.drop_last();
        assert(wf_segments(p)) by {
            assert(forall|i: int| 0 <= i < p.len() ==> p[i] == s[i]);
        }
        assert(total_of(p) == s[last].edited_start);
        lemma_edited_time_covered(p, t);
        let w = choose|i: int|
            0 <= i < p.len() && (#[trigger] p[i]).edited_start <= t < p[i].edited_end;
        assert(s[w].edited_start <= t < s[w].edited_end);
    }
}

/// The sum of the segments' durations equals the total timeline duration.
pub proof fn lemma_total_duration_is_sum_of_durations(s: Seq<Segment>)
    requires
        wf_segments(s),
    ensures
        total_of(s) == sum_of_durations(s),
    decreases s.len(),
{
    if s.len() == 0 {
    } else {
        let p = s.drop_last();
        assert(wf_segments(p)) by {
            assert(forall|i: int| 0 <= i < p.len() ==> p[i] == s[i]);
        }
        lemma_total_duration_is_sum_of_durations(p);
        if s.len() > 1 {
            assert(s[s.len() - 2].edited_end == s.last().edited_start);
        }
    }
}

impl SegmentTimeline {
    /// The timeline invariant.
    pub open spec fn wf(&self) -> bool {
        wf_segments(self@)
    }

    /// Spec-level total edited duration.
    pub open spec fn total_spec(&self) -> int {
        total_of(self@)
    }

    /// An empty timeline.
    pub fn empty() -> (r: SegmentTimeline)
        ensures
            r@ == Seq::<Segment>::empty(),
            r.wf(),
    {
        let tl = SegmentTimeline { segments: Vec::new() };
        proof {
            assert(tl@ =~= Seq::<Segment>::empty());
        }
        tl
    }

    /// Total edited duration of the timeline, in ticks.
    pub fn total_duration(&self) -> (r: u64)
        requires
            self.wf(),
        ensures
            r == total_of(self@),
    {
        let n = self.segments.len();
        if n == 0 {
            0
        } else {
            self.segments[n - 1].edited_end
        }
    }

    /// Maps an edited tick to the segment containing it and the source tick it
    /// plays, by binary search over the sorted edited starts. Succeeds exactly
    /// on ticks within `[0, total)`; out-of-range ticks fail with
    /// `InvalidRange`.
    pub fn map(&self, edited_time: u64) -> (r: Result<(usize, u64), EditError>)
        requires
            self.wf(),
        ensures
            r is Ok <==> edited_time < total_of(self@),
            match r {
                Ok(p) => {
                    &&& p.0 < self@.len()
                    &&& self@[p.0 as int].edited_start <= edited_time < self@[p.0 as int].edited_end
                    &&& p.1 == self@[p.0 as int].source_time_at(edited_time as int)
                },
                Err(e) => e == EditError::InvalidRange,
            },
    {
        let n = self.segments.len();
        if n == 0 {
            return Err(EditError::InvalidRange);
        }
        let total = self.segments[n - 1].edited_end;
        if edited_time >= total {
            return Err(EditError::InvalidRange);
        }
        let mut lo: usize = 0;
        let mut hi: usize = n;
        while lo + 1 < hi
            invariant
                self.wf(),
                n == self@.len(),
                0 < n,
                lo < hi <= n,
                self@[lo as int].edited_start <= edited_time,
                hi < n ==> edited_time < self@[hi as int].edited_start,
                edited_time < total_of(self@),
            decreases hi - lo,
        {
            let mid = lo + (hi - lo) / 2;
            if self.segments[mid].edited_start <= edited_time {
                lo = mid;
            } else {
                hi = mid;
            }
        }
        proof {
            if hi < n {
                assert(self@[lo as int].edited_end == self@[hi as int].edited_start);
            } else {
                assert(lo == n - 1);
            }
        }
        let seg = self.segments[lo];
        proof {
            lemma_segment_within_total(self@, lo as int);
        }
        Ok((lo, seg.source_start + (edited_time - seg.edited_start)))
    }
}

/// Whether segment `id` of timeline `s` can be trimmed to source bounds
/// `[ss, se)`: the segment exists, the new duration is positive, and the new
/// bounds keep every tick of the shifted timeline within the engine's limit.
pub open spec fn trim_ok(s: Seq<Segment>, id: int, ss: u64, se: u64) -> bool {
    &&& 0 <= id < s.len()
    &&& ss < se
    &&& se <= MAX_TIME_TICKS
    &&& total_of(s) - s[id].duration() + (se - ss) <= MAX_TIME_TICKS
}

/// The timeline after trimming segment `id` to source bounds `[ss, se)`: the
/// segment's edited duration is recomputed and every later segment shifts by
/// the change in duration.
pub open spec fn trim_segments(s: Seq<Segment>, id: int, ss: u64, se: u64) -> Seq<Segment> {
    let delta = (se - ss) - s[id].duration();
    Seq::new(
        s.len(),
        |j: int|
            if j < id {
                s[j]
            } else if j == id {
                Segment {
                    source_id: s[id].source_id,
                    source_start: ss,
                    source_end: se,
                    edited_start: s[id].edited_start,
                    edited_end: (s[id].edited_start + (se - ss)) as u64,
                }
            } else {
                Segment {
                    source_id: s[j].source_id,
                    source_start: s[j].source_start,
                    source_end: s[j].source_end,
                    edited_start: (s[j].edited_start + delta) as u64,
                    edited_end: (s[j].edited_end + delta) as u64,
                }
            },
    )
}

/// Trimming a segment within the limits keeps the timeline well formed, and
/// changes the total duration by the change in the segment's duration.
pub proof fn lemma_trim_preserves_wf(s: Seq<Segment>, id: int, ss: u64, se: u64)
    requires
        wf_segments(s),
        trim_ok(s, id, ss, se),
    ensures
        wf_segments(trim_segments(s, id, ss, se)),
        total_of(trim_segments(s, id, ss, se)) == total_of(s) - s[id].duration() + (se - ss),
{
    let r = trim_segments(s, id, ss, se);
    let delta = (se - ss) - s[id].duration();
    assert forall|j: int| id < j < s.len() implies s[id].edited_end <= (#[trigger] s[j]).edited_start
        && s[j].edited_end <= total_of(s) by {
        lemma_segments_ordered(s, id, j);
        lemma_segment_within_total(s, j);
    }
    lemma_segment_within_total(s, id);
    assert forall|j: int| 0 <= j < r.len() implies (#[trigger] r[j]).wf() by {
        if j > id {
            assert(s[j].edited_start + delta >= s[id].edited_start + (se - ss));
        }
    }
    assert forall|j: int| 0 <= j && j + 1 < r.len() implies (#[trigger] r[j]).edited_end == r[j
        + 1].edited_start by {
        if j + 1 > id && j + 1 < s.len() {
            assert(s[j].edited_end == s[j + 1].edited_start);
        }
    }
    if r.len() > 0 {
        assert(r[0].edited_start == s[0].edited_start);
    }
    if id == s.len() - 1 {
        assert(r[r.len() - 1].edited_end == s[id].edited_start + (se - ss));
    } else {
        assert(r[r.len() - 1].edited_end == s[s.len() - 1].edited_end + delta);
    }
}

impl SegmentTimeline {
    /// Adjusts a segment's source bounds and recomputes its edited duration,
    /// shifting all later segments by the change. Fails with `InvalidRange`
    /// exactly when the segment does not exist, the new duration would not be
    /// positive, or a tick of the result would exceed the engine's limit.
    #[verifier::rlimit(80)]
    pub fn trim_segment(&self, id: usize, new_source_start: u64, new_source_end: u64) -> (r:
        Result<SegmentTimeline, EditError>)
        requires
            self.wf(),
        ensures
            r is Ok <==> trim_ok(self@, id as int, new_source_start, new_source_end),
            match r {
                Ok(tl) => {
                    &&& tl.wf()
                    &&& tl@ == trim_segments(self@, id as int, new_source_start, new_source_end)
                    &&& total_of(tl@) == total_of(self@) - self@[id as int].duration() + (
                    new_source_end - new_source_start)
                },
                Err(e) => e == EditError::InvalidRange,
            },
    {
        let n = self.segments.len();
        if !(id < n && new_source_start < new_source_end && new_source_end <= MAX_TIME_TICKS) {
            return Err(EditError::InvalidRange);
        }
        let seg = self.segments[id];
        let old_dur = seg.edited_end - seg.edited_start;
        let new_dur = new_source_end - new_source_start;
        let total = self.total_duration();
        proof {
            lemma_segment_within_total(self@, id as int);
        }
        if total - old_dur > MAX_TIME_TICKS - new_dur {
            return Err(EditError::InvalidRange);
        }
        let ghost tsp = trim_segments(self@, id as int, new_source_start, new_source_end);
        proof {
            lemma_trim_preserves_wf(self@, id as int, new_source_start, new_source_end);
            assert forall|j: int| id < j < n implies self@[id as int].edited_end <= (
            #[trigger] self@[j]).edited_start && self@[j].edited_end <= total_of(self@) by {
                lemma_segments_ordered(self@, id as int, j);
                lemma_segment_within_total(self@, j);
            }
        }
        let mut v: Vec<Segment> = Vec::new();
        let mut j: usize = 0;
        while j < n
            invariant
                self.wf(),
                n == self@.len(),
                id < n,
                j <= n,
                new_source_start < new_source_end <= MAX_TIME_TICKS,
                seg == self@[id as int],
                old_dur == seg.edited_end - seg.edited_start,
                new_dur == new_source_end - new_source_start,
                total == total_of(self@),
                total - old_dur + new_dur <= MAX_TIME_TICKS,
                tsp == trim_segments(self@, id as int, new_source_start, new_source_end),
                forall|k: int| id < k < n ==> self@[id as int].edited_end <= (
                #[trigger] self@[k]).edited_start && self@[k].edited_end <= total_of(self@),
                v@.len() == j,
                forall|k: int| 0 <= k < j ==> v@[k] == tsp[k],
            decreases n - j,
        {
            if j < id {
                v.push(self.segments[j]);
            } else if j == id {
                v.push(
                    Segment {
                        source_id: seg.source_id,
                        source_start: new_source_start,
                        source_end: new_source_end,
                        edited_start: seg.edited_start,
                        edited_end: seg.edited_start + new_dur,
                    },
                );
            } else {
                let sj = self.segments[j];
                if new_dur >= old_dur {
                    let diff = new_dur - old_dur;
                    v.push(
                        Segment {
                            source_id: sj.source_id,
                            source_start: sj.source_start,
                            source_end: sj.source_end,
                            edited_start: sj.edited_start + diff,
                            edited_end: sj.edited_end + diff,
                        },
                    );
                } else {
                    let diff = old_dur - new_dur;
                    v.push(
                        Segment {
                            source_id: sj.source_id,
                            source_start: sj.source_start,
                            source_end: sj.source_end,
                            edited_start: sj.edited_start - diff,
                            edited_end: sj.edited_end - diff,
                        },
                    );
                }
            }
            j = j + 1;
        }
        let tl = SegmentTimeline { segments: v };
        proof {
            assert(tl@ =~= tsp);
        }
        Ok(tl)
    }
}

impl Clone for SegmentTimeline {
    /// A snapshot copy: the clone holds the same segments, so readers of the
    /// copy are unaffected by later mutations of the original.
    fn clone(&self) -> (r: Self)
        ensures
            r@ == self@,
    {
        SegmentTimeline { segments: clone_segments(&self.segments) }
    }
}

/// Copies a segment vector element by element.
fn clone_segments(v: &Vec<Segment>) -> (r: Vec<Segment>)
    ensures
        r@ == v@,
{
    let mut out: Vec<Segment> = Vec::new();
    let n = v.len();
    let mut i: usize = 0;
    while i < n
        invariant
            n == v@.len(),
            i <= n,
            out@ == v@.subrange(0, i as int),
        decreases n - i,
    {
        out.push(v[i]);
        proof {
            assert(out@ =~= v@.subrange(0, i + 1 as int));
        }
        i = i + 1;
    }
    proof {
        assert(out@ =~= v@);
    }
    out
}

/// The ordered list of segments of a timeline, for audio handling and for the
/// surrounding application's queries.
pub fn get_audio_segments(timeline: &SegmentTimeline) -> (r: Vec<Segment>)
    ensures
        r@ == timeline@,
{
    let mut v: Vec<Segment> = Vec::new();
    let n = timeline.segments.len();
    let mut i: usize = 0;
    while i < n
        invariant
            n == timeline@.len(),
            i <= n,
            v@ == timeline@.subrange(0, i as int),
        decreases n - i,
    {
        v.push(timeline.segments[i]);
        proof {
            assert(v@ =~= timeline@.subrange(0, i + 1 as int));
        }
        i = i + 1;
    }
    proof {
        assert(v@ =~= timeline@);
    }
    v
}

/// The left half of splitting `seg` at edited tick `t`.
pub open spec fn split_left(seg: Segment, t: u64) -> Segment {
    Segment {
        source_id: seg.source_id,
        source_start: seg.source_start,
        source_end: seg.source_time_at(t as int) as u64,
        edited_start: seg.edited_start,
        edited_end: t,
    }
}

/// The right half of splitting `seg` at edited tick `t`.
pub open spec fn split_right(seg: Segment, t: u64) -> Segment {
    Segment {
        source_id: seg.source_id,
        source_start: seg.source_time_at(t as int) as u64,
        source_end: seg.source_end,
        edited_start: t,
        edited_end: seg.edited_end,
    }
}

/// The timeline after splitting segment `i` at edited tick `t`.
pub open spec fn split_segments(s: Seq<Segment>, i: int, t: u64) -> Seq<Segment> {
    s.subrange(0, i) + seq![split_left(s[i], t), split_right(s[i], t)] + s.subrange(
        i + 1,
        s.len() as int,
    )
}

/// A split point is valid exactly when it falls strictly inside some segment:
/// neither on an existing boundary nor outside the timeline's range.
pub open spec fn splittable(s: Seq<Segment>, t: u64) -> bool {
    exists|i: int| 0 <= i < s.len() && (#[trigger] s[i]).edited_start < t < s[i].edited_end
}

/// Splitting a segment strictly inside keeps the timeline well formed and the
/// total duration unchanged.
pub proof fn lemma_split_preserves_wf(s: Seq<Segment>, i: int, t: u64)
    requires
        wf_segments(s),
        0 <= i < s.len(),
        s[i].edited_start < t < s[i].edited_end,
    ensures
        wf_segments(split_segments(s, i, t)),
        total_of(split_segments(s, i, t)) == total_of(s),
        split_segments(s, i, t).len() == s.len() + 1,
    {
    let r = split_segments(s, i, t);
    assert(r.len() == s.len() + 1);
    assert forall|j: int| 0 <= j < r.len() implies (#[trigger] r[j]).wf() by {
        if j < i {
            assert(r[j] == s[j]);
        } else if j == i {
            assert(r[j] == split_left(s[i], t));
        } else if j == i + 1 {
            assert(r[j] == split_right(s[i], t));
        } else {
            assert(r[j] == s[j - 1]);
        }
    }
    assert forall|j: int| 0 <= j && j + 1 < r.len() implies (#[trigger] r[j]).edited_end == r[j
        + 1].edited_start by {
        if j + 1 < i {
            assert(r[j] == s[j] && r[j + 1] == s[j + 1]);
        } else if j + 1 == i {
            assert(r[j] == s[j] && r[j + 1] == split_left(s[i], t));
        } else if j == i {
            assert(r[j] == split_left(s[i], t) && r[j + 1] == split_right(s[i], t));
        } else if j == i + 1 {
            assert(r[j] == split_right(s[i], t));
            if j + 1 < r.len() {
                assert(r[j + 1] == s[i + 1]);
            }
        } else {
            assert(r[j] == s[j - 1] && r[j + 1] == s[j]);
        }
    }
    if i + 1 == s.len() {
        assert(r[r.len() - 1] == split_right(s[i], t));
    } else {
        assert(r[r.len() - 1] == s[s.len() - 1]);
    }
    assert(r[0] == if i == 0 { split_left(s[0], t) } else { s[0] });
}

/// Whether segments `a` and `b` can merge: adjacent indices, the same source,
/// and source ranges that line up exactly.
pub open spec fn mergeable(s: Seq<Segment>, a: int, b: int) -> bool {
    &&& 0 <= a
    &&& b == a + 1
    &&& b < s.len()
    &&& s[a].source_id == s[b].source_id
    &&& s[a].source_end == s[b].source_start
}

/// The error merge reports when it fails: `NotAdjacent` when the segments are
/// not neighbours drawing on the same source, `Overlap` when they are but
/// their source ranges do not line up.
pub open spec fn merge_error(s: Seq<Segment>, a: int, b: int) -> EditError {
    if 0 <= a && b == a + 1 && b < s.len() && s[a].source_id == s[b].source_id {
        EditError::Overlap
    } else {
        EditError::NotAdjacent
    }
}

/// The single segment that replaces two merged neighbours.
pub open spec fn merged_segment(a: Segment, b: Segment) -> Segment {
    Segment {
        source_id: a.source_id,
        source_start: a.source_start,
        source_end: b.source_end,
        edited_start: a.edited_start,
        edited_end: b.edited_end,
    }
}

/// The timeline after merging segments `i` and `i + 1`.
pub open spec fn merge_segments(s: Seq<Segment>, i: int) -> Seq<Segment> {
    s.subrange(0, i) + seq![merged_segment(s[i], s[i + 1])] + s.subrange(i + 2, s.len() as int)
}

/// Merging two mergeable neighbours keeps the timeline well formed and the
/// total duration unchanged.
pub proof fn lemma_merge_preserves_wf(s: Seq<Segment>, i: int)
    requires
        wf_segments(s),
        mergeable(s, i, i + 1),
    ensures
        wf_segments(merge_segments(s, i)),
        total_of(merge_segments(s, i)) == total_of(s),
        merge_segments(s, i).len() == s.len() - 1,
{
    let r = merge_segments(s, i);
    assert(r.len() == s.len() - 1);
    assert forall|j: int| 0 <= j < r.len() implies (#[trigger] r[j]).wf() by {
        if j < i {
            assert(r[j] == s[j]);
        } else if j == i {
            assert(r[j] == merged_segment(s[i], s[i + 1]));
            assert(s[i].edited_end == s[i + 1].edited_start);
        } else {
            assert(r[j] == s[j + 1]);
        }
    }
    assert forall|j: int| 0 <= j && j + 1 < r.len() implies (#[trigger] r[j]).edited_end == r[j
        + 1].edited_start by {
        if j + 1 < i {
            assert(r[j] == s[j] && r[j + 1] == s[j + 1]);
        } else if j + 1 == i {
            assert(r[j] == s[j] && r[j + 1] == merged_segment(s[i], s[i + 1]));
        } else if j == i {
            assert(r[j] == merged_segment(s[i], s[i + 1]) && r[j + 1] == s[i + 2]);
        } else {
            assert(r[j] == s[j + 1] && r[j + 1] == s[j + 2]);
        }
    }
    if i + 2 == s.len() {
        assert(r[r.len() - 1] == merged_segment(s[i], s[i + 1]));
    } else {
        assert(r[r.len() - 1] == s[s.len() - 1]);
    }
    assert(r[0] == if i == 0 { merged_segment(s[0], s[1]) } else { s[0] });
}

/// Splitting a segment and merging the two resulting halves restores the
/// original timeline exactly (round trip).
pub proof fn lemma_split_merge_round_trip(s: Seq<Segment>, i: int, t: u64)
    requires
        wf_segments(s),
        0 <= i < s.len(),
        s[i].edited_start < t < s[i].edited_end,
    ensures
        mergeable(split_segments(s, i, t), i, i + 1),
        merge_segments(split_segments(s, i, t), i) == s,
{
    let sp = split_segments(s, i, t);
    assert(sp[i] == split_left(s[i], t));
    assert(sp[i + 1] == split_right(s[i], t));
    assert(merged_segment(sp[i], sp[i + 1]) == s[i]);
    let r = merge_segments(sp, i);
    assert forall|j: int| 0 <= j < r.len() implies r[j] == s[j] by {
        if j < i {
            assert(r[j] == sp[j] && sp[j] == s[j]);
        } else if j == i {
            assert(r[j] == merged_segment(sp[i], sp[i + 1]));
        } else {
            assert(r[j] == sp[j + 1] && sp[j + 1] == s[j]);
        }
    }
    assert(r =~= s);
}

/// Where edited tick `e` lands after the range `[a, b)` is removed and the
/// gap closed: ticks at or before `a` stay, ticks at or past `b` shift left by
/// the removed duration, and ticks inside the range collapse onto `a`.
pub open spec fn shift_back(e: int, a: int, b: int) -> int {
    if e <= a {
        e
    } else if e >= b {
        e - (b - a)
    } else {
        a
    }
}

/// The pieces of one segment that survive deleting edited range `[a, b)`:
/// the part before `a`, kept in place, and the part from `b` on, shifted left
/// by the removed duration. Either may be empty.
pub open spec fn delete_from_segment(seg: Segment, a: int, b: int) -> Seq<Segment> {
    let left = if seg.edited_start < a {
        let e = if a < seg.edited_end {
            a
        } else {
            seg.edited_end as int
        };
        seq![
            Segment {
                source_id: seg.source_id,
                source_start: seg.source_start,
                source_end: (seg.source_start + (e - seg.edited_start)) as u64,
                edited_start: seg.edited_start,
                edited_end: e as u64,
            },
        ]
    } else {
        Seq::<Segment>::empty()
    };
    let right = if b < seg.edited_end {
        let st = if b > seg.edited_start {
            b
        } else {
            seg.edited_start as int
        };
        seq![
            Segment {
                source_id: seg.source_id,
                source_start: (seg.source_start + (st - seg.edited_start)) as u64,
                source_end: seg.source_end,
                edited_start: (st - (b - a)) as u64,
                edited_end: (seg.edited_end - (b - a)) as u64,
            },
        ]
    } else {
        Seq::<Segment>::empty()
    };
    left + right
}

/// The timeline after deleting edited range `[a, b)` and closing the gap.
pub open spec fn delete_segments(s: Seq<Segment>, a: int, b: int) -> Seq<Segment>
    decreases s.len(),
{
    if s.len() == 0 {
        Seq::<Segment>::empty()
    } else {
        delete_segments(s.drop_last(), a, b) + delete_from_segment(s.last(), a, b)
    }
}

/// Unfolds `delete_segments` one prefix step at a time.
proof fn lemma_delete_segments_snoc(s: Seq<Segment>, i: int, a: int, b: int)
    requires
        0 <= i < s.len(),
    ensures
        delete_segments(s.subrange(0, i + 1), a, b) == delete_segments(s.subrange(0, i), a, b)
            + delete_from_segment(s[i], a, b),
{
    let p = s.subrange(0, i + 1);
    assert(p.drop_last() =~= s.subrange(0, i));
    assert(p.last() == s[i]);
}

/// Appending a well-formed chain of segments that starts where a well-formed
/// timeline ends keeps the whole well formed.
proof fn lemma_wf_append(v: Seq<Segment>, w: Seq<Segment>)
    requires
        wf_segments(v),
        forall|i: int| 0 <= i < w.len() ==> (#[trigger] w[i]).wf(),
        forall|i: int|
            0 <= i && i + 1 < w.len() ==> (#[trigger] w[i]).edited_end == w[i + 1].edited_start,
        v.len() == 0 && w.len() > 0 ==> w[0].edited_start == 0,
        v.len() > 0 && w.len() > 0 ==> v.last().edited_end == w[0].edited_start,
    ensures
        wf_segments(v + w),
{
    let r = v + w;
    assert forall|i: int| 0 <= i < r.len() implies (#[trigger] r[i]).wf() by {
        if i < v.len() {
            assert(r[i] == v[i]);
        } else {
            assert(r[i] == w[i - v.len()]);
        }
    }
    assert forall|i: int| 0 <= i && i + 1 < r.len() implies (#[trigger] r[i]).edited_end == r[i
        + 1].edited_start by {
        if i + 1 < v.len() {
            assert(r[i] == v[i] && r[i + 1] == v[i + 1]);
        } else if i + 1 == v.len() {
            assert(r[i] == v[i] && r[i + 1] == w[0]);
            assert(v[i] == v.last());
        } else {
            assert(r[i] == w[i - v.len()] && r[i + 1] == w[i + 1 - v.len()]);
        }
    }
    if r.len() > 0 {
        if v.len() > 0 {
            assert(r[0] == v[0]);
        } else {
            assert(r[0] == w[0]);
        }
    }
}

impl SegmentTimeline {
    /// Removes the portion of the timeline overlapping `range`, closing the
    /// gap by shifting subsequent edited times left by the removed duration.
    /// Fails with `InvalidRange` exactly when the range is empty or reaches
    /// past the end of the timeline.
    #[verifier::rlimit(80)]
    pub fn delete_range(&self, range: TimeRange) -> (r: Result<SegmentTimeline, EditError>)
        requires
            self.wf(),
        ensures
            r is Ok <==> (range.start < range.end && range.end <= total_of(self@)),
            match r {
                Ok(tl) => {
                    &&& tl.wf()
                    &&& tl@ == delete_segments(self@, range.start as int, range.end as int)
                    &&& total_of(tl@) == total_of(self@) - (range.end - range.start)
                },
                Err(e) => e == EditError::InvalidRange,
            },
    {
        let n = self.segments.len();
        let total = self.total_duration();
        if !(range.start < range.end && range.end <= total) {
            return Err(EditError::InvalidRange);
        }
        let a = range.start;
        let b = range.end;
        let rem = b - a;
        let ghost ai = a as int;
        let ghost bi = b as int;
        let mut v: Vec<Segment> = Vec::new();
        let mut i: usize = 0;
        proof {
            assert(v@ =~= delete_segments(self@.subrange(0, 0), ai, bi));
        }
        while i < n
            invariant
                self.wf(),
                n == self@.len(),
                ai == a && bi == b,
                0 <= ai < bi <= total_of(self@),
                total_of(self@) <= MAX_TIME_TICKS,
                rem == bi - ai,
                i <= n,
                v@ == delete_segments(self@.subrange(0, i as int), ai, bi),
                wf_segments(v@),
                v@.len() == 0 ==> shift_back(if i == 0 { 0int } else { self@[i - 1].edited_end as int }, ai, bi) == 0,
                v@.len() > 0 ==> v@.last().edited_end == shift_back(if i == 0 { 0int } else { self@[i - 1].edited_end as int }, ai, bi),
            decreases n - i,
        {
            let seg = self.segments[i];
            let ghost es = seg.edited_start as int;
            let ghost ee = seg.edited_end as int;
            let ghost old_v = v@;
            let ghost pieces = delete_from_segment(seg, ai, bi);
            proof {
                if i > 0 {
                    assert(self@[i - 1].edited_end == seg.edited_start);
                }
                lemma_segment_within_total(self@, i as int);
            }
            if seg.edited_start < a {
                let e = if a < seg.edited_end {
                    a
                } else {
                    seg.edited_end
                };
                v.push(
                    Segment {
                        source_id: seg.source_id,
                        source_start: seg.source_start,
                        source_end: seg.source_start + (e - seg.edited_start),
                        edited_start: seg.edited_start,
                        edited_end: e,
                    },
                );
            }
            if b < seg.edited_end {
                let st = if b > seg.edited_start {
                    b
                } else {
                    seg.edited_start
                };
                v.push(
                    Segment {
                        source_id: seg.source_id,
                        source_start: seg.source_start + (st - seg.edited_start),
                        source_end: seg.source_end,
                        edited_start: st - rem,
                        edited_end: seg.edited_end - rem,
                    },
                );
            }
            proof {
                assert(v@ =~= old_v + pieces);
                assert forall|j: int| 0 <= j < pieces.len() implies (#[trigger] pieces[j]).wf()
                    by {}
                assert(pieces.len() > 0 ==> pieces[0].edited_start == shift_back(es, ai, bi));
                lemma_wf_append(old_v, pieces);
                lemma_delete_segments_snoc(self@, i as int, ai, bi);
                assert(pieces.len() == 0 ==> shift_back(ee, ai, bi) == shift_back(es, ai, bi));
                assert(pieces.len() > 0 ==> pieces.last().edited_end == shift_back(ee, ai, bi));
            }
            i = i + 1;
        }
        proof {
            assert(self@.subrange(0, n as int) =~= self@);
        }
        let tl = SegmentTimeline { segments: v };
        proof {
            if tl@.len() > 0 {
                assert(total_of(tl@) == shift_back(total_of(self@), ai, bi));
            }
        }
        Ok(tl)
    }
}

impl SegmentTimeline {
    /// Splits the segment containing `edited_time` into two segments that
    /// preserve the source-time mapping, returning the new timeline. Fails
    /// with `InvalidRange` exactly when the split point falls on an existing
    /// boundary or outside the timeline's range.
    pub fn split_at(&self, edited_time: u64) -> (r: Result<SegmentTimeline, EditError>)
        requires
            self.wf(),
        ensures
            r is Ok <==> splittable(self@, edited_time),
            match r {
                Ok(tl) => {
                    &&& tl.wf()
                    &&& total_of(tl@) == total_of(self@)
                    &&& exists|i: int|
                        0 <= i < self@.len() && (#[trigger] self@[i]).edited_start < edited_time
                            < self@[i].edited_end && tl@ == split_segments(self@, i, edited_time)
                },
                Err(e) => e == EditError::InvalidRange,
            },
    {
        let located = self.map(edited_time);
        match located {
            Err(_) => {
                proof {
                    assert forall|i: int|
                        0 <= i < self@.len() implies !((#[trigger] self@[i]).edited_start
                        < edited_time < self@[i].edited_end) by {
                        lemma_segment_within_total(self@, i);
                    }
                }
                Err(EditError::InvalidRange)
            },
            Ok((idx, _)) => {
                let seg = self.segments[idx];
                if seg.edited_start == edited_time {
                    proof {
                        assert forall|i: int|
                            0 <= i < self@.len() implies !((#[trigger] self@[i]).edited_start
                            < edited_time < self@[i].edited_end) by {
                            if self@[i].edited_start < edited_time < self@[i].edited_end {
                                lemma_containing_segment_unique(self@, i, idx as int,
                                    edited_time as int);
                            }
                        }
                    }
                    return Err(EditError::InvalidRange);
                }
                let mut v: Vec<Segment> = Vec::new();
                let n = self.segments.len();
                let mut j: usize = 0;
                while j < idx
                    invariant
                        j <= idx,
                        idx < n,
                        n == self@.len(),
                        v@ == self@.subrange(0, j as int),
                    decreases idx - j,
                {
                    v.push(self.segments[j]);
                    proof {
                        assert(v@ =~= self@.subrange(0, j + 1 as int));
                    }
                    j = j + 1;
                }
                let cut = seg.source_start + (edited_time - seg.edited_start);
                v.push(
                    Segment {
                        source_id: seg.source_id,
                        source_start: seg.source_start,
                        source_end: cut,
                        edited_start: seg.edited_start,
                        edited_end: edited_time,
                    },
                );
                v.push(
                    Segment {
                        source_id: seg.source_id,
                        source_start: cut,
                        source_end: seg.source_end,
                        edited_start: edited_time,
                        edited_end: seg.edited_end,
                    },
                );
                let mut k: usize = idx + 1;
                proof {
                    assert(v@ =~= self@.subrange(0, idx as int) + seq![
                        split_left(self@[idx as int], edited_time),
                        split_right(self@[idx as int], edited_time),
                    ] + self@.subrange(idx + 1 as int, idx + 1 as int));
                }
                while k < n
                    invariant
                        idx + 1 <= k <= n,
                        idx < n,
                        n == self@.len(),
                        v@ == self@.subrange(0, idx as int) + seq![
                            split_left(self@[idx as int], edited_time),
                            split_right(self@[idx as int], edited_time),
                        ] + self@.subrange(idx + 1 as int, k as int),
                    decreases n - k,
                {
                    v.push(self.segments[k]);
                    proof {
                        assert(v@ =~= self@.subrange(0, idx as int) + seq![
                            split_left(self@[idx as int], edited_time),
                            split_right(self@[idx as int], edited_time),
                        ] + self@.subrange(idx + 1 as int, k + 1 as int));
                    }
                    k = k + 1;
                }
                let tl = SegmentTimeline { segments: v };
                proof {
                    assert(tl@ =~= split_segments(self@, idx as int, edited_time));
                    lemma_split_preserves_wf(self@, idx as int, edited_time);
                }
                Ok(tl)
            },
        }
    }

    /// Combines two adjacent segments that share a source and whose source
    /// ranges line up into one segment, returning the new timeline. Fails
    /// with `NotAdjacent` when the segments are not neighbours drawing on the
    /// same source, and with `Overlap` when their source ranges do not line
    /// up.
    pub fn merge_adjacent(&self, id_a: usize, id_b: usize) -> (r: Result<
        SegmentTimeline,
        EditError,
    >)
        requires
            self.wf(),
        ensures
            r is Ok <==> mergeable(self@, id_a as int, id_b as int),
            match r {
                Ok(tl) => {
                    &&& tl.wf()
                    &&& total_of(tl@) == total_of(self@)
                    &&& tl@ == merge_segments(self@, id_a as int)
                },
                Err(e) => e == merge_error(self@, id_a as int, id_b as int),
            },
    {
        let n = self.segments.len();
        if !(id_a < n && id_b == id_a + 1 && id_b < n) {
            return Err(EditError::NotAdjacent);
        }
        let a = self.segments[id_a];
        let b = self.segments[id_b];
        if a.source_id != b.source_id {
            return Err(EditError::NotAdjacent);
        }
        if a.source_end != b.source_start {
            return Err(EditError::Overlap);
        }
        let mut v: Vec<Segment> = Vec::new();
        let mut j: usize = 0;
        while j < id_a
            invariant
                j <= id_a,
                id_a < n,
                n == self@.len(),
                v@ == self@.subrange(0, j as int),
            decreases id_a - j,
        {
            v.push(self.segments[j]);
            proof {
                assert(v@ =~= self@.subrange(0, j + 1 as int));
            }
            j = j + 1;
        }
        v.push(
            Segment {
                source_id: a.source_id,
                source_start: a.source_start,
                source_end: b.source_end,
                edited_start: a.edited_start,
                edited_end: b.edited_end,
            },
        );
        let mut k: usize = id_a + 2;
        proof {
            assert(v@ =~= self@.subrange(0, id_a as int) + seq![
                merged_segment(self@[id_a as int], self@[id_a + 1]),
            ] + self@.subrange(id_a + 2 as int, id_a + 2 as int));
        }
        while k < n
            invariant
                id_a + 2 <= k <= n,
                id_a + 1 < n,
                n == self@.len(),
                v@ == self@.subrange(0, id_a as int) + seq![
                    merged_segment(self@[id_a as int], self@[id_a + 1]),
                ] + self@.subrange(id_a + 2 as int, k as int),
            decreases n - k,
        {
            v.push(self.segments[k]);
            proof {
                assert(v@ =~= self@.subrange(0, id_a as int) + seq![
                    merged_segment(self@[id_a as int], self@[id_a + 1]),
                ] + self@.subrange(id_a + 2 as int, k + 1 as int));
            }
            k = k + 1;
        }
        let tl = SegmentTimeline { segments: v };
        proof {
            assert(tl@ =~= merge_segments(self@, id_a as int));
            lemma_merge_preserves_wf(self@, id_a as int);
        }
        Ok(tl)
    }
}

} // verus!
