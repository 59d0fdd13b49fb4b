//! The audio renderer: given an edited-time window and a target output sample
//! rate, produces a PCM buffer by mapping each output sample's edited tick
//! through the timeline to a source tick, resampling the source's decoded
//! audio by linear interpolation, and blending a symmetric linear crossfade
//! across every segment boundary that falls inside the window. A missing
//! source is non-fatal: its region renders as silence and the source is
//! reported once alongside the buffer.

use vstd::arithmetic::div_mod::lemma_div_is_ordered;
use vstd::arithmetic::div_mod::lemma_fundamental_div_mod;
use vstd::arithmetic::div_mod::lemma_mod_bound;
use vstd::arithmetic::div_mod::lemma_div_multiples_vanish;
use vstd::arithmetic::mul::lemma_mul_inequality;
use vstd::arithmetic::mul::lemma_mul_nonnegative;
use vstd::math::abs;
use vstd::prelude::*;

use crate::segments::EditError;
use crate::segments::MAX_TIME_TICKS;
use crate::segments::Segment;
use crate::segments::SegmentTimeline;
use crate::segments::TICKS_PER_SECOND;
use crate::segments::TimeRange;
use crate::segments::lemma_containing_segment_unique;
use crate::segments::lemma_edited_time_covered;
use crate::segments::lemma_segments_ordered;
use crate::segments::lemma_split_preserves_wf;
use crate::segments::split_left;
use crate::segments::split_right;
use crate::segments::split_segments;
use crate::segments::lemma_segment_within_total;
use crate::segments::total_of;
use crate::segments::wf_segments;

verus! {

/// Greatest amplitude of a decoded sample; rendered samples stay within
/// `[-AMP_LIMIT, AMP_LIMIT]`.
pub const AMP_LIMIT: i64 = 32767;

/// Greatest accepted sample rate, in samples per second.
pub const MAX_SAMPLE_RATE: u64 = 1_000_000;

/// Decoded PCM audio of one source, at the source's own sample rate. The
/// surrounding application decodes media into this form; the renderer only
/// reads it.
pub struct AudioSource {
    pub source_id: u64,
    pub sample_rate: u64,
    pub samples: Vec<i64>,
}

impl AudioSource {
    /// The rate is positive and bounded and every sample is within the
    /// amplitude limit.
    pub open spec fn wf(&self) -> bool {
        &&& 1 <= self.sample_rate <= MAX_SAMPLE_RATE
        &&& forall|i: int|
            0 <= i < self.samples@.len() ==> -AMP_LIMIT <= #[trigger] self.samples@[i] <= AMP_LIMIT
    }
}

/// The source with the given id, if it is present.
pub open spec fn source_lookup(srcs: Seq<AudioSource>, id: u64) -> Option<AudioSource> {
    if exists|i: int| 0 <= i < srcs.len() && (#[trigger] srcs[i]).source_id == id {
        Some(srcs[choose|i: int| 0 <= i < srcs.len() && (#[trigger] srcs[i]).source_id == id])
    } else {
        None
    }
}

/// Sample `idx` of a source; silence outside the decoded range.
pub open spec fn sample_of(src: AudioSource, idx: int) -> i64 {
    if 0 <= idx < src.samples@.len() {
        src.samples@[idx]
    } else {
        0
    }
}

/// Linear interpolation from `a` towards `b` by `num / den`, with the
/// division kept non-negative so that specification and execution agree.
pub open spec fn lerp(a: int, b: int, num: int, den: int) -> int {
    if b >= a {
        a + ((b - a) * num) / den
    } else {
        a - ((a - b) * num) / den
    }
}

/// The value of a source's audio at source tick `st`, resampled to tick
/// resolution by linear interpolation between the two neighbouring samples.
/// Silence for a missing source and outside the decoded range.
pub open spec fn source_value_at(src: Option<AudioSource>, st: int) -> int {
    match src {
        Option::None => 0,
        Option::Some(s) => {
            if st < 0 {
                0
            } else {
                let pos = st * s.sample_rate;
                lerp(
                    sample_of(s, pos / (TICKS_PER_SECOND as int)) as int,
                    sample_of(s, pos / (TICKS_PER_SECOND as int) + 1) as int,
                    pos % (TICKS_PER_SECOND as int),
                    TICKS_PER_SECOND as int,
                )
            }
        },
    }
}

/// The value segment `seg` contributes at edited tick `t`. During a
/// crossfade `t` may lie outside the segment: the segment's source mapping is
/// extended linearly in both directions.
pub open spec fn segment_value_at(srcs: Seq<AudioSource>, seg: Segment, t: int) -> int {
    source_value_at(source_lookup(srcs, seg.source_id), seg.source_time_at(t))
}

/// Index of the segment containing edited tick `t` of a well-formed timeline
/// (unique by `lemma_containing_segment_unique`).
pub open spec fn seg_index_at(s: Seq<Segment>, t: int) -> int {
    choose|i: int| 0 <= i < s.len() && (#[trigger] s[i]).edited_start <= t < s[i].edited_end
}

/// The rendered value at edited tick `t` before crossfading: the containing
/// segment's value, silence outside the timeline.
pub open spec fn plain_value_at(s: Seq<Segment>, srcs: Seq<AudioSource>, t: int) -> int {
    if 0 <= t < total_of(s) {
        segment_value_at(srcs, s[seg_index_at(s, t)], t)
    } else {
        0
    }
}

/// Whether edited tick `t` lies in the symmetric fade zone of half-width
/// `half` around boundary tick `tb` (clipped at the start of the timeline).
pub open spec fn in_fade_zone(tb: int, half: int, t: int) -> bool {
    (if tb - half >= 0 {
        tb - half
    } else {
        0
    }) <= t < tb + half
}

/// The first boundary, from segment index `i` on, whose fade zone contains
/// `t`; the result names the segment before the boundary, or is -1 when no
/// boundary's zone contains `t`.
pub open spec fn fade_boundary_from(s: Seq<Segment>, half: int, t: int, i: int) -> int
    decreases s.len() - i,
{
    if i < 0 || i >= s.len() - 1 {
        -1
    } else if in_fade_zone(s[i].edited_end as int, half, t) {
        i
    } else {
        fade_boundary_from(s, half, t, i + 1)
    }
}

/// The rendered value at edited tick `t`: inside a fade zone, a linear
/// crossfade from the segment before the boundary to the segment after it;
/// everywhere else the plain value.
pub open spec fn rendered_value_at(s: Seq<Segment>, srcs: Seq<AudioSource>, half: int, t: int) -> int {
    let i = fade_boundary_from(s, half, t, 0);
    if 0 <= t < total_of(s) && i >= 0 {
        let tb = s[i].edited_end as int;
        let lo = if tb - half >= 0 {
            tb - half
        } else {
            0
        };
        lerp(
            segment_value_at(srcs, s[i], t),
            segment_value_at(srcs, s[i + 1], t),
            t - lo,
            tb + half - lo,
        )
    } else {
        plain_value_at(s, srcs, t)
    }
}

/// Number of output samples for window `[t0, t1)` at `rate` samples per
/// second.
pub open spec fn window_sample_count(t0: int, t1: int, rate: int) -> int {
    ((t1 - t0) * rate) / (TICKS_PER_SECOND as int)
}

/// The edited tick of output sample `k` of a window starting at `t0`.
pub open spec fn sample_tick(t0: int, rate: int, k: int) -> int {
    t0 + (k * (TICKS_PER_SECOND as int)) / rate
}

/// The sources referenced by a segment intersecting window `[t0, t1)` that
/// are not present: these regions render as silence.
pub open spec fn missing_in_window(
    s: Seq<Segment>,
    srcs: Seq<AudioSource>,
    t0: int,
    t1: int,
) -> Set<u64> {
    Set::new(
        |id: u64|
            exists|i: int|
                0 <= i < s.len() && (#[trigger] s[i]).source_id == id && s[i].edited_start < t1
                    && t0 < s[i].edited_end && source_lookup(srcs, id) is None,
    )
}

/// Interpolation stays between its endpoints, and starts exactly at `a`.
pub proof fn lemma_lerp_bounds(a: int, b: int, num: int, den: int)
    requires
        0 <= num < den,
    ensures
        b >= a ==> a <= lerp(a, b, num, den) <= b,
        b < a ==> b <= lerp(a, b, num, den) <= a,
        num == 0 ==> lerp(a, b, num, den) == a,
    {
    let d = if b >= a {
        b - a
    } else {
        a - b
    };
    lemma_mul_nonnegative(d, num);
    lemma_mul_inequality(num, den, d);
    assert(d * num <= d * den);
    lemma_div_is_ordered(0, d * num, den);
    lemma_div_is_ordered(d * num, d * den, den);
    lemma_div_multiples_vanish(d, den);
    assert((d * den) / den == d);
    if num == 0 {
        assert(d * 0 == 0);
    }
}

/// A found fade boundary really is one: the result of `fade_boundary_from`
/// is a boundary index whose zone contains `t`.
pub proof fn lemma_fade_boundary_props(s: Seq<Segment>, half: int, t: int, i: int)
    requires
        fade_boundary_from(s, half, t, i) >= 0,
    ensures
        i <= fade_boundary_from(s, half, t, i) < s.len() - 1,
        in_fade_zone(s[fade_boundary_from(s, half, t, i)].edited_end as int, half, t),
    decreases s.len() - i,
{
    if i < 0 || i >= s.len() - 1 {
    } else if in_fade_zone(s[i].edited_end as int, half, t) {
    } else {
        lemma_fade_boundary_props(s, half, t, i + 1);
    }
}

/// Crossfade continuity: inside a fade zone the rendered amplitude lies
/// between the outgoing segment's amplitude and the incoming segment's
/// amplitude, and at the zone's entry tick it equals the outgoing amplitude
/// exactly. Any change across the zone is therefore bounded by the distance
/// between the two blended signals, which the fade tapers linearly.
pub proof fn lemma_crossfade_continuity(s: Seq<Segment>, srcs: Seq<AudioSource>, half: int, t: int)
    requires
        0 <= t < total_of(s),
        fade_boundary_from(s, half, t, 0) >= 0,
    ensures
        ({
            let i = fade_boundary_from(s, half, t, 0);
            let pre = segment_value_at(srcs, s[i], t);
            let post = segment_value_at(srcs, s[i + 1], t);
            let tb = s[i].edited_end as int;
            let lo = if tb - half >= 0 {
                tb - half
            } else {
                0
            };
            &&& (post >= pre ==> pre <= rendered_value_at(s, srcs, half, t) <= post)
            &&& (post < pre ==> post <= rendered_value_at(s, srcs, half, t) <= pre)
            &&& (t == lo ==> rendered_value_at(s, srcs, half, t) == pre)
            &&& (pre == post ==> rendered_value_at(s, srcs, half, t) == pre)
        }),
{
    let i = fade_boundary_from(s, half, t, 0);
    lemma_fade_boundary_props(s, half, t, 0);
    let tb = s[i].edited_end as int;
    let lo = if tb - half >= 0 {
        tb - half
    } else {
        0
    };
    lemma_lerp_bounds(
        segment_value_at(srcs, s[i], t),
        segment_value_at(srcs, s[i + 1], t),
        t - lo,
        tb + half - lo,
    );
}

/// `den * lerp(a, b, w, den)` differs from the exact blend
/// `a * (den - w) + b * w` by less than `den`: the integer interpolation is
/// the rational one up to rounding.
proof fn lemma_lerp_near_exact(a: int, b: int, w: int, den: int)
    requires
        0 <= w < den,
    ensures
        den * lerp(a, b, w, den) <= a * (den - w) + b * w + (den - 1),
        den * lerp(a, b, w, den) >= a * (den - w) + b * w - (den - 1),
{
    if b >= a {
        let d = b - a;
        lemma_fundamental_div_mod(d * w, den);
        lemma_mod_bound(d * w, den);
        assert(den * (a + (d * w) / den) == den * a + den * ((d * w) / den)) by (nonlinear_arith);
        assert(den * a + d * w == a * (den - w) + b * w) by (nonlinear_arith)
            requires
                d == b - a,
        ;
    } else {
        let d = a - b;
        lemma_fundamental_div_mod(d * w, den);
        lemma_mod_bound(d * w, den);
        assert(den * (a - (d * w) / den) == den * a - den * ((d * w) / den)) by (nonlinear_arith);
        assert(den * a - d * w == a * (den - w) + b * w) by (nonlinear_arith)
            requires
                d == a - b,
        ;
    }
}

/// Moving one step through a blend while its endpoints drift changes the
/// blended value by at most the endpoint drifts plus the blend's own slope
/// `|b0 - a0| / den`, up to two units of rounding.
proof fn lemma_lerp_step(a0: int, b0: int, a1: int, b1: int, w: int, den: int)
    requires
        0 <= w,
        w + 1 < den,
    ensures
        abs(lerp(a1, b1, w + 1, den) - lerp(a0, b0, w, den)) <= abs(a1 - a0) + abs(b1 - b0) + (
        abs(b0 - a0) as int) / den + 2,
{
    let r0 = lerp(a0, b0, w, den);
    let r1 = lerp(a1, b1, w + 1, den);
    lemma_lerp_near_exact(a0, b0, w, den);
    lemma_lerp_near_exact(a1, b1, w + 1, den);
    let e0 = a0 * (den - w) + b0 * w;
    let e1 = a1 * (den - w - 1) + b1 * (w + 1);
    let da = abs(a1 - a0) as int;
    let db = abs(b1 - b0) as int;
    let dd = abs(b0 - a0) as int;
    assert(e1 - e0 == (a1 - a0) * (den - w - 1) + (b1 - b0) * (w + 1) + (b0 - a0))
        by (nonlinear_arith)
        requires
            e0 == a0 * (den - w) + b0 * w,
            e1 == a1 * (den - w - 1) + b1 * (w + 1),
    ;
    assert(-(da * den) <= (a1 - a0) * (den - w - 1) && (a1 - a0) * (den - w - 1) <= da * den)
        by (nonlinear_arith)
        requires
            -da <= a1 - a0 <= da,
            0 <= den - w - 1,
            den - w - 1 <= den,
            0 <= da,
    ;
    assert(-(db * den) <= (b1 - b0) * (w + 1) && (b1 - b0) * (w + 1) <= db * den)
        by (nonlinear_arith)
        requires
            -db <= b1 - b0 <= db,
            0 <= w + 1,
            w + 1 <= den,
            0 <= db,
    ;
    let q = dd / den;
    lemma_fundamental_div_mod(dd, den);
    lemma_mod_bound(dd, den);
    assert(den * (r1 - r0) == den * r1 - den * r0) by (nonlinear_arith);
    assert(den * (r1 - r0) <= da * den + db * den + dd + 2 * den - 2);
    assert(den * (r1 - r0) >= -(da * den + db * den + dd + 2 * den - 2));
    assert(r1 - r0 <= da + db + q + 2) by {
        if r1 - r0 > da + db + q + 2 {
            assert(den * (r1 - r0) >= den * (da + db + q + 3)) by (nonlinear_arith)
                requires
                    r1 - r0 >= da + db + q + 3,
                    den > 0,
            ;
            assert(den * (da + db + q + 3) == da * den + db * den + den * q + 3 * den)
                by (nonlinear_arith);
            assert(false);
        }
    }
    assert(r0 - r1 <= da + db + q + 2) by {
        if r0 - r1 > da + db + q + 2 {
            assert(den * (r1 - r0) <= den * (-(da + db + q + 3))) by (nonlinear_arith)
                requires
                    r1 - r0 <= -(da + db + q + 3),
                    den > 0,
            ;
            assert(den * (-(da + db + q + 3)) == -(da * den + db * den + den * q + 3 * den))
                by (nonlinear_arith);
            assert(false);
        }
    }
}

/// Crossfade continuity, step form: while a fade zone is crossed one tick at
/// a time, the rendered amplitude never jumps by more than the two blended
/// signals' own drift plus the blend's slope `|pre - post| / span`, up to
/// two units of rounding. The fade has no discontinuity of its own.
pub proof fn lemma_crossfade_step_bound(
    s: Seq<Segment>,
    srcs: Seq<AudioSource>,
    half: int,
    t: int,
)
    requires
        0 <= t,
        t + 1 < total_of(s),
        fade_boundary_from(s, half, t, 0) >= 0,
        fade_boundary_from(s, half, t + 1, 0) == fade_boundary_from(s, half, t, 0),
    ensures
        ({
            let i = fade_boundary_from(s, half, t, 0);
            let tb = s[i].edited_end as int;
            let lo = if tb - half >= 0 {
                tb - half
            } else {
                0
            };
            let span = tb + half - lo;
            let pre0 = segment_value_at(srcs, s[i], t);
            let post0 = segment_value_at(srcs, s[i + 1], t);
            let pre1 = segment_value_at(srcs, s[i], t + 1);
            let post1 = segment_value_at(srcs, s[i + 1], t + 1);
            abs(rendered_value_at(s, srcs, half, t + 1) - rendered_value_at(s, srcs, half, t))
                <= abs(pre1 - pre0) + abs(post1 - post0) + (abs(post0 - pre0) as int) / span + 2
        }),
{
    let i = fade_boundary_from(s, half, t, 0);
    lemma_fade_boundary_props(s, half, t, 0);
    lemma_fade_boundary_props(s, half, t + 1, 0);
    let tb = s[i].edited_end as int;
    let lo = if tb - half >= 0 {
        tb - half
    } else {
        0
    };
    let span = tb + half - lo;
    lemma_lerp_step(
        segment_value_at(srcs, s[i], t),
        segment_value_at(srcs, s[i + 1], t),
        segment_value_at(srcs, s[i], t + 1),
        segment_value_at(srcs, s[i + 1], t + 1),
        t - lo,
        span,
    );
}

/// Zones of distinct boundaries never share a tick when every segment lasts
/// at least one full fade length.
proof fn lemma_zones_disjoint(u: Seq<Segment>, half: int, t: int, j1: int, j2: int)
    requires
        wf_segments(u),
        forall|j: int| 0 <= j < u.len() ==> (#[trigger] u[j]).duration() >= 2 * half,
        0 <= j1 < j2 < u.len() - 1,
        in_fade_zone(u[j1].edited_end as int, half, t),
    ensures
        !in_fade_zone(u[j2].edited_end as int, half, t),
{
    lemma_segments_ordered(u, j1, j2);
    assert(u[j2].duration() >= 2 * half);
}

/// `fade_boundary_from` yields the boundary whose zone holds `t` when no
/// earlier boundary's zone does.
proof fn lemma_fbf_finds(u: Seq<Segment>, half: int, t: int, k: int, j: int)
    requires
        0 <= k <= j,
        j < u.len() - 1,
        in_fade_zone(u[j].edited_end as int, half, t),
        forall|m: int| k <= m < j ==> !in_fade_zone((#[trigger] u[m]).edited_end as int, half, t),
    ensures
        fade_boundary_from(u, half, t, k) == j,
    decreases j - k,
{
    if k < j {
        lemma_fbf_finds(u, half, t, k + 1, j);
    }
}

/// `fade_boundary_from` yields -1 when no boundary's zone holds `t`.
proof fn lemma_fbf_none(u: Seq<Segment>, half: int, t: int, k: int)
    requires
        0 <= k,
        forall|m: int|
            k <= m < u.len() - 1 ==> !in_fade_zone((#[trigger] u[m]).edited_end as int, half, t),
    ensures
        fade_boundary_from(u, half, t, k) == -1,
    decreases u.len() - k,
{
    if k < u.len() - 1 {
        lemma_fbf_none(u, half, t, k + 1);
    }
}

/// Both halves of a split segment contribute exactly the value the whole
/// segment contributes, at every tick: the split preserves the source
/// mapping.
proof fn lemma_half_values(s: Seq<Segment>, srcs: Seq<AudioSource>, i: int, cut: u64, u: int)
    requires
        wf_segments(s),
        0 <= i < s.len(),
        s[i].edited_start < cut < s[i].edited_end,
    ensures
        segment_value_at(srcs, split_left(s[i], cut), u) == segment_value_at(srcs, s[i], u),
        segment_value_at(srcs, split_right(s[i], cut), u) == segment_value_at(srcs, s[i], u),
{
    assert(s[i].wf());
    assert(split_right(s[i], cut).source_start == s[i].source_start + (cut
        - s[i].edited_start));
    assert(split_right(s[i], cut).source_time_at(u) == s[i].source_time_at(u));
}

/// A blend of two equal values is that value.
proof fn lemma_lerp_same(a: int, num: int, den: int)
    requires
        den > 0,
    ensures
        lerp(a, a, num, den) == a,
{
    lemma_div_multiples_vanish(0, den);
}

/// Splitting a segment is inaudible: at every edited tick, the timeline with
/// the split renders exactly what the timeline without it renders, crossfade
/// included, provided every fade zone has room (each segment, the two halves
/// included, lasts at least one full fade length).
#[verifier::rlimit(100)]
pub proof fn lemma_split_renders_seamlessly(
    s: Seq<Segment>,
    srcs: Seq<AudioSource>,
    half: int,
    i: int,
    cut: u64,
    t: int,
)
    requires
        wf_segments(s),
        0 <= half,
        0 <= i < s.len(),
        s[i].edited_start < cut < s[i].edited_end,
        forall|j: int| 0 <= j < s.len() ==> (#[trigger] s[j]).duration() >= 2 * half,
        cut - s[i].edited_start >= 2 * half,
        s[i].edited_end - cut >= 2 * half,
    ensures
        rendered_value_at(split_segments(s, i, cut), srcs, half, t) == rendered_value_at(
            s,
            srcs,
            half,
            t,
        ),
{
    let sp = split_segments(s, i, cut);
    lemma_split_preserves_wf(s, i, cut);
    assert(sp[i] == split_left(s[i], cut));
    assert(sp[i + 1] == split_right(s[i], cut));
    assert forall|j: int| 0 <= j < sp.len() implies (#[trigger] sp[j]).duration() >= 2 * half by {
        if j < i {
            assert(sp[j] == s[j]);
        } else if j == i {
        } else if j == i + 1 {
        } else {
            assert(sp[j] == s[j - 1]);
        }
    }
    lemma_half_values(s, srcs, i, cut, t);
    if 0 <= t < total_of(s) {
        if exists|j: int|
            0 <= j < s.len() - 1 && in_fade_zone((#[trigger] s[j]).edited_end as int, half, t) {
            // The tick lies in the zone of an existing boundary: the split
            // timeline has the same boundary, blending the same values.
            let j = choose|j: int|
                0 <= j < s.len() - 1 && in_fade_zone((#[trigger] s[j]).edited_end as int, half, t);
            assert forall|m: int|
                0 <= m < s.len() - 1 && m != j implies !in_fade_zone(
                (#[trigger] s[m]).edited_end as int,
                half,
                t,
            ) by {
                if in_fade_zone(s[m].edited_end as int, half, t) {
                    if m < j {
                        lemma_zones_disjoint(s, half, t, m, j);
                    } else {
                        lemma_zones_disjoint(s, half, t, j, m);
                    }
                }
            }
            lemma_fbf_finds(s, half, t, 0, j);
            let jj = if j < i {
                j
            } else {
                j + 1
            };
            assert(sp[jj].edited_end == s[j].edited_end) by {
                if j < i {
                    assert(sp[j] == s[j]);
                } else if j == i {
                } else {
                    assert(sp[j + 1] == s[j]);
                }
            }
            assert forall|m: int|
                0 <= m < sp.len() - 1 && m != jj implies !in_fade_zone(
                (#[trigger] sp[m]).edited_end as int,
                half,
                t,
            ) by {
                if in_fade_zone(sp[m].edited_end as int, half, t) {
                    if m < jj {
                        lemma_zones_disjoint(sp, half, t, m, jj);
                    } else {
                        lemma_zones_disjoint(sp, half, t, jj, m);
                    }
                }
            }
            lemma_fbf_finds(sp, half, t, 0, jj);
            assert(segment_value_at(srcs, sp[jj], t) == segment_value_at(srcs, s[j], t)) by {
                if j < i {
                    assert(sp[jj] == s[j]);
                } else if j == i {
                    assert(sp[jj] == split_right(s[i], cut));
                } else {
                    assert(sp[jj] == s[j]);
                }
            }
            assert(segment_value_at(srcs, sp[jj + 1], t) == segment_value_at(srcs, s[j + 1], t))
                by {
                if j + 1 < i {
                    assert(sp[jj + 1] == s[j + 1]);
                } else if j + 1 == i {
                    assert(sp[jj + 1] == split_left(s[i], cut));
                } else if j == i {
                    assert(sp[jj + 1] == s[j + 1]);
                } else {
                    assert(sp[jj + 1] == s[j + 1]);
                }
            }
        } else if in_fade_zone(cut as int, half, t) {
            // The tick lies only in the new boundary's zone, where the two
            // halves blend: both carry the original segment's value, so the
            // blend is exactly that value, and so is the plain rendering.
            assert forall|m: int|
                0 <= m < sp.len() - 1 && m != i implies !in_fade_zone(
                (#[trigger] sp[m]).edited_end as int,
                half,
                t,
            ) by {
                if in_fade_zone(sp[m].edited_end as int, half, t) {
                    if m < i {
                        lemma_zones_disjoint(sp, half, t, m, i);
                    } else {
                        lemma_zones_disjoint(sp, half, t, i, m);
                    }
                }
            }
            assert(sp[i].edited_end == cut);
            lemma_fbf_finds(sp, half, t, 0, i);
            lemma_fbf_none(s, half, t, 0);
            let tb = cut as int;
            let lo = if tb - half >= 0 {
                tb - half
            } else {
                0
            };
            lemma_lerp_same(segment_value_at(srcs, s[i], t), t - lo, tb + half - lo);
            // The zone lies strictly inside the original segment.
            assert(s[i].edited_start <= t < s[i].edited_end);
            assert(exists|c: int|
                0 <= c < s.len() && (#[trigger] s[c]).edited_start <= t < s[c].edited_end);
            lemma_containing_segment_unique(s, seg_index_at(s, t), i, t);
        } else {
            // No zone holds the tick: both timelines render plainly, through
            // the same source mapping.
            lemma_fbf_none(s, half, t, 0);
            assert forall|m: int|
                0 <= m < sp.len() - 1 implies !in_fade_zone(
                (#[trigger] sp[m]).edited_end as int,
                half,
                t,
            ) by {
                if m < i {
                    assert(sp[m] == s[m]);
                } else if m == i {
                    assert(sp[m].edited_end == cut);
                } else if m == i + 1 {
                    assert(sp[m].edited_end == s[i].edited_end);
                } else {
                    assert(sp[m] == s[m - 1]);
                }
            }
            lemma_fbf_none(sp, half, t, 0);
            lemma_edited_time_covered(s, t);
            let c = seg_index_at(s, t);
            assert(0 <= c < s.len() && s[c].edited_start <= t < s[c].edited_end);
            let cc = if c < i {
                c
            } else if c > i {
                c + 1
            } else if t < cut {
                i
            } else {
                i + 1
            };
            assert(sp[cc].edited_start <= t < sp[cc].edited_end && segment_value_at(srcs, sp[cc], t)
                == segment_value_at(srcs, s[c], t)) by {
                if c < i {
                    assert(sp[cc] == s[c]);
                } else if c > i {
                    assert(sp[cc] == s[c]);
                }
            }
            assert(exists|m: int|
                0 <= m < sp.len() && (#[trigger] sp[m]).edited_start <= t < sp[m].edited_end);
            lemma_containing_segment_unique(sp, seg_index_at(sp, t), cc, t);
        }
    } else {
        assert(total_of(sp) == total_of(s));
    }
}

/// Rendering is a pure function of the timeline snapshot, the decoded
/// sources, the fade configuration and the window: two renderings of the
/// same window against the same snapshot are identical, sample for sample.
pub proof fn lemma_render_deterministic(
    x: Seq<i64>,
    y: Seq<i64>,
    s: Seq<Segment>,
    srcs: Seq<AudioSource>,
    half: int,
    t0: int,
    t1: int,
    rate: int,
)
    requires
        x.len() == window_sample_count(t0, t1, rate),
        y.len() == window_sample_count(t0, t1, rate),
        forall|k: int|
            0 <= k < x.len() ==> #[trigger] x[k] == rendered_value_at(
                s,
                srcs,
                half,
                sample_tick(t0, rate, k),
            ),
        forall|k: int|
            0 <= k < y.len() ==> #[trigger] y[k] == rendered_value_at(
                s,
                srcs,
                half,
                sample_tick(t0, rate, k),
            ),
    ensures
        x == y,
{
    assert(x =~= y);
}

/// A rendered buffer together with the sources that could not be resolved;
/// their regions were rendered as silence, and the failure is reported
/// alongside the buffer (`SourceUnavailable` is non-fatal).
pub struct RenderOutput {
    pub samples: Vec<i64>,
    pub missing_sources: Vec<u64>,
    pub error: Option<EditError>,
}

/// Renders mixed, resampled, crossfaded PCM for edited-time windows against a
/// timeline snapshot, reading decoded source audio handed in by the
/// surrounding application.
pub struct AudioRenderer {
    /// Decoded audio per source.
    pub sources: Vec<AudioSource>,
    /// Total length of the crossfade applied across each segment boundary,
    /// in ticks; a configurable, small value.
    pub fade_len: u64,
}

impl AudioRenderer {
    /// Sources are well formed with distinct ids, and the fade is at most one
    /// second.
    pub open spec fn wf(&self) -> bool {
        &&& forall|i: int| 0 <= i < self.sources@.len() ==> (#[trigger] self.sources@[i]).wf()
        &&& forall|i: int, j: int|
            0 <= i < self.sources@.len() && 0 <= j < self.sources@.len() && (
            #[trigger] self.sources@[i]).source_id == (#[trigger] self.sources@[j]).source_id ==> i
                == j
        &&& self.fade_len <= TICKS_PER_SECOND
    }

    /// Half-width of the fade zone each boundary gets.
    pub open spec fn fade_half(&self) -> int {
        (self.fade_len / 2) as int
    }

    /// A renderer over the given decoded sources.
    pub fn new(sources: Vec<AudioSource>, fade_len: u64) -> (r: AudioRenderer)
        requires
            forall|i: int| 0 <= i < sources@.len() ==> (#[trigger] sources@[i]).wf(),
            forall|i: int, j: int|
                0 <= i < sources@.len() && 0 <= j < sources@.len() && (
                #[trigger] sources@[i]).source_id == (#[trigger] sources@[j]).source_id ==> i == j,
            fade_len <= TICKS_PER_SECOND,
        ensures
            r.wf(),
            r.sources@ == sources@,
            r.fade_len == fade_len,
    {
        AudioRenderer { sources, fade_len }
    }

    /// Finds the source with the given id.
    fn find_source(&self, id: u64) -> (r: Option<usize>)
        requires
            self.wf(),
        ensures
            match r {
                Some(i) => i < self.sources@.len() && self.sources@[i as int].source_id == id
                    && source_lookup(self.sources@, id) == Some(self.sources@[i as int]),
                None => source_lookup(self.sources@, id) is None,
            },
    {
        let n = self.sources.len();
        let mut i: usize = 0;
        while i < n
            invariant
                self.wf(),
                n == self.sources@.len(),
                i <= n,
                forall|j: int| 0 <= j < i ==> (#[trigger] self.sources@[j]).source_id != id,
            decreases n - i,
        {
            if self.sources[i].source_id == id {
                proof {
                    let w = choose|j: int|
                        0 <= j < self.sources@.len() && (#[trigger] self.sources@[j]).source_id
                            == id;
                    assert(self.sources@[w].source_id == id);
                }
                return Some(i);
            }
            i = i + 1;
        }
        proof {
            if exists|j: int|
                0 <= j < self.sources@.len() && (#[trigger] self.sources@[j]).source_id == id {
                let w = choose|j: int|
                    0 <= j < self.sources@.len() && (#[trigger] self.sources@[j]).source_id == id;
                assert(self.sources@[w].source_id != id);
            }
        }
        None
    }
}

/// Executable linear interpolation; agrees with `lerp` and stays between its
/// endpoints.
fn lerp_exec(a: i64, b: i64, num: u64, den: u64) -> (v: i64)
    requires
        -AMP_LIMIT <= a <= AMP_LIMIT,
        -AMP_LIMIT <= b <= AMP_LIMIT,
        num < den,
        den <= TICKS_PER_SECOND,
    ensures
        v == lerp(a as int, b as int, num as int, den as int),
        -AMP_LIMIT <= v <= AMP_LIMIT,
{
    proof {
        lemma_lerp_bounds(a as int, b as int, num as int, den as int);
    }
    if b >= a {
        let d = (b - a) as u64;
        proof {
            assert(d * num <= 65534 * 1_000_000) by (nonlinear_arith)
                requires
                    d <= 65534,
                    num <= 1_000_000,
            ;
        }
        let q = (d * num) / den;
        a + (q as i64)
    } else {
        let d = (a - b) as u64;
        proof {
            assert(d * num <= 65534 * 1_000_000) by (nonlinear_arith)
                requires
                    d <= 65534,
                    num <= 1_000_000,
            ;
        }
        let q = (d * num) / den;
        a - (q as i64)
    }
}

impl AudioRenderer {
    /// The value of the source with the given id at non-negative source tick
    /// `st`, resampled by linear interpolation; silence when the source is
    /// missing.
    fn source_value(&self, id: u64, st: u64) -> (v: i64)
        requires
            self.wf(),
            st <= 3 * MAX_TIME_TICKS,
        ensures
            v == source_value_at(source_lookup(self.sources@, id), st as int),
            -AMP_LIMIT <= v <= AMP_LIMIT,
    {
        let found = self.find_source(id);
        match found {
            None => 0,
            Some(si) => {
                let src = &self.sources[si];
                proof {
                    assert(st * src.sample_rate <= 3 * MAX_TIME_TICKS * MAX_SAMPLE_RATE)
                        by (nonlinear_arith)
                        requires
                            st <= 3 * MAX_TIME_TICKS,
                            src.sample_rate <= MAX_SAMPLE_RATE,
                    ;
                }
                let pos = st * src.sample_rate;
                let idx = pos / TICKS_PER_SECOND;
                let num = pos % TICKS_PER_SECOND;
                let n = src.samples.len();
                let a = if idx < n as u64 {
                    src.samples[idx as usize]
                } else {
                    0
                };
                let b = if idx + 1 < n as u64 {
                    src.samples[(idx + 1) as usize]
                } else {
                    0
                };
                lerp_exec(a, b, num, TICKS_PER_SECOND)
            },
        }
    }

    /// The value segment `seg` contributes at edited tick `t`, extending the
    /// segment's source mapping in both directions for crossfades.
    fn segment_value(&self, seg: Segment, t: u64) -> (v: i64)
        requires
            self.wf(),
            seg.wf(),
            t <= 2 * MAX_TIME_TICKS,
        ensures
            v == segment_value_at(self.sources@, seg, t as int),
            -AMP_LIMIT <= v <= AMP_LIMIT,
    {
        if seg.source_start + t >= seg.edited_start {
            let st = seg.source_start + t - seg.edited_start;
            self.source_value(seg.source_id, st)
        } else {
            proof {
                assert(source_value_at(
                    source_lookup(self.sources@, seg.source_id),
                    seg.source_time_at(t as int),
                ) == 0);
            }
            0
        }
    }

    /// The rendered value at edited tick `t` against a timeline snapshot:
    /// silence outside the timeline, a crossfade inside a boundary's fade
    /// zone, the containing segment's value elsewhere.
    fn sample_at(&self, timeline: &SegmentTimeline, t: u64) -> (v: i64)
        requires
            self.wf(),
            timeline.wf(),
        ensures
            v == rendered_value_at(timeline@, self.sources@, self.fade_half(), t as int),
            -AMP_LIMIT <= v <= AMP_LIMIT,
    {
        let total = timeline.total_duration();
        if t >= total {
            return 0;
        }
        let half = self.fade_len / 2;
        let n = timeline.segments.len();
        let ghost s = timeline@;
        let ghost hf = self.fade_half();
        let mut i: usize = 0;
        let mut boundary: Option<usize> = None;
        while i < n - 1 && boundary.is_none()
            invariant
                self.wf(),
                timeline.wf(),
                n == s.len(),
                0 < n,
                s == timeline@,
                hf == half as int,
                half <= TICKS_PER_SECOND,
                i < n,
                boundary is None ==> fade_boundary_from(s, hf, t as int, 0) == fade_boundary_from(
                    s,
                    hf,
                    t as int,
                    i as int,
                ),
                match boundary {
                    Some(bi) => bi == fade_boundary_from(s, hf, t as int, 0) && bi + 1 < n,
                    None => true,
                },
            decreases n - i, (if boundary is None {
                1int
            } else {
                0int
            }),
        {
            proof {
                assert(s[i as int].wf());
            }
            let tb = timeline.segments[i].edited_end;
            let lo = if tb >= half {
                tb - half
            } else {
                0
            };
            if lo <= t && t < tb + half {
                proof {
                    assert(in_fade_zone(tb as int, hf, t as int));
                    assert(fade_boundary_from(s, hf, t as int, i as int) == i);
                }
                boundary = Some(i);
            } else {
                proof {
                    assert(!in_fade_zone(tb as int, hf, t as int));
                    assert(fade_boundary_from(s, hf, t as int, i as int) == fade_boundary_from(
                        s,
                        hf,
                        t as int,
                        i + 1,
                    ));
                }
                i = i + 1;
            }
        }
        match boundary {
            Some(bi) => {
                proof {
                    lemma_fade_boundary_props(s, hf, t as int, 0);
                    lemma_segment_within_total(s, bi as int);
                    lemma_segment_within_total(s, bi + 1);
                }
                let tb = timeline.segments[bi].edited_end;
                let lo = if tb >= half {
                    tb - half
                } else {
                    0
                };
                let pre = self.segment_value(timeline.segments[bi], t);
                let post = self.segment_value(timeline.segments[bi + 1], t);
                lerp_exec(pre, post, t - lo, tb + half - lo)
            },
            None => {
                proof {
                    if fade_boundary_from(s, hf, t as int, 0) >= 0 {
                        lemma_fade_boundary_props(s, hf, t as int, 0);
                    }
                }
                let located = timeline.map(t);
                match located {
                    Ok((idx, st)) => {
                        proof {
                            lemma_containing_segment_unique(
                                s,
                                idx as int,
                                seg_index_at(s, t as int),
                                t as int,
                            );
                            lemma_segment_within_total(s, idx as int);
                        }
                        self.source_value(self.segments_id(timeline, idx), st)
                    },
                    Err(_) => 0,
                }
            },
        }
    }

    /// The source id of segment `idx` of a snapshot.
    fn segments_id(&self, timeline: &SegmentTimeline, idx: usize) -> (r: u64)
        requires
            idx < timeline@.len(),
        ensures
            r == timeline@[idx as int].source_id,
    {
        timeline.segments[idx].source_id
    }

    /// Renders the edited-time window `[window.start, window.end)` against a
    /// timeline snapshot at `rate` samples per second: a PCM buffer of
    /// exactly the window's duration, every sample the crossfaded, resampled
    /// value of its edited tick, together with the sources intersecting the
    /// window that could not be resolved, each reported once; their regions
    /// are rendered as silence.
    #[verifier::rlimit(80)]
    pub fn render_audio_window(
        &self,
        timeline: &SegmentTimeline,
        window: TimeRange,
        rate: u64,
    ) -> (r: RenderOutput)
        requires
            self.wf(),
            timeline.wf(),
            window.start <= window.end <= MAX_TIME_TICKS,
            1 <= rate <= MAX_SAMPLE_RATE,
        ensures
            r.samples@.len() == window_sample_count(
                window.start as int,
                window.end as int,
                rate as int,
            ),
            forall|k: int|
                0 <= k < r.samples@.len() ==> #[trigger] r.samples@[k] == rendered_value_at(
                    timeline@,
                    self.sources@,
                    self.fade_half(),
                    sample_tick(window.start as int, rate as int, k),
                ),
            forall|k: int|
                0 <= k < r.samples@.len() ==> -AMP_LIMIT <= #[trigger] r.samples@[k] <= AMP_LIMIT,
            r.missing_sources@.no_duplicates(),
            forall|id: u64|
                #[trigger] r.missing_sources@.contains(id) <==> missing_in_window(
                    timeline@,
                    self.sources@,
                    window.start as int,
                    window.end as int,
                ).contains(id),
            r.error == if r.missing_sources@.len() > 0 {
                Some(EditError::SourceUnavailable)
            } else {
                None::<EditError>
            },
    {
        let t0 = window.start;
        let t1 = window.end;
        proof {
            assert((t1 - t0) * rate <= MAX_TIME_TICKS * MAX_SAMPLE_RATE) by (nonlinear_arith)
                requires
                    0 <= t1 - t0 <= MAX_TIME_TICKS,
                    0 <= rate <= MAX_SAMPLE_RATE,
            ;
        }
        let n = ((t1 - t0) * rate) / TICKS_PER_SECOND;
        proof {
            lemma_div_is_ordered(
                (t1 - t0) as int * rate as int,
                MAX_TIME_TICKS as int * MAX_SAMPLE_RATE as int,
                TICKS_PER_SECOND as int,
            );
            lemma_div_multiples_vanish(MAX_TIME_TICKS as int, TICKS_PER_SECOND as int);
        }
        let mut samples: Vec<i64> = Vec::new();
        let mut k: u64 = 0;
        while k < n
            invariant
                self.wf(),
                timeline.wf(),
                t0 == window.start,
                t1 == window.end,
                t0 <= t1 <= MAX_TIME_TICKS,
                1 <= rate <= MAX_SAMPLE_RATE,
                n == window_sample_count(t0 as int, t1 as int, rate as int),
                n <= MAX_TIME_TICKS,
                k <= n,
                samples@.len() == k,
                forall|j: int|
                    0 <= j < k ==> #[trigger] samples@[j] == rendered_value_at(
                        timeline@,
                        self.sources@,
                        self.fade_half(),
                        sample_tick(t0 as int, rate as int, j),
                    ),
                forall|j: int| 0 <= j < k ==> -AMP_LIMIT <= #[trigger] samples@[j] <= AMP_LIMIT,
            decreases n - k,
        {
            proof {
                assert(k * TICKS_PER_SECOND <= MAX_TIME_TICKS * TICKS_PER_SECOND)
                    by (nonlinear_arith)
                    requires
                        0 <= k <= MAX_TIME_TICKS,
                ;
            }
            let et = t0 + (k * TICKS_PER_SECOND) / rate;
            let v = self.sample_at(timeline, et);
            samples.push(v);
            k = k + 1;
        }
        let mut missing: Vec<u64> = Vec::new();
        let segs_n = timeline.segments.len();
        let ghost mset = missing_in_window(timeline@, self.sources@, t0 as int, t1 as int);
        let mut i: usize = 0;
        while i < segs_n
            invariant
                self.wf(),
                timeline.wf(),
                segs_n == timeline@.len(),
                t0 == window.start,
                t1 == window.end,
                mset == missing_in_window(timeline@, self.sources@, t0 as int, t1 as int),
                i <= segs_n,
                missing@.no_duplicates(),
                forall|id: u64| #[trigger] missing@.contains(id) ==> mset.contains(id),
                forall|j: int|
                    0 <= j < i && (#[trigger] timeline@[j]).edited_start < t1 && t0
                        < timeline@[j].edited_end && source_lookup(
                        self.sources@,
                        timeline@[j].source_id,
                    ) is None ==> missing@.contains(timeline@[j].source_id),
            decreases segs_n - i,
        {
            let seg = timeline.segments[i];
            proof {
                assert(seg == timeline@[i as int]);
            }
            if seg.edited_start < t1 && t0 < seg.edited_end {
                let f = self.find_source(seg.source_id);
                if f.is_none() {
                    if !vec_contains(&missing, seg.source_id) {
                        let ghost before = missing@;
                        missing.push(seg.source_id);
                        proof {
                            let new_m = missing@;
                            assert(new_m == before.push(seg.source_id));
                            assert forall|p: int, q: int|
                                0 <= p < q < new_m.len() implies new_m[p] != new_m[q] by {
                                if q < before.len() {
                                } else {
                                    assert(new_m[q] == seg.source_id);
                                    assert(new_m[p] == before[p]);
                                    assert(!before.contains(seg.source_id));
                                }
                            }
                            assert(new_m.no_duplicates());
                            assert(timeline@[i as int].source_id == seg.source_id
                                && timeline@[i as int].edited_start < t1 && t0
                                < timeline@[i as int].edited_end && source_lookup(
                                self.sources@,
                                seg.source_id,
                            ) is None);
                            assert(mset.contains(seg.source_id));
                            assert forall|id: u64| #[trigger] new_m.contains(id) implies
                                mset.contains(id) by {
                                let w = choose|w: int|
                                    0 <= w < new_m.len() && new_m[w] == id;
                                if w < before.len() {
                                    assert(before[w] == id);
                                    assert(before.contains(id));
                                } else {
                                    assert(id == seg.source_id);
                                }
                            }
                            assert forall|j: int|
                                0 <= j < i + 1 && (#[trigger] timeline@[j]).edited_start < t1
                                    && t0 < timeline@[j].edited_end && source_lookup(
                                    self.sources@,
                                    timeline@[j].source_id,
                                ) is None implies new_m.contains(timeline@[j].source_id) by {
                                if j < i {
                                    assert(before.contains(timeline@[j].source_id));
                                    let w = choose|w: int|
                                        0 <= w < before.len() && before[w] == timeline@[
                                        j].source_id;
                                    assert(new_m[w] == timeline@[j].source_id);
                                } else {
                                    assert(new_m[new_m.len() - 1] == seg.source_id);
                                }
                            }
                        }
                    } else {
                        proof {
                            assert(missing@.contains(seg.source_id));
                        }
                    }
                }
            }
            i = i + 1;
        }
        proof {
            assert forall|id: u64| #[trigger] missing@.contains(id) <==> mset.contains(id) by {
                if mset.contains(id) {
                    let j = choose|j: int|
                        0 <= j < timeline@.len() && (#[trigger] timeline@[j]).source_id == id
                            && timeline@[j].edited_start < t1 && t0 < timeline@[j].edited_end
                            && source_lookup(self.sources@, id) is None;
                    assert(missing@.contains(timeline@[j].source_id));
                }
            }
        }
        let error = if missing.len() > 0 {
            Some(EditError::SourceUnavailable)
        } else {
            None
        };
        RenderOutput { samples, missing_sources: missing, error }
    }
}

/// Membership test on a plain id vector.
fn vec_contains(v: &Vec<u64>, x: u64) -> (b: bool)
    ensures
        b == v@.contains(x),
{
    let n = v.len();
    let mut i: usize = 0;
    while i < n
        invariant
            n == v@.len(),
            i <= n,
            forall|j: int| 0 <= j < i ==> v@[j] != x,
        decreases n - i,
    {
        if v[i] == x {
            proof {
                assert(v@[i as int] == x);
            }
            return true;
        }
        i = i + 1;
    }
    proof {
        assert(!v@.contains(x));
    }
    false
}

} // verus!
