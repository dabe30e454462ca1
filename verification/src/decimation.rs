//! Incremental min/max aggregation for plot decimation.
//!
//! One level of pre-aggregation over the raw sample buffer: consecutive
//! samples are grouped into buckets of [`BUCKET_SAMPLES`], each holding
//! min/max summaries for every [`Channel`]. Appends fold into the trailing
//! bucket; front evictions drop whole buckets once all of their samples are
//! gone. A full-range decimation then walks the summaries instead of every
//! sample.

use std::collections::VecDeque;
use vstd::prelude::*;

use crate::float::{F32, INFINITY_BITS, NAN_BITS, NEG_INFINITY_BITS};

verus! {

/// Samples covered by one sealed bucket.
pub const BUCKET_SAMPLES: usize = 256;

/// Number of channels that a bucket summarizes.
pub const CHANNEL_COUNT: usize = 6;

/// The part of a sample that is scanned while plotting.
#[derive(Debug, Clone, Copy, PartialEq, Eq, Structural)]
pub struct PlotSample {
    pub timestamp_ms: u64,
    pub voltage_v: F32,
    pub current_a: F32,
    pub power_w: F32,
    pub dp_v: F32,
    pub dn_v: F32,
    pub temp_c: F32,
}

/// One point of a plotted line. The x coordinate is the timestamp.
#[derive(Debug, Clone, Copy, PartialEq, Eq, Structural)]
pub struct PlotPoint {
    pub timestamp_ms: u64,
    pub value: F32,
}

/// Per-sample channels that the pyramid summarizes.
#[derive(Debug, Clone, Copy, PartialEq, Eq, Structural)]
pub enum Channel {
    Voltage,
    Current,
    Power,
    Temp,
    Dp,
    Dn,
}

impl Channel {
    /// The channel's value in a sample.
    pub open spec fn value(self, sample: PlotSample) -> F32 {
        match self {
            Channel::Voltage => sample.voltage_v,
            Channel::Current => sample.current_a,
            Channel::Power => sample.power_w,
            Channel::Temp => sample.temp_c,
            Channel::Dp => sample.dp_v,
            Channel::Dn => sample.dn_v,
        }
    }

    /// The channel's place among the summaries of a bucket.
    pub open spec fn slot(self) -> int {
        match self {
            Channel::Voltage => 0,
            Channel::Current => 1,
            Channel::Power => 2,
            Channel::Temp => 3,
            Channel::Dp => 4,
            Channel::Dn => 5,
        }
    }

    /// Every channel, each at its own slot.
    pub fn all() -> (r: [Channel; 6])
        ensures
            forall|i: int| 0 <= i < 6 ==> (#[trigger] r@[i]).slot() == i,
    {
        [
            Channel::Voltage,
            Channel::Current,
            Channel::Power,
            Channel::Temp,
            Channel::Dp,
            Channel::Dn,
        ]
    }

    /// Read this channel's value from a sample.
    pub fn extract(self, sample: &PlotSample) -> (r: F32)
        ensures
            r == self.value(*sample),
    {
        match self {
            Channel::Voltage => sample.voltage_v,
            Channel::Current => sample.current_a,
            Channel::Power => sample.power_w,
            Channel::Temp => sample.temp_c,
            Channel::Dp => sample.dp_v,
            Channel::Dn => sample.dn_v,
        }
    }

    /// The channel's place among the summaries of a bucket.
    pub fn index(self) -> (r: usize)
        ensures
            r == self.slot(),
            r < CHANNEL_COUNT,
    {
        match self {
            Channel::Voltage => 0,
            Channel::Current => 1,
            Channel::Power => 2,
            Channel::Temp => 3,
            Channel::Dp => 4,
            Channel::Dn => 5,
        }
    }
}

/// Min/max of a set of samples, with the timestamps where they occur.
///
/// Ties keep the first occurrence.
#[derive(Debug, Clone, Copy, PartialEq, Eq, Structural)]
pub struct MinMax {
    pub min: F32,
    pub max: F32,
    pub min_ts_ms: u64,
    pub max_ts_ms: u64,
    /// `false` while every sample seen was NaN (a gap in the data).
    pub any: bool,
}

impl MinMax {
    /// The summary of no samples.
    pub open spec fn none() -> MinMax {
        MinMax {
            min: F32 { bits: 0 },
            max: F32 { bits: 0 },
            min_ts_ms: 0,
            max_ts_ms: 0,
            any: false,
        }
    }

    /// Whether the extremes, where there are any, are numbers.
    pub open spec fn wf(self) -> bool {
        self.any ==> !self.min.nan() && !self.max.nan()
    }

    /// This summary with one more value: a NaN changes nothing, the first
    /// number is both extremes, and a later one must be strictly beyond.
    pub open spec fn added(self, value: F32, ts_ms: u64) -> MinMax {
        if value.nan() {
            self
        } else if !self.any {
            MinMax { min: value, max: value, min_ts_ms: ts_ms, max_ts_ms: ts_ms, any: true }
        } else {
            let lower = value.below(self.min);
            let higher = self.max.below(value);
            MinMax {
                min: if lower { value } else { self.min },
                min_ts_ms: if lower { ts_ms } else { self.min_ts_ms },
                max: if higher { value } else { self.max },
                max_ts_ms: if higher { ts_ms } else { self.max_ts_ms },
                any: true,
            }
        }
    }

    /// This summary followed by that of later samples.
    pub open spec fn merged(self, later: MinMax) -> MinMax {
        if !later.any {
            self
        } else if !self.any {
            later
        } else {
            let lower = later.min.below(self.min);
            let higher = self.max.below(later.max);
            MinMax {
                min: if lower { later.min } else { self.min },
                min_ts_ms: if lower { later.min_ts_ms } else { self.min_ts_ms },
                max: if higher { later.max } else { self.max },
                max_ts_ms: if higher { later.max_ts_ms } else { self.max_ts_ms },
                any: true,
            }
        }
    }

    /// The summary of `channel` over `samples`, front to back.
    pub open spec fn of(samples: Seq<PlotSample>, channel: Channel) -> MinMax
        decreases samples.len(),
    {
        if samples.len() == 0 {
            MinMax::none()
        } else {
            MinMax::of(samples.drop_last(), channel).added(
                channel.value(samples.last()),
                samples.last().timestamp_ms,
            )
        }
    }

    /// The extremes as a pair, or the empty interval where there are none.
    pub open spec fn interval(self) -> (F32, F32) {
        if self.any {
            (self.min, self.max)
        } else {
            (F32 { bits: INFINITY_BITS }, F32 { bits: NEG_INFINITY_BITS })
        }
    }

    /// The summary of no samples.
    pub fn empty() -> (r: MinMax)
        ensures
            r == MinMax::none(),
    {
        MinMax {
            min: F32 { bits: 0 },
            max: F32 { bits: 0 },
            min_ts_ms: 0,
            max_ts_ms: 0,
            any: false,
        }
    }

    /// Fold one value in.
    pub fn add(&mut self, value: F32, ts_ms: u64)
        ensures
            *final(self) == old(self).added(value, ts_ms),
    {
        if value.is_nan() {
            return;
        }
        if self.any {
            if value.is_below(self.min) {
                self.min = value;
                self.min_ts_ms = ts_ms;
            }
            if self.max.is_below(value) {
                self.max = value;
                self.max_ts_ms = ts_ms;
            }
        } else {
            *self = MinMax {
                min: value,
                max: value,
                min_ts_ms: ts_ms,
                max_ts_ms: ts_ms,
                any: true,
            };
        }
    }

    /// Fold the summary of later samples in.
    pub fn merge(&mut self, other: &MinMax)
        ensures
            *final(self) == old(self).merged(*other),
    {
        if !other.any {
            return;
        }
        if !self.any {
            *self = *other;
            return;
        }
        if other.min.is_below(self.min) {
            self.min = other.min;
            self.min_ts_ms = other.min_ts_ms;
        }
        if self.max.is_below(other.max) {
            self.max = other.max;
            self.max_ts_ms = other.max_ts_ms;
        }
    }

    /// The `(lo, hi)` pair in the shape [`emit_bucket`] expects.
    pub fn fold_pair(&self) -> (r: (F32, F32))
        ensures
            r == self.interval(),
    {
        if self.any {
            (self.min, self.max)
        } else {
            (F32 { bits: INFINITY_BITS }, F32 { bits: NEG_INFINITY_BITS })
        }
    }
}

/// Summary law: a summary's extremes are numbers.
pub proof fn summary_is_wf(samples: Seq<PlotSample>, channel: Channel)
    ensures
        MinMax::of(samples, channel).wf(),
    decreases samples.len(),
{
    if samples.len() > 0 {
        summary_is_wf(samples.drop_last(), channel);
    }
}

/// Summary law: merging the summaries of two adjacent runs gives the summary
/// of both together, timestamps included.
pub proof fn summary_of_concatenation(a: Seq<PlotSample>, b: Seq<PlotSample>, channel: Channel)
    ensures
        MinMax::of(a + b, channel) == MinMax::of(a, channel).merged(MinMax::of(b, channel)),
    decreases b.len(),
{
    if b.len() == 0 {
        assert(a + b =~= a);
    } else {
        summary_of_concatenation(a, b.drop_last(), channel);
        summary_is_wf(a, channel);
        summary_is_wf(b.drop_last(), channel);
        assert((a + b).drop_last() =~= a + b.drop_last());
        assert((a + b).last() == b.last());
    }
}

/// Sample `i` holds the first occurrence of the least number of `channel`.
pub open spec fn is_first_least(samples: Seq<PlotSample>, channel: Channel, i: int) -> bool {
    &&& 0 <= i < samples.len()
    &&& !channel.value(samples[i]).nan()
    &&& forall|j: int|
        0 <= j < samples.len() ==> !channel.value(#[trigger] samples[j]).below(
            channel.value(samples[i]),
        )
    &&& forall|j: int|
        0 <= j < i && !channel.value(#[trigger] samples[j]).nan() ==> channel.value(
            samples[i],
        ).below(channel.value(samples[j]))
}

/// Sample `i` holds the first occurrence of the greatest number of `channel`.
pub open spec fn is_first_greatest(samples: Seq<PlotSample>, channel: Channel, i: int) -> bool {
    &&& 0 <= i < samples.len()
    &&& !channel.value(samples[i]).nan()
    &&& forall|j: int|
        0 <= j < samples.len() ==> !channel.value(samples[i]).below(
            channel.value(#[trigger] samples[j]),
        )
    &&& forall|j: int|
        0 <= j < i && !channel.value(#[trigger] samples[j]).nan() ==> channel.value(
            samples[j],
        ).below(channel.value(samples[i]))
}

/// Summary law: there are extremes exactly where some sample is not NaN.
pub proof fn summary_is_empty_iff_all_nan(samples: Seq<PlotSample>, channel: Channel)
    ensures
        MinMax::of(samples, channel).any <==> exists|i: int|
            0 <= i < samples.len() && !channel.value(#[trigger] samples[i]).nan(),
    decreases samples.len(),
{
    if samples.len() > 0 {
        let init = samples.drop_last();
        summary_is_empty_iff_all_nan(init, channel);
        if MinMax::of(init, channel).any {
            let i = choose|i: int| 0 <= i < init.len() && !channel.value(#[trigger] init[i]).nan();
            assert(samples[i] == init[i]);
        } else if channel.value(samples.last()).nan() {
            assert forall|i: int| 0 <= i < samples.len() implies channel.value(
                #[trigger] samples[i],
            ).nan() by {
                if i < init.len() {
                    assert(samples[i] == init[i]);
                }
            }
        }
    }
}

/// Summary law: the extremes are the first occurrences of the least and of
/// the greatest number, with the timestamps of the samples that hold them.
pub proof fn summary_extremes_are_first_occurrences(
    samples: Seq<PlotSample>,
    channel: Channel,
) -> (at: (int, int))
    requires
        MinMax::of(samples, channel).any,
    ensures
        is_first_least(samples, channel, at.0),
        channel.value(samples[at.0]) == MinMax::of(samples, channel).min,
        samples[at.0].timestamp_ms == MinMax::of(samples, channel).min_ts_ms,
        is_first_greatest(samples, channel, at.1),
        channel.value(samples[at.1]) == MinMax::of(samples, channel).max,
        samples[at.1].timestamp_ms == MinMax::of(samples, channel).max_ts_ms,
    decreases samples.len(),
{
    let init = samples.drop_last();
    let n = init.len() as int;
    let before = MinMax::of(init, channel);
    let last = channel.value(samples[n]);
    if before.any {
        let (i, k) = summary_extremes_are_first_occurrences(init, channel);
        assert forall|j: int| 0 <= j < n implies #[trigger] samples[j] == init[j] by {}
        (
            if last.below(before.min) {
                n
            } else {
                i
            },
            if before.max.below(last) {
                n
            } else {
                k
            },
        )
    } else {
        summary_is_empty_iff_all_nan(init, channel);
        assert forall|j: int| 0 <= j < n implies channel.value(#[trigger] samples[j]).nan() by {
            assert(samples[j] == init[j]);
        }
        (n, n)
    }
}

/// Summary of up to [`BUCKET_SAMPLES`] consecutive samples, all channels.
#[derive(Debug, Clone, Copy)]
pub struct Bucket {
    /// Samples folded into this bucket (== [`BUCKET_SAMPLES`] once sealed).
    pub len: usize,
    pub channels: [MinMax; 6],
}

impl Bucket {
    /// Whether the bucket summarizes `samples`, in every channel.
    pub open spec fn summarizes(self, samples: Seq<PlotSample>) -> bool {
        &&& self.len == samples.len()
        &&& forall|channel: Channel|
            self.channels@[(#[trigger] channel.slot())] == MinMax::of(samples, channel)
    }

    /// The bucket of no samples.
    pub fn empty() -> (r: Bucket)
        ensures
            r.summarizes(Seq::<PlotSample>::empty()),
    {
        let none = MinMax::empty();
        Bucket { len: 0, channels: [none, none, none, none, none, none] }
    }

    /// Fold one sample into every channel.
    pub fn fold_into(&mut self, sample: &PlotSample)
        requires
            old(self).len < usize::MAX,
        ensures
            final(self).len == old(self).len + 1,
            forall|channel: Channel|
                final(self).channels@[(#[trigger] channel.slot())]
                    == old(self).channels@[channel.slot()].added(
                    channel.value(*sample),
                    sample.timestamp_ms,
                ),
    {
        self.len = self.len + 1;
        let channels = Channel::all();
        let mut i: usize = 0;
        while i < CHANNEL_COUNT
            invariant
                i <= CHANNEL_COUNT,
                self.len == old(self).len + 1,
                forall|k: int| 0 <= k < 6 ==> (#[trigger] channels@[k]).slot() == k,
                forall|channel: Channel|
                    #![trigger channel.slot()]
                    self.channels@[channel.slot()] == if channel.slot() < i {
                        old(self).channels@[channel.slot()].added(
                            channel.value(*sample),
                            sample.timestamp_ms,
                        )
                    } else {
                        old(self).channels@[channel.slot()]
                    },
            decreases CHANNEL_COUNT - i,
        {
            let channel = channels[i];
            let mut summary = self.channels[channel.index()];
            summary.add(channel.extract(sample), sample.timestamp_ms);
            self.channels[channel.index()] = summary;
            i = i + 1;
        }
    }
}

/// Whether the extremes of a bucket tell that no finite value was seen: the
/// lower one is positive infinity, as an all-NaN bucket leaves it, or it is
/// negative infinity and the upper one is infinite too.
pub open spec fn is_gap(lo: F32, hi: F32) -> bool {
    lo.bits == INFINITY_BITS || (lo.bits == NEG_INFINITY_BITS && hi.infinite())
}

/// The points of one decimated bucket: both extremes at `x`, `lo` first, or a
/// single gap marker.
pub open spec fn bucket_points(x: u64, lo: F32, hi: F32) -> Seq<PlotPoint> {
    if is_gap(lo, hi) {
        seq![PlotPoint { timestamp_ms: x, value: F32 { bits: NAN_BITS } }]
    } else {
        seq![PlotPoint { timestamp_ms: x, value: lo }, PlotPoint { timestamp_ms: x, value: hi }]
    }
}

/// Whether `low` and `high` are two of the values, between which all numbers
/// among them lie.
pub open spec fn spanned(values: Seq<F32>, low: F32, high: F32) -> bool {
    &&& !low.nan() && values.contains(low)
    &&& !high.nan() && values.contains(high)
    &&& forall|j: int|
        0 <= j < values.len() ==> !(#[trigger] values[j]).below(low) && !high.below(values[j])
}

/// Whether one of the two infinities is not among the values.
pub open spec fn infinite_to_one_side(values: Seq<F32>) -> bool {
    ||| forall|j: int| 0 <= j < values.len() ==> (#[trigger] values[j]).bits != 0x7f80_0000
    ||| forall|j: int| 0 <= j < values.len() ==> (#[trigger] values[j]).bits != 0xff80_0000
}

/// Whether no value is a finite number.
pub open spec fn without_a_number(values: Seq<F32>) -> bool {
    forall|j: int| 0 <= j < values.len() ==> (#[trigger] values[j]).nan() || values[j].infinite()
}

/// Whether `lo` and `hi` are the extremes of the values, or the ends of the empty
/// interval where there is no number.
pub open spec fn bounded(values: Seq<F32>, lo: F32, hi: F32) -> bool {
    &&& forall|j: int|
        0 <= j < values.len() ==> !(#[trigger] values[j]).below(lo) && !hi.below(values[j])
    &&& !lo.nan() && !hi.nan()
    &&& lo.bits == INFINITY_BITS || values.contains(lo)
    &&& hi.bits == NEG_INFINITY_BITS || values.contains(hi)
}

/// Gap law: values with a finite number among them, and not both infinities,
/// are drawn as two of them, between which all the others lie.
pub proof fn finite_values_are_drawn(values: Seq<F32>, x: u64, lo: F32, hi: F32, i: int)
    requires
        0 <= i < values.len(),
        !values[i].nan(),
        !values[i].infinite(),
        bounded(values, lo, hi),
        infinite_to_one_side(values),
    ensures
        bucket_points(x, lo, hi).len() == 2,
        bucket_points(x, lo, hi)[0].timestamp_ms == x,
        bucket_points(x, lo, hi)[0].value == lo,
        bucket_points(x, lo, hi)[1].timestamp_ms == x,
        bucket_points(x, lo, hi)[1].value == hi,
        spanned(values, lo, hi),
{
    assert(!values[i].below(lo) && !hi.below(values[i]));
}

/// Gap law: values without a finite number among them are drawn as one gap.
pub proof fn values_without_a_number_are_a_gap(values: Seq<F32>, x: u64, lo: F32, hi: F32)
    requires
        without_a_number(values),
        bounded(values, lo, hi),
    ensures
        bucket_points(x, lo, hi).len() == 1,
        bucket_points(x, lo, hi)[0].timestamp_ms == x,
        bucket_points(x, lo, hi)[0].value.nan(),
{
    if values.contains(lo) {
        let j = choose|j: int| 0 <= j < values.len() && values[j] == lo;
        assert(values[j].infinite());
    }
    if values.contains(hi) {
        let j = choose|j: int| 0 <= j < values.len() && values[j] == hi;
        assert(values[j].infinite());
    }
}

/// Emit one decimated bucket for a single lane: both extremes at the
/// bucket-center `x` (`lo` then `hi`), or a single NaN sentinel to open a gap
/// when the extremes tell that no finite value was seen.
pub fn emit_bucket(pts: &mut Vec<PlotPoint>, x: u64, lo: F32, hi: F32)
    ensures
        final(pts)@ == old(pts)@ + bucket_points(x, lo, hi),
{
    if lo.bits == INFINITY_BITS || (lo.bits == NEG_INFINITY_BITS && hi.is_infinite()) {
        pts.push(PlotPoint { timestamp_ms: x, value: F32 { bits: NAN_BITS } });
    } else {
        pts.push(PlotPoint { timestamp_ms: x, value: lo });
        pts.push(PlotPoint { timestamp_ms: x, value: hi });
    }
    assert(pts@ =~= old(pts)@ + bucket_points(x, lo, hi));
}

/// The start of part `r` when `count` things are split into `parts` runs.
pub open spec fn split_at(count: int, parts: int, r: int) -> int {
    r * count / parts
}

/// The start of part `r` when `count` things are split into `parts` runs.
fn split(count: usize, parts: usize, r: usize) -> (at: usize)
    requires
        0 < parts,
        r <= parts,
    ensures
        at == split_at(count as int, parts as int, r as int),
        at <= count,
{
    proof {
        split_is_bounded(count as int, parts as int, r as int);
        assert(r * count <= u128::MAX) by (nonlinear_arith)
            requires
                0 <= r <= u64::MAX,
                0 <= count <= u64::MAX,
        ;
    }
    (r as u128 * count as u128 / parts as u128) as usize
}

/// Splitting law: a part starts within the whole.
pub proof fn split_is_bounded(count: int, parts: int, r: int)
    requires
        0 <= count,
        0 < parts,
        0 <= r <= parts,
    ensures
        0 <= split_at(count, parts, r) <= count,
        split_at(count, parts, 0) == 0,
        split_at(count, parts, parts) == count,
{
    assert(0 <= r * count / parts <= count) by (nonlinear_arith)
        requires
            0 <= count,
            0 < parts,
            0 <= r <= parts,
    ;
    assert(0 * count / parts == 0) by (nonlinear_arith)
        requires
            0 < parts,
    ;
    assert(parts * count / parts == count) by (nonlinear_arith)
        requires
            0 < parts,
    ;
}

/// Splitting law: part `r` starts at the last place that is not behind `r` parts
/// out of `parts` of the whole.
pub proof fn split_is_even(count: int, parts: int, r: int)
    requires
        0 <= count,
        0 < parts,
        0 <= r,
    ensures
        split_at(count, parts, r) * parts <= r * count < (split_at(count, parts, r) + 1) * parts,
{
    let q = r * count / parts;
    vstd::arithmetic::div_mod::lemma_fundamental_div_mod(r * count, parts);
    vstd::arithmetic::div_mod::lemma_mod_bound(r * count, parts);
    assert(q * parts == parts * q && (q + 1) * parts == parts * q + parts) by (nonlinear_arith);
}

/// Splitting law: a part ends no sooner than it starts.
pub proof fn split_is_monotonic(count: int, parts: int, r: int)
    requires
        0 <= count,
        0 < parts,
        0 <= r,
    ensures
        split_at(count, parts, r) <= split_at(count, parts, r + 1),
{
    assert(r * count / parts <= (r + 1) * count / parts) by (nonlinear_arith)
        requires
            0 <= count,
            0 < parts,
            0 <= r,
    ;
}

/// Splitting law: with no more parts than things, no part is empty.
pub proof fn split_is_strict(count: int, parts: int, r: int)
    requires
        0 < parts <= count,
        0 <= r,
    ensures
        split_at(count, parts, r) < split_at(count, parts, r + 1),
{
    assert(r * count / parts < (r + 1) * count / parts) by (nonlinear_arith)
        requires
            0 < parts <= count,
            0 <= r,
    ;
}

/// How many render buckets `start..end` is cut into: no more than asked for,
/// and no more than the summary buckets it touches.
pub open spec fn render_count(front_skip: int, start: int, end: int, render_buckets: int) -> int {
    let touched = (front_skip + end - 1) / 256 + 1 - (front_skip + start) / 256;
    if render_buckets < touched {
        render_buckets
    } else {
        touched
    }
}

/// The sample where render bucket `r` starts: the first one of a summary
/// bucket, except at the two ends of the range.
pub open spec fn render_start(
    front_skip: int,
    start: int,
    end: int,
    render_buckets: int,
    r: int,
) -> int {
    let first = (front_skip + start) / 256;
    let touched = (front_skip + end - 1) / 256 + 1 - first;
    let parts = render_count(front_skip, start, end, render_buckets);
    walked(front_skip, start, end, first + split_at(touched, parts, r))
}

/// Decimation law: the render buckets follow one another without a gap, none
/// is empty, and together they are exactly `start..end`.
pub proof fn render_slices_tile_the_range(
    front_skip: int,
    start: int,
    end: int,
    render_buckets: int,
)
    requires
        0 <= front_skip,
        0 <= start < end,
        0 < render_buckets,
    ensures
        render_start(front_skip, start, end, render_buckets, 0) == start,
        render_start(
            front_skip,
            start,
            end,
            render_buckets,
            render_count(front_skip, start, end, render_buckets),
        ) == end,
        forall|r: int|
            0 <= r < render_count(front_skip, start, end, render_buckets) ==> #[trigger] render_start(
                front_skip,
                start,
                end,
                render_buckets,
                r,
            ) < render_start(front_skip, start, end, render_buckets, r + 1),
{
    let first = (front_skip + start) / 256;
    let touched = (front_skip + end - 1) / 256 + 1 - first;
    let parts = render_count(front_skip, start, end, render_buckets);
    split_is_bounded(touched, parts, 0);
    split_is_bounded(touched, parts, parts);
    assert forall|r: int| 0 <= r < parts implies #[trigger] render_start(
        front_skip,
        start,
        end,
        render_buckets,
        r,
    ) < render_start(front_skip, start, end, render_buckets, r + 1) by {
        split_is_bounded(touched, parts, r);
        split_is_bounded(touched, parts, r + 1);
        split_is_strict(touched, parts, r);
    }
}

/// The points of the first `upto` render buckets.
pub open spec fn decimated_upto(
    samples: Seq<PlotSample>,
    front_skip: int,
    channel: Channel,
    start: int,
    end: int,
    render_buckets: int,
    upto: int,
) -> Seq<PlotPoint>
    decreases upto,
{
    if upto <= 0 {
        Seq::empty()
    } else {
        let lo = render_start(front_skip, start, end, render_buckets, upto - 1);
        let hi = render_start(front_skip, start, end, render_buckets, upto);
        let extremes = MinMax::of(samples.subrange(lo, hi), channel).interval();
        decimated_upto(samples, front_skip, channel, start, end, render_buckets, upto - 1)
            + bucket_points(samples[(lo + hi) / 2].timestamp_ms, extremes.0, extremes.1)
    }
}

/// The decimation of `samples[start..end]`: each render bucket's extremes, at
/// the timestamp of its middle sample.
pub open spec fn decimated(
    samples: Seq<PlotSample>,
    front_skip: int,
    channel: Channel,
    start: int,
    end: int,
    render_buckets: int,
) -> Seq<PlotPoint> {
    decimated_upto(
        samples,
        front_skip,
        channel,
        start,
        end,
        render_buckets,
        render_count(front_skip, start, end, render_buckets),
    )
}

/// Where a walk of `start..end` stands once every bucket before `k` is done.
pub open spec fn walked(front_skip: int, start: int, end: int, k: int) -> int {
    let at = k * 256 - front_skip;
    if at < start {
        start
    } else if at > end {
        end
    } else {
        at
    }
}

proof fn slice_of(starts: spec_fn(int) -> int, parts: int, i: int, from: int) -> (r: int)
    requires
        0 <= from < parts,
        starts(from) <= i < starts(parts),
    ensures
        from <= r < parts,
        starts(r) <= i < starts(r + 1),
    decreases parts - from,
{
    if i < starts(from + 1) {
        from
    } else {
        slice_of(starts, parts, i, from + 1)
    }
}

proof fn earlier_slices_stay(
    samples: Seq<PlotSample>,
    front_skip: int,
    channel: Channel,
    start: int,
    end: int,
    render_buckets: int,
    upto: int,
    all: int,
)
    requires
        0 <= upto <= all,
    ensures
        ({
            let some = decimated_upto(
                samples,
                front_skip,
                channel,
                start,
                end,
                render_buckets,
                upto,
            );
            let every = decimated_upto(
                samples,
                front_skip,
                channel,
                start,
                end,
                render_buckets,
                all,
            );
            &&& some.len() <= every.len()
            &&& forall|k: int| 0 <= k < some.len() ==> #[trigger] every[k] == some[k]
        }),
    decreases all - upto,
{
    if upto < all {
        earlier_slices_stay(
            samples,
            front_skip,
            channel,
            start,
            end,
            render_buckets,
            upto,
            all - 1,
        );
    }
}

proof fn interval_bounds_the_values(samples: Seq<PlotSample>, channel: Channel)
    ensures
        ({
            let ends = MinMax::of(samples, channel).interval();
            bounded(samples.map_values(|s: PlotSample| channel.value(s)), ends.0, ends.1)
        }),
{
    let values = samples.map_values(|s: PlotSample| channel.value(s));
    summary_is_empty_iff_all_nan(samples, channel);
    if MinMax::of(samples, channel).any {
        let (i, k) = summary_extremes_are_first_occurrences(samples, channel);
        assert(values[i] == channel.value(samples[i]));
        assert(values[k] == channel.value(samples[k]));
        assert forall|j: int| 0 <= j < values.len() implies !(#[trigger] values[j]).below(
            values[i],
        ) && !values[k].below(values[j]) by {
            assert(values[j] == channel.value(samples[j]));
        }
    } else {
        assert forall|j: int| 0 <= j < values.len() implies (#[trigger] values[j]).nan() by {
            assert(values[j] == channel.value(samples[j]));
        }
    }
}

proof fn slice_starts_at_a_bucket(
    front_skip: int,
    start: int,
    end: int,
    render_buckets: int,
    r: int,
)
    requires
        0 <= front_skip,
        0 <= start < end,
        0 < render_buckets,
        0 <= r <= render_count(front_skip, start, end, render_buckets),
    ensures
        ({
            let first = (front_skip + start) / 256;
            let touched = (front_skip + end - 1) / 256 + 1 - first;
            let parts = render_count(front_skip, start, end, render_buckets);
            render_start(front_skip, start, end, render_buckets, r) == if r == 0 {
                start
            } else if r == parts {
                end
            } else {
                (first + r * touched / parts) * 256 - front_skip
            }
        }),
        start <= render_start(front_skip, start, end, render_buckets, r) <= end,
{
    let first = (front_skip + start) / 256;
    let touched = (front_skip + end - 1) / 256 + 1 - first;
    let parts = render_count(front_skip, start, end, render_buckets);
    split_is_bounded(touched, parts, r);
    if 0 < r < parts {
        split_is_bounded(touched, parts, r - 1);
        split_is_strict(touched, parts, r - 1);
        split_is_bounded(touched, parts, r + 1);
        split_is_strict(touched, parts, r);
    }
}

proof fn slice_is_drawn(
    samples: Seq<PlotSample>,
    front_skip: int,
    channel: Channel,
    start: int,
    end: int,
    render_buckets: int,
    r: int,
) -> (k: int)
    requires
        0 <= r < render_count(front_skip, start, end, render_buckets),
    ensures
        ({
            let lo = render_start(front_skip, start, end, render_buckets, r);
            let hi = render_start(front_skip, start, end, render_buckets, r + 1);
            let ends = MinMax::of(samples.subrange(lo, hi), channel).interval();
            let points = bucket_points(samples[(lo + hi) / 2].timestamp_ms, ends.0, ends.1);
            let line = decimated(samples, front_skip, channel, start, end, render_buckets);
            &&& 0 <= k
            &&& k + points.len() <= line.len()
            &&& forall|m: int| 0 <= m < points.len() ==> line[k + m] == #[trigger] points[m]
        }),
{
    earlier_slices_stay(
        samples,
        front_skip,
        channel,
        start,
        end,
        render_buckets,
        r + 1,
        render_count(front_skip, start, end, render_buckets),
    );
    decimated_upto(samples, front_skip, channel, start, end, render_buckets, r).len() as int
}

proof fn slice_is_found(front_skip: int, start: int, end: int, render_buckets: int, i: int) -> (r:
    int)
    requires
        0 <= front_skip,
        0 <= start <= i < end,
        0 < render_buckets,
    ensures
        ({
            let first = (front_skip + start) / 256;
            let touched = (front_skip + end - 1) / 256 + 1 - first;
            let parts = if render_buckets < touched {
                render_buckets
            } else {
                touched
            };
            &&& parts == render_count(front_skip, start, end, render_buckets)
            &&& 0 <= r < parts
            &&& render_start(front_skip, start, end, render_buckets, r) == if r == 0 {
                start
            } else {
                (first + r * touched / parts) * 256 - front_skip
            }
            &&& render_start(front_skip, start, end, render_buckets, r + 1) == if r == parts - 1 {
                end
            } else {
                (first + (r + 1) * touched / parts) * 256 - front_skip
            }
        }),
        start <= render_start(front_skip, start, end, render_buckets, r) <= i,
        i < render_start(front_skip, start, end, render_buckets, r + 1) <= end,
{
    render_slices_tile_the_range(front_skip, start, end, render_buckets);
    let starts = |r: int| render_start(front_skip, start, end, render_buckets, r);
    let r = slice_of(starts, render_count(front_skip, start, end, render_buckets), i, 0);
    slice_starts_at_a_bucket(front_skip, start, end, render_buckets, r);
    slice_starts_at_a_bucket(front_skip, start, end, render_buckets, r + 1);
    r
}

proof fn slice_shows_its_extremes(
    samples: Seq<PlotSample>,
    front_skip: int,
    channel: Channel,
    start: int,
    end: int,
    render_buckets: int,
    r: int,
    i: int,
) -> (k: int)
    requires
        0 <= r < render_count(front_skip, start, end, render_buckets),
        0 <= render_start(front_skip, start, end, render_buckets, r) <= i,
        i < render_start(front_skip, start, end, render_buckets, r + 1) <= samples.len(),
    ensures
        ({
            let lo = render_start(front_skip, start, end, render_buckets, r);
            let hi = render_start(front_skip, start, end, render_buckets, r + 1);
            let line = decimated(samples, front_skip, channel, start, end, render_buckets);
            let values = samples.subrange(lo, hi).map_values(|s: PlotSample| channel.value(s));
            &&& 0 <= k < line.len()
            &&& line[k].timestamp_ms == samples[(lo + hi) / 2].timestamp_ms
            &&& without_a_number(values) ==> line[k].value.nan()
            &&& !values[i - lo].nan() && !values[i - lo].infinite() && infinite_to_one_side(values)
                ==> {
                &&& k + 1 < line.len()
                &&& line[k + 1].timestamp_ms == samples[(lo + hi) / 2].timestamp_ms
                &&& spanned(values, line[k].value, line[k + 1].value)
            }
        }),
{
    let k = slice_is_drawn(samples, front_skip, channel, start, end, render_buckets, r);
    let lo = render_start(front_skip, start, end, render_buckets, r);
    let hi = render_start(front_skip, start, end, render_buckets, r + 1);
    let part = samples.subrange(lo, hi);
    let values = part.map_values(|s: PlotSample| channel.value(s));
    let ends = MinMax::of(part, channel).interval();
    let x = samples[(lo + hi) / 2].timestamp_ms;
    let points = bucket_points(x, ends.0, ends.1);
    let line = decimated(samples, front_skip, channel, start, end, render_buckets);
    interval_bounds_the_values(part, channel);
    assert(line[k + 0] == points[0]);
    if without_a_number(values) {
        values_without_a_number_are_a_gap(values, x, ends.0, ends.1);
    }
    if !values[i - lo].nan() && !values[i - lo].infinite() && infinite_to_one_side(values) {
        finite_values_are_drawn(values, x, ends.0, ends.1, i - lo);
        assert(line[k + 1] == points[1]);
    }
    k
}

/// Decimation law: no extreme is lost where summaries are walked. The range is
/// cut into slices of whole summary buckets, as even as they can be, and the
/// slice of sample `i` is drawn at the timestamp of its middle sample: as two of
/// its values, between which all the others lie, where it holds a finite number
/// (and not both infinities), and as a gap where it holds no finite number.
///
/// The result is the slice of sample `i`, and where its points stand.
pub proof fn summaries_lose_no_extreme(
    samples: Seq<PlotSample>,
    front_skip: int,
    channel: Channel,
    start: int,
    end: int,
    render_buckets: int,
    i: int,
) -> (found: (int, int))
    requires
        0 <= front_skip,
        0 <= start <= i < end <= samples.len(),
        0 < render_buckets,
    ensures
        ({
            let first = (front_skip + start) / 256;
            let touched = (front_skip + end - 1) / 256 + 1 - first;
            let parts = if render_buckets < touched {
                render_buckets
            } else {
                touched
            };
            let r = found.0;
            let k = found.1;
            let lo = if r == 0 {
                start
            } else {
                (first + r * touched / parts) * 256 - front_skip
            };
            let hi = if r == parts - 1 {
                end
            } else {
                (first + (r + 1) * touched / parts) * 256 - front_skip
            };
            let line = decimated(samples, front_skip, channel, start, end, render_buckets);
            let values = samples.subrange(lo, hi).map_values(|s: PlotSample| channel.value(s));
            &&& 0 <= r < parts
            &&& start <= lo <= i < hi <= end
            &&& 0 <= k < line.len()
            &&& line[k].timestamp_ms == samples[(lo + hi) / 2].timestamp_ms
            &&& without_a_number(values) ==> line[k].value.nan()
            &&& !values[i - lo].nan() && !values[i - lo].infinite() && infinite_to_one_side(values)
                ==> {
                &&& k + 1 < line.len()
                &&& line[k + 1].timestamp_ms == samples[(lo + hi) / 2].timestamp_ms
                &&& spanned(values, line[k].value, line[k + 1].value)
            }
        }),
{
    let r = slice_is_found(front_skip, start, end, render_buckets, i);
    let k = slice_shows_its_extremes(
        samples,
        front_skip,
        channel,
        start,
        end,
        render_buckets,
        r,
        i,
    );
    (r, k)
}

/// Channel law: each channel is read from the field of its own name.
pub proof fn channels_read_their_field(sample: PlotSample)
    ensures
        Channel::Voltage.value(sample) == sample.voltage_v,
        Channel::Current.value(sample) == sample.current_a,
        Channel::Power.value(sample) == sample.power_w,
        Channel::Temp.value(sample) == sample.temp_c,
        Channel::Dp.value(sample) == sample.dp_v,
        Channel::Dn.value(sample) == sample.dn_v,
{
}

/// One aggregation level maintained incrementally alongside the raw sample
/// deque.
///
/// Deque index `i` corresponds to offset `front_skip + i` from the start of
/// the first bucket; every bucket except the trailing one is sealed at exactly
/// [`BUCKET_SAMPLES`] samples. The view is the sequence of live samples.
pub struct Pyramid {
    pub buckets: VecDeque<Bucket>,
    /// Samples already evicted from the deque but still folded into the first
    /// bucket's aggregates. While non-zero the first bucket's summaries are
    /// stale, so queries walk its remaining raw samples instead.
    pub front_skip: usize,
    /// The samples that are live.
    pub live: Ghost<Seq<PlotSample>>,
}

impl View for Pyramid {
    type V = Seq<PlotSample>;

    open spec fn view(&self) -> Seq<PlotSample> {
        self.live@
    }
}

impl Pyramid {
    /// Samples folded into the buckets, the evicted ones included.
    pub open spec fn total(self) -> int {
        if self.buckets@.len() == 0 {
            0
        } else {
            (self.buckets@.len() - 1) * 256 + self.buckets@.last().len
        }
    }

    /// The live samples that bucket `k` covers, if none of its samples is gone.
    pub open spec fn covered_by(self, k: int) -> Seq<PlotSample> {
        self@.subrange(
            k * 256 - self.front_skip,
            k * 256 - self.front_skip + self.buckets@[k].len,
        )
    }

    /// Every bucket but the last is full, the first one is not wholly evicted,
    /// and each bucket none of whose samples is gone summarizes its samples.
    pub open spec fn inv(self) -> bool {
        &&& forall|k: int|
            0 <= k < self.buckets@.len() ==> 1 <= (#[trigger] self.buckets@[k]).len <= 256
        &&& forall|k: int|
            0 <= k < self.buckets@.len() - 1 ==> (#[trigger] self.buckets@[k]).len == 256
        &&& self.buckets@.len() == 0 ==> self.front_skip == 0
        &&& self.buckets@.len() > 0 ==> self.front_skip < self.buckets@[0].len
        &&& self@.len() == self.total() - self.front_skip
        &&& self.total() <= usize::MAX
        &&& forall|k: int|
            0 <= k < self.buckets@.len() && k * 256 >= self.front_skip
                ==> (#[trigger] self.buckets@[k]).summarizes(self.covered_by(k))
    }

    /// A pyramid over no samples.
    pub fn new() -> (r: Pyramid)
        ensures
            r.inv(),
            r@ == Seq::<PlotSample>::empty(),
    {
        Pyramid { buckets: VecDeque::new(), front_skip: 0, live: Ghost(Seq::empty()) }
    }

    /// Number of live samples the summaries cover.
    pub fn covered_samples(&self) -> (r: usize)
        requires
            self.inv(),
        ensures
            r == self@.len(),
    {
        let mut sum: usize = 0;
        let mut k: usize = 0;
        while k < self.buckets.len()
            invariant
                self.inv(),
                k <= self.buckets@.len(),
                k < self.buckets@.len() ==> sum == k * 256,
                k == self.buckets@.len() ==> sum == self.total(),
            decreases self.buckets@.len() - k,
        {
            assert(self.buckets@[k as int].len >= 1);
            assert(k * 256 + self.buckets@[k as int].len <= self.total());
            sum = sum + self.buckets[k].len;
            k = k + 1;
        }
        sum - self.front_skip
    }

    /// Heap footprint of the summaries.
    pub fn memory_bytes(&self) -> (r: usize)
        requires
            self.buckets@.len() * vstd::layout::size_of::<Bucket>() <= usize::MAX,
        ensures
            r == self.buckets@.len() * vstd::layout::size_of::<Bucket>(),
    {
        let each: usize = core::mem::size_of::<Bucket>();
        self.buckets.len() * each
    }

    /// Pre-allocate bucket storage for `additional` more samples ahead of a
    /// known-size bulk import.
    pub fn reserve(&mut self, additional: usize)
        requires
            old(self).inv(),
            (old(self).buckets@.len() + additional as int / 256 + 1) * vstd::layout::size_of::<Bucket>()
                <= isize::MAX,
        ensures
            final(self).inv(),
            final(self)@ == old(self)@,
            final(self).front_skip == old(self).front_skip,
            final(self).buckets@ == old(self).buckets@,
    {
        let whole: usize = additional / BUCKET_SAMPLES;
        let rest: usize = if additional % BUCKET_SAMPLES == 0 { 0 } else { 1 };
        self.buckets.reserve(whole + rest);
    }

    /// Fold one appended sample into the trailing bucket.
    pub fn push(&mut self, sample: &PlotSample)
        requires
            old(self).inv(),
            old(self).total() < usize::MAX,
        ensures
            final(self).inv(),
            final(self)@ == old(self)@.push(*sample),
            final(self).front_skip == old(self).front_skip,
            final(self).total() == old(self).total() + 1,
    {
        let n = self.buckets.len();
        let ghost before = *self;
        if n > 0 && self.buckets[n - 1].len < BUCKET_SAMPLES {
            let mut bucket = self.buckets[n - 1];
            bucket.fold_into(sample);
            let _ = self.buckets.pop_back();
            self.buckets.push_back(bucket);
            self.live = Ghost(self.live@.push(*sample));
            proof {
                assert forall|k: int| 0 <= k < self.buckets@.len() && k * 256
                    >= self.front_skip implies (#[trigger] self.buckets@[k]).summarizes(
                    self.covered_by(k),
                ) by {
                    assert(before.buckets@[k].summarizes(before.covered_by(k)));
                    if k < n - 1 {
                        assert(self.covered_by(k) =~= before.covered_by(k));
                    } else {
                        let grown = self.covered_by(k);
                        assert(grown.drop_last() =~= before.covered_by(k));
                        assert(grown.last() == *sample);
                        assert forall|channel: Channel| bucket.channels@[(
                        #[trigger] channel.slot())] == MinMax::of(grown, channel) by {}
                    }
                }
            }
        } else {
            let mut bucket = Bucket::empty();
            bucket.fold_into(sample);
            self.buckets.push_back(bucket);
            self.live = Ghost(self.live@.push(*sample));
            proof {
                assert forall|k: int| 0 <= k < self.buckets@.len() && k * 256
                    >= self.front_skip implies (#[trigger] self.buckets@[k]).summarizes(
                    self.covered_by(k),
                ) by {
                    if k < n {
                        assert(before.buckets@[k].summarizes(before.covered_by(k)));
                        assert(self.covered_by(k) =~= before.covered_by(k));
                    } else {
                        let grown = self.covered_by(k);
                        assert(grown =~= seq![*sample]);
                        assert(grown.drop_last() =~= Seq::<PlotSample>::empty());
                        assert forall|channel: Channel| bucket.channels@[(
                        #[trigger] channel.slot())] == MinMax::of(grown, channel) by {}
                    }
                }
            }
        }
    }

    /// Record that the oldest `count` samples were removed from the deque.
    ///
    /// Summaries only drop as whole buckets; until every sample of the first
    /// bucket is gone it is retained and marked partially evicted.
    pub fn evict_front(&mut self, count: usize)
        requires
            old(self).inv(),
            old(self).front_skip + count <= usize::MAX,
        ensures
            final(self).inv(),
            final(self)@ == if count <= old(self)@.len() {
                old(self)@.skip(count as int)
            } else {
                Seq::empty()
            },
            final(self).front_skip == if count < old(self)@.len() {
                (old(self).front_skip + count) % 256
            } else {
                0
            },
    {
        let ghost before = *self;
        let ghost mut dropped: int = 0;
        self.front_skip = self.front_skip + count;
        while self.buckets.len() > 0 && self.front_skip >= self.buckets[0].len
            invariant
                before.inv(),
                0 <= dropped <= before.buckets@.len(),
                self.buckets@ == before.buckets@.skip(dropped),
                self.live == before.live,
                self.buckets@.len() > 0 ==> self.front_skip + dropped * 256 == before.front_skip + count,
                self.buckets@.len() == 0 ==> before.front_skip + count >= before.total(),
            decreases self.buckets@.len(),
        {
            let len = self.buckets[0].len;
            assert(self.buckets@[0] == before.buckets@[dropped]);
            let _ = self.buckets.pop_front();
            self.front_skip = self.front_skip - len;
            proof {
                dropped = dropped + 1;
                assert(self.buckets@ =~= before.buckets@.skip(dropped));
            }
        }
        if self.buckets.len() == 0 {
            self.front_skip = 0;
            self.live = Ghost(Seq::empty());
            assert(count == before@.len() ==> before@.skip(count as int) =~= Seq::empty());
        } else {
            self.live = Ghost(self.live@.skip(count as int));
            proof {
                assert(self.buckets@.last() == before.buckets@.last());
                assert(self.buckets@[0] == before.buckets@[dropped]);
                assert forall|k: int| 0 <= k < self.buckets@.len() implies #[trigger] self.buckets@[k]
                    == before.buckets@[k + dropped] by {}
                assert forall|k: int| 0 <= k < self.buckets@.len() && k * 256
                    >= self.front_skip implies (#[trigger] self.buckets@[k]).summarizes(
                    self.covered_by(k),
                ) by {
                    assert(before.buckets@[k + dropped].summarizes(before.covered_by(k + dropped)));
                    assert(self.covered_by(k) =~= before.covered_by(k + dropped));
                }
            }
        }
    }

    /// Exact min/max of `channel` over deque index range `start..end`.
    ///
    /// Buckets fully covered by the range (and not partially evicted) fold
    /// their summaries; partial coverage at the edges walks the raw samples,
    /// so the result is that of a scan of `samples[start..end]`.
    pub fn range_min_max(
        &self,
        samples: &VecDeque<PlotSample>,
        channel: Channel,
        start: usize,
        end: usize,
    ) -> (r: MinMax)
        requires
            self.inv(),
            samples@ == self@,
            start < end ==> end <= samples@.len(),
        ensures
            start < end ==> r == MinMax::of(samples@.subrange(start as int, end as int), channel),
            start >= end ==> r == MinMax::none(),
    {
        let mut agg = MinMax::empty();
        if start >= end {
            return agg;
        }
        let abs_start: usize = self.front_skip + start;
        let abs_end: usize = self.front_skip + end;
        let first_bucket: usize = abs_start / BUCKET_SAMPLES;
        let last_bucket: usize = (abs_end - 1) / BUCKET_SAMPLES;
        let mut k: usize = first_bucket;
        assert(samples@.subrange(start as int, start as int) =~= Seq::empty());
        while k <= last_bucket
            invariant
                self.inv(),
                samples@ == self@,
                start < end <= samples@.len(),
                abs_start == self.front_skip + start,
                abs_end == self.front_skip + end,
                first_bucket == abs_start / BUCKET_SAMPLES,
                last_bucket == (abs_end - 1) / BUCKET_SAMPLES as int,
                first_bucket <= k <= last_bucket + 1,
                agg == MinMax::of(
                    samples@.subrange(start as int, walked(self.front_skip as int, start as int, end as int, k as int)),
                    channel,
                ),
            decreases last_bucket + 1 - k,
        {
            assert(k < self.buckets@.len());
            assert(k < self.buckets@.len() - 1 ==> self.buckets@[k as int].len == 256);
            let len = self.buckets[k].len;
            let bucket_lo: usize = k * BUCKET_SAMPLES;
            let lo: usize = if abs_start > bucket_lo { abs_start } else { bucket_lo };
            let hi: usize = if abs_end < bucket_lo + len { abs_end } else { bucket_lo + len };
            let ghost from = lo - self.front_skip;
            let ghost to = hi - self.front_skip;
            assert(from == walked(self.front_skip as int, start as int, end as int, k as int));
            assert(to == walked(self.front_skip as int, start as int, end as int, k + 1));
            if lo == bucket_lo && hi == bucket_lo + len {
                let summary = self.buckets[k].channels[channel.index()];
                agg.merge(&summary);
                proof {
                    assert(self.buckets@[k as int].summarizes(self.covered_by(k as int)));
                    assert(self.covered_by(k as int) =~= samples@.subrange(from, to));
                    assert(samples@.subrange(start as int, from) + samples@.subrange(from, to)
                        =~= samples@.subrange(start as int, to));
                    summary_of_concatenation(
                        samples@.subrange(start as int, from),
                        samples@.subrange(from, to),
                        channel,
                    );
                }
            } else {
                let mut offset: usize = lo;
                while offset < hi
                    invariant
                        samples@ == self@,
                        start < end <= samples@.len(),
                        self.front_skip + start <= lo <= offset <= hi <= self.front_skip + end,
                        agg == MinMax::of(
                            samples@.subrange(start as int, offset - self.front_skip),
                            channel,
                        ),
                    decreases hi - offset,
                {
                    let s = samples[offset - self.front_skip];
                    agg.add(channel.extract(&s), s.timestamp_ms);
                    offset = offset + 1;
                    assert(samples@.subrange(start as int, offset - self.front_skip).drop_last()
                        =~= samples@.subrange(start as int, offset - 1 - self.front_skip));
                }
            }
            k = k + 1;
        }
        agg
    }

    /// Render bucket `r` of `start..end`, as an index range of the deque.
    fn render_slice(
        &self,
        start: usize,
        end: usize,
        render_buckets: usize,
        r: usize,
    ) -> (slice: (usize, usize))
        requires
            self.inv(),
            start < end <= self@.len(),
            r < render_count(
                self.front_skip as int,
                start as int,
                end as int,
                render_buckets as int,
            ),
        ensures
            slice.0 == render_start(
                self.front_skip as int,
                start as int,
                end as int,
                render_buckets as int,
                r as int,
            ),
            slice.1 == render_start(
                self.front_skip as int,
                start as int,
                end as int,
                render_buckets as int,
                r + 1,
            ),
            start <= slice.0 < slice.1 <= end,
    {
        let abs_start: usize = self.front_skip + start;
        let abs_end: usize = self.front_skip + end;
        let first_bucket: usize = abs_start / BUCKET_SAMPLES;
        let bucket_count: usize = (abs_end - 1) / BUCKET_SAMPLES + 1 - first_bucket;
        let used: usize = if render_buckets < bucket_count { render_buckets } else { bucket_count };
        proof {
            split_is_strict(bucket_count as int, used as int, r as int);
        }
        let ka: usize = first_bucket + split(bucket_count, used, r);
        let kb: usize = first_bucket + split(bucket_count, used, r + 1);
        let from: usize = if ka * BUCKET_SAMPLES > abs_start {
            ka * BUCKET_SAMPLES
        } else {
            abs_start
        };
        let to: usize = if kb > abs_end / BUCKET_SAMPLES { abs_end } else { kb * BUCKET_SAMPLES };
        (from - self.front_skip, to - self.front_skip)
    }

    /// Number of render buckets that `start..end` is cut into.
    fn render_len(&self, start: usize, end: usize, render_buckets: usize) -> (r: usize)
        requires
            self.inv(),
            start < end <= self@.len(),
        ensures
            r == render_count(
                self.front_skip as int,
                start as int,
                end as int,
                render_buckets as int,
            ),
    {
        let first_bucket: usize = (self.front_skip + start) / BUCKET_SAMPLES;
        let last_bucket: usize = (self.front_skip + end - 1) / BUCKET_SAMPLES;
        let bucket_count: usize = last_bucket + 1 - first_bucket;
        if render_buckets < bucket_count {
            render_buckets
        } else {
            bucket_count
        }
    }

    /// Min-max decimation of one channel of `samples[start..end]`.
    fn lane(
        &self,
        samples: &VecDeque<PlotSample>,
        channel: Channel,
        start: usize,
        end: usize,
        render_buckets: usize,
    ) -> (pts: Vec<PlotPoint>)
        requires
            self.inv(),
            samples@ == self@,
            start < end <= samples@.len(),
            render_buckets > 0,
        ensures
            pts@ == decimated(
                samples@,
                self.front_skip as int,
                channel,
                start as int,
                end as int,
                render_buckets as int,
            ),
    {
        let used: usize = self.render_len(start, end, render_buckets);
        let mut pts: Vec<PlotPoint> = Vec::new();
        let mut r: usize = 0;
        while r < used
            invariant
                self.inv(),
                samples@ == self@,
                start < end <= samples@.len(),
                used == render_count(
                    self.front_skip as int,
                    start as int,
                    end as int,
                    render_buckets as int,
                ),
                r <= used,
                pts@ == decimated_upto(
                    samples@,
                    self.front_skip as int,
                    channel,
                    start as int,
                    end as int,
                    render_buckets as int,
                    r as int,
                ),
            decreases used - r,
        {
            let (lo, hi) = self.render_slice(start, end, render_buckets, r);
            let x = samples[lo + (hi - lo) / 2].timestamp_ms;
            let (fold_lo, fold_hi) = self.range_min_max(samples, channel, lo, hi).fold_pair();
            emit_bucket(&mut pts, x, fold_lo, fold_hi);
            r = r + 1;
        }
        pts
    }

    /// Min-max decimation of `samples[start..end]` into at most
    /// `render_buckets` buckets per lane, one lane for each of `channels`.
    ///
    /// Render bucket boundaries are aligned to summary buckets, so interior
    /// render buckets fold sealed summaries and only the two edge buckets can
    /// walk raw samples. Emission goes through [`emit_bucket`].
    pub fn min_max_points_multi<const N: usize>(
        &self,
        samples: &VecDeque<PlotSample>,
        channels: [Channel; N],
        start: usize,
        end: usize,
        render_buckets: usize,
    ) -> (lanes: Vec<Vec<PlotPoint>>)
        requires
            self.inv(),
            samples@ == self@,
            start < end ==> end <= samples@.len(),
        ensures
            lanes@.len() == N,
            forall|i: int|
                #![trigger lanes@[i]]
                0 <= i < N ==> lanes@[i]@ == if start < end && render_buckets > 0 {
                    decimated(
                        samples@,
                        self.front_skip as int,
                        channels@[i],
                        start as int,
                        end as int,
                        render_buckets as int,
                    )
                } else {
                    Seq::empty()
                },
    {
        let mut lanes: Vec<Vec<PlotPoint>> = Vec::new();
        let mut i: usize = 0;
        while i < N
            invariant
                self.inv(),
                samples@ == self@,
                start < end ==> end <= samples@.len(),
                i <= N,
                lanes@.len() == i,
                forall|j: int|
                    #![trigger lanes@[j]]
                    0 <= j < i ==> lanes@[j]@ == if start < end && render_buckets > 0 {
                        decimated(
                            samples@,
                            self.front_skip as int,
                            channels@[j],
                            start as int,
                            end as int,
                            render_buckets as int,
                        )
                    } else {
                        Seq::empty()
                    },
            decreases N - i,
        {
            if start >= end || render_buckets == 0 {
                lanes.push(Vec::new());
            } else {
                lanes.push(self.lane(samples, channels[i], start, end, render_buckets));
            }
            i = i + 1;
        }
        lanes
    }

    /// Forget every sample.
    pub fn clear(&mut self)
        ensures
            final(self).inv(),
            final(self)@ == Seq::<PlotSample>::empty(),
    {
        self.buckets.clear();
        self.front_skip = 0;
        self.live = Ghost(Seq::empty());
    }
}

impl Default for Pyramid {
    /// A pyramid over no samples.
    fn default() -> (r: Pyramid)
        ensures
            r.inv(),
            r@ == Seq::<PlotSample>::empty(),
    {
        Pyramid::new()
    }
}

} // verus!
