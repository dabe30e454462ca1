//! Circular-buffered storage behind the real-time measurement plots, and the
//! choice of the points that are drawn.

use std::collections::VecDeque;
use vstd::prelude::*;

use crate::decimation;
use crate::decimation::{emit_bucket, Channel, MinMax, PlotPoint, PlotSample};
use crate::float::{F32, F64, INFINITY_BITS, NEG_INFINITY_BITS};
use crate::sample::Sample;

verus! {

/// Retained bytes per stored sample: the scanned sample (32), the raw register
/// pair (8) and the two totals (8).
pub const BYTES_PER_SAMPLE: usize = 48;

/// How far outside the data, in milliseconds, the pointer still reads a value.
pub const HOVER_TOLERANCE_MS: u64 = 1000;

/// `[start, end)` bounds of decimation bucket `b` of `buckets` total, covering
/// local indices `[0, slice_len)`.
pub fn bucket_bounds(b: usize, slice_len: usize, buckets: usize) -> (r: (usize, usize))
    requires
        buckets > 0,
        decimation::split_at(slice_len as int, buckets as int, b + 1) <= usize::MAX,
    ensures
        r.0 == decimation::split_at(slice_len as int, buckets as int, b as int),
        r.1 == decimation::split_at(slice_len as int, buckets as int, b + 1),
        r.0 <= r.1,
        b < buckets ==> r.1 <= slice_len,
{
    proof {
        decimation::split_is_monotonic(slice_len as int, buckets as int, b as int);
        if b < buckets {
            decimation::split_is_bounded(slice_len as int, buckets as int, b + 1);
        }
        assert((b + 1) * slice_len <= u128::MAX) by (nonlinear_arith)
            requires
                0 <= b <= u64::MAX,
                0 <= slice_len <= u64::MAX,
        ;
        assert(0 <= b * slice_len <= (b + 1) * slice_len) by (nonlinear_arith)
            requires
                0 <= b,
                0 <= slice_len,
        ;
        assert(0 <= b * slice_len / buckets as int) by (nonlinear_arith)
            requires
                0 <= b * slice_len,
                0 < buckets,
        ;
    }
    let start: u128 = b as u128 * slice_len as u128 / buckets as u128;
    let end: u128 = (b as u128 + 1) * slice_len as u128 / buckets as u128;
    (start as usize, end as usize)
}

/// Decimation law: bucket 0 starts at 0, each bucket starts where the one
/// before it ends, and the last ends at `slice_len`.
pub proof fn buckets_tile_the_slice(slice_len: nat, buckets: nat)
    requires
        buckets > 0,
    ensures
        decimation::split_at(slice_len as int, buckets as int, 0) == 0,
        decimation::split_at(slice_len as int, buckets as int, buckets as int) == slice_len,
        forall|b: int|
            0 <= b < buckets ==> #[trigger] decimation::split_at(slice_len as int, buckets as int, b)
                <= decimation::split_at(slice_len as int, buckets as int, b + 1) <= slice_len,
{
    decimation::split_is_bounded(slice_len as int, buckets as int, 0);
    assert forall|b: int| 0 <= b < buckets implies #[trigger] decimation::split_at(
        slice_len as int,
        buckets as int,
        b,
    ) <= decimation::split_at(slice_len as int, buckets as int, b + 1) <= slice_len by {
        decimation::split_is_monotonic(slice_len as int, buckets as int, b);
        decimation::split_is_bounded(slice_len as int, buckets as int, b + 1);
    }
}

/// The scanned part of a sample.
pub open spec fn hot(sample: Sample) -> PlotSample {
    PlotSample {
        timestamp_ms: sample.timestamp_ms,
        voltage_v: sample.voltage_v,
        current_a: sample.current_a,
        power_w: sample.power_w,
        dp_v: sample.dp_v,
        dn_v: sample.dn_v,
        temp_c: sample.temp_c,
    }
}

/// A full sample, rebuilt from its scanned part and its raw registers.
pub open spec fn rejoined(part: PlotSample, raw: (u32, u32)) -> Sample {
    Sample {
        timestamp_ms: part.timestamp_ms,
        voltage_v: part.voltage_v,
        current_a: part.current_a,
        power_w: part.power_w,
        dp_v: part.dp_v,
        dn_v: part.dn_v,
        temp_c: part.temp_c,
        raw_voltage: raw.0,
        raw_current: raw.1,
    }
}

impl PlotSample {
    /// The scanned part of `sample`.
    pub fn of_sample(sample: &Sample) -> (r: PlotSample)
        ensures
            r == hot(*sample),
    {
        PlotSample {
            timestamp_ms: sample.timestamp_ms,
            voltage_v: sample.voltage_v,
            current_a: sample.current_a,
            power_w: sample.power_w,
            dp_v: sample.dp_v,
            dn_v: sample.dn_v,
            temp_c: sample.temp_c,
        }
    }
}

/// Which plots are shown.
#[derive(Debug, Clone, Copy, PartialEq, Eq, Structural)]
pub struct PlotConfig {
    pub voltage: bool,
    pub d_lines: bool,
    pub current: bool,
    pub power: bool,
    pub temperature: bool,
    pub energy: bool,
    pub capacity: bool,
}

impl Default for PlotConfig {
    /// Nothing is shown.
    fn default() -> (r: PlotConfig)
        ensures
            r == (PlotConfig {
                voltage: false,
                d_lines: false,
                current: false,
                power: false,
                temperature: false,
                energy: false,
                capacity: false,
            }),
    {
        PlotConfig {
            voltage: false,
            d_lines: false,
            current: false,
            power: false,
            temperature: false,
            energy: false,
            capacity: false,
        }
    }
}

/// A running total: its exact value, and the narrowed one that is stored.
#[derive(Debug, Clone, Copy, PartialEq, Eq, Structural)]
pub struct Total {
    pub exact: F64,
    pub narrow: F32,
}

/// The extremes of `values`, front to back: a NaN changes nothing, and of equal
/// values the first stays. No number at all leaves the empty interval.
pub open spec fn extremes(values: Seq<F32>) -> (F32, F32)
    decreases values.len(),
{
    if values.len() == 0 {
        (F32 { bits: INFINITY_BITS }, F32 { bits: NEG_INFINITY_BITS })
    } else {
        let before = extremes(values.drop_last());
        let v = values.last();
        (if v.below(before.0) { v } else { before.0 }, if before.1.below(v) { v } else { before.1 })
    }
}

/// Fold law: no number is below the lower extreme or above the upper one, and
/// each extreme is a number, one of the values or the end of the empty interval.
pub proof fn extremes_bound_the_values(values: Seq<F32>)
    ensures
        forall|i: int|
            0 <= i < values.len() ==> !(#[trigger] values[i]).below(extremes(values).0) && !extremes(
                values,
            ).1.below(values[i]),
        !extremes(values).0.nan() && !extremes(values).1.nan(),
        extremes(values).0 == (F32 { bits: INFINITY_BITS }) || values.contains(extremes(values).0),
        extremes(values).1 == (F32 { bits: NEG_INFINITY_BITS }) || values.contains(
            extremes(values).1,
        ),
    decreases values.len(),
{
    if values.len() > 0 {
        let init = values.drop_last();
        let v = values.last();
        extremes_bound_the_values(init);
        let before = extremes(init);
        assert forall|i: int| 0 <= i < values.len() implies !(#[trigger] values[i]).below(
            extremes(values).0,
        ) && !extremes(values).1.below(values[i]) by {
            if i < init.len() {
                assert(values[i] == init[i]);
            }
        }
        assert(values[values.len() - 1] == v);
        if init.contains(before.0) {
            let k = choose|k: int| 0 <= k < init.len() && init[k] == before.0;
            assert(values[k] == before.0);
        }
        if init.contains(before.1) {
            let k = choose|k: int| 0 <= k < init.len() && init[k] == before.1;
            assert(values[k] == before.1);
        }
    }
}

/// One channel of `samples`, value by value.
pub open spec fn column(samples: Seq<PlotSample>, channel: Channel) -> Seq<F32> {
    Seq::new(samples.len(), |i: int| channel.value(samples[i]))
}

/// Decimation law: folding the raw values of a channel gives the same extremes
/// as the channel's summary, so both ways of decimating draw the same line.
pub proof fn raw_fold_matches_summary(samples: Seq<PlotSample>, channel: Channel)
    ensures
        extremes(column(samples, channel)) == MinMax::of(samples, channel).interval(),
    decreases samples.len(),
{
    if samples.len() > 0 {
        let all = column(samples, channel);
        let init = samples.drop_last();
        raw_fold_matches_summary(init, channel);
        decimation::summary_is_wf(init, channel);
        assert(all.drop_last() =~= column(init, channel));
    }
}

/// Whether timestamps never go back.
pub open spec fn chronological(samples: Seq<PlotSample>) -> bool {
    forall|i: int, j: int|
        0 <= i <= j < samples.len() ==> (#[trigger] samples[i]).timestamp_ms <= (
        #[trigger] samples[j]).timestamp_ms
}

/// Whether a timestamp comes before the cut at `ms`; at `ms` itself, only
/// where the cut is `inclusive`.
pub open spec fn precedes(timestamp_ms: u64, ms: u64, inclusive: bool) -> bool {
    timestamp_ms < ms || (inclusive && timestamp_ms == ms)
}

/// The index, between `lo` and `hi`, that bisection finds for the cut at `ms`.
pub open spec fn bisected(
    samples: Seq<PlotSample>,
    ms: u64,
    inclusive: bool,
    lo: int,
    hi: int,
) -> int
    decreases hi - lo,
{
    if lo >= hi {
        lo
    } else {
        let mid = lo + (hi - lo) / 2;
        if precedes(samples[mid].timestamp_ms, ms, inclusive) {
            bisected(samples, ms, inclusive, mid + 1, hi)
        } else {
            bisected(samples, ms, inclusive, lo, mid)
        }
    }
}

/// The index of the cut at `ms`.
pub open spec fn cut(samples: Seq<PlotSample>, ms: u64, inclusive: bool) -> int {
    bisected(samples, ms, inclusive, 0, samples.len() as int)
}

proof fn bisected_separates(
    samples: Seq<PlotSample>,
    ms: u64,
    inclusive: bool,
    lo: int,
    hi: int,
)
    requires
        0 <= lo <= hi <= samples.len(),
    ensures
        lo <= bisected(samples, ms, inclusive, lo, hi) <= hi,
        ({
            let at = bisected(samples, ms, inclusive, lo, hi);
            &&& at > lo ==> precedes(samples[at - 1].timestamp_ms, ms, inclusive)
            &&& at < hi ==> !precedes(samples[at].timestamp_ms, ms, inclusive)
        }),
    decreases hi - lo,
{
    if lo < hi {
        let mid = lo + (hi - lo) / 2;
        if precedes(samples[mid].timestamp_ms, ms, inclusive) {
            bisected_separates(samples, ms, inclusive, mid + 1, hi);
        } else {
            bisected_separates(samples, ms, inclusive, lo, mid);
        }
    }
}

/// Search law: over chronological samples the cut has every earlier sample
/// before it and every later one behind it, duplicates included.
pub proof fn cut_separates(samples: Seq<PlotSample>, ms: u64, inclusive: bool)
    requires
        chronological(samples),
    ensures
        0 <= cut(samples, ms, inclusive) <= samples.len(),
        forall|i: int|
            0 <= i < cut(samples, ms, inclusive) ==> precedes(
                (#[trigger] samples[i]).timestamp_ms,
                ms,
                inclusive,
            ),
        forall|i: int|
            cut(samples, ms, inclusive) <= i < samples.len() ==> !precedes(
                (#[trigger] samples[i]).timestamp_ms,
                ms,
                inclusive,
            ),
{
    bisected_separates(samples, ms, inclusive, 0, samples.len() as int);
    let at = cut(samples, ms, inclusive);
    assert forall|i: int| 0 <= i < at implies precedes(
        (#[trigger] samples[i]).timestamp_ms,
        ms,
        inclusive,
    ) by {
        assert(samples[i].timestamp_ms <= samples[at - 1].timestamp_ms);
    }
    assert forall|i: int| at <= i < samples.len() implies !precedes(
        (#[trigger] samples[i]).timestamp_ms,
        ms,
        inclusive,
    ) by {
        assert(samples[at].timestamp_ms <= samples[i].timestamp_ms);
    }
}

/// The active index range: the whole buffer, or, zoomed in to a span of
/// milliseconds, the samples in it with one more on either side.
pub open spec fn visible(samples: Seq<PlotSample>, zoom: Option<(u64, u64)>) -> (int, int) {
    let count = samples.len() as int;
    match zoom {
        None => (0, count),
        Some((min_ms, max_ms)) => {
            let from = cut(samples, min_ms, false);
            let to = cut(samples, max_ms, true) + 1;
            (if from > 0 { from - 1 } else { 0 }, if to < count { to } else { count })
        },
    }
}

/// Zoom law: over chronological samples the active range is in order, and no
/// sample of the span is left out.
pub proof fn zoom_keeps_the_span(samples: Seq<PlotSample>, min_ms: u64, max_ms: u64)
    requires
        chronological(samples),
        min_ms <= max_ms,
    ensures
        ({
            let range = visible(samples, Some((min_ms, max_ms)));
            &&& 0 <= range.0 <= range.1 <= samples.len()
            &&& forall|i: int|
                0 <= i < samples.len() && min_ms <= (#[trigger] samples[i]).timestamp_ms <= max_ms
                    ==> range.0 <= i < range.1
        }),
{
    cut_separates(samples, min_ms, false);
    cut_separates(samples, max_ms, true);
    let from = cut(samples, min_ms, false);
    let to = cut(samples, max_ms, true);
    if from > to {
        assert(precedes(samples[to].timestamp_ms, min_ms, false));
    }
}

/// The samples of `from..to` as points, each at its own timestamp.
pub open spec fn plain(
    samples: Seq<PlotSample>,
    values: Seq<F32>,
    from: int,
    to: int,
) -> Seq<PlotPoint> {
    Seq::new(
        (to - from) as nat,
        |i: int|
            PlotPoint { timestamp_ms: samples[from + i].timestamp_ms, value: values[from + i] },
    )
}

/// The points of the first `upto` buckets of the `len` samples from `from` on.
pub open spec fn bucketed(
    samples: Seq<PlotSample>,
    values: Seq<F32>,
    from: int,
    len: int,
    buckets: int,
    upto: int,
) -> Seq<PlotPoint>
    decreases upto,
{
    if upto <= 0 {
        Seq::empty()
    } else {
        let before = bucketed(samples, values, from, len, buckets, upto - 1);
        let lo = from + decimation::split_at(len, buckets, upto - 1);
        let hi = from + decimation::split_at(len, buckets, upto);
        if lo >= hi {
            before
        } else {
            let ends = extremes(values.subrange(lo, hi));
            before + decimation::bucket_points(samples[(lo + hi) / 2].timestamp_ms, ends.0, ends.1)
        }
    }
}

/// How many buckets a limit of `max_points` allows.
pub open spec fn bucket_budget(max_points: int) -> int {
    if max_points / 2 > 1 {
        max_points / 2
    } else {
        1
    }
}

/// The line that is drawn: every sample without level of detail, every active
/// one where they fit in `max_points` (0 sets no limit), and otherwise the
/// extremes of each bucket, at the timestamp of its middle sample.
pub open spec fn plotted(
    samples: Seq<PlotSample>,
    values: Seq<F32>,
    max_points: int,
    zoom: Option<(u64, u64)>,
    lod_enabled: bool,
) -> Seq<PlotPoint> {
    let (from, to) = visible(samples, zoom);
    if !lod_enabled {
        plain(samples, values, 0, samples.len() as int)
    } else if max_points == 0 || to - from <= max_points {
        plain(samples, values, from, to)
    } else {
        let buckets = bucket_budget(max_points);
        bucketed(samples, values, from, to - from, buckets, buckets)
    }
}

/// Whether a point marks a gap, or shows one of the values from `from` to `to`
/// at the timestamp of one of the samples there.
pub open spec fn shows(
    samples: Seq<PlotSample>,
    values: Seq<F32>,
    from: int,
    to: int,
    point: PlotPoint,
) -> bool {
    &&& exists|i: int|
        from <= i < to && (#[trigger] samples[i]).timestamp_ms == point.timestamp_ms
    &&& point.value == (F32 { bits: crate::float::NAN_BITS }) || exists|i: int|
        from <= i < to && #[trigger] values[i] == point.value
}

proof fn bucketed_shows_values(
    samples: Seq<PlotSample>,
    values: Seq<F32>,
    from: int,
    len: int,
    buckets: int,
    upto: int,
    k: int,
)
    requires
        0 <= from,
        0 <= len,
        from + len <= samples.len(),
        values.len() == samples.len(),
        0 <= upto <= buckets,
        0 < buckets,
        0 <= k < bucketed(samples, values, from, len, buckets, upto).len(),
    ensures
        shows(
            samples,
            values,
            from,
            from + len,
            bucketed(samples, values, from, len, buckets, upto)[k],
        ),
    decreases upto,
{
    if upto > 0 {
        let before = bucketed(samples, values, from, len, buckets, upto - 1);
        let point = bucketed(samples, values, from, len, buckets, upto)[k];
        if k < before.len() {
            bucketed_shows_values(samples, values, from, len, buckets, upto - 1, k);
        } else {
            decimation::split_is_bounded(len, buckets, upto - 1);
            decimation::split_is_bounded(len, buckets, upto);
            let lo = from + decimation::split_at(len, buckets, upto - 1);
            let hi = from + decimation::split_at(len, buckets, upto);
            let part = values.subrange(lo, hi);
            let ends = extremes(part);
            extremes_bound_the_values(part);
            assert(samples[(lo + hi) / 2].timestamp_ms == point.timestamp_ms);
            if !decimation::is_gap(ends.0, ends.1) {
                let v = point.value;
                assert(v == ends.0 || v == ends.1);
                if v == ends.1 && !part.contains(v) {
                    assert(part.contains(ends.0));
                    let i = choose|i: int| 0 <= i < part.len() && part[i] == ends.0;
                    assert(!ends.1.below(part[i]));
                }
                let i = choose|i: int| 0 <= i < part.len() && part[i] == v;
                assert(values[lo + i] == v);
            }
        }
    }
}

/// Decimation law: a drawn line invents nothing. Each of its points marks a gap
/// or shows a value of the series, at the timestamp of a sample.
pub proof fn plotted_points_show_values(
    samples: Seq<PlotSample>,
    values: Seq<F32>,
    max_points: int,
    zoom: Option<(u64, u64)>,
    lod_enabled: bool,
    k: int,
)
    requires
        values.len() == samples.len(),
        max_points >= 0,
        visible(samples, zoom).0 <= visible(samples, zoom).1,
        0 <= k < plotted(samples, values, max_points, zoom, lod_enabled).len(),
    ensures
        shows(
            samples,
            values,
            0,
            samples.len() as int,
            plotted(samples, values, max_points, zoom, lod_enabled)[k],
        ),
{
    let (from, to) = visible(samples, zoom);
    let point = plotted(samples, values, max_points, zoom, lod_enabled)[k];
    if let Some((min_ms, max_ms)) = zoom {
        bisected_separates(samples, min_ms, false, 0, samples.len() as int);
        bisected_separates(samples, max_ms, true, 0, samples.len() as int);
    }
    if !lod_enabled {
        assert(samples[k].timestamp_ms == point.timestamp_ms);
        assert(values[k] == point.value);
    } else if max_points == 0 || to - from <= max_points {
        assert(samples[from + k].timestamp_ms == point.timestamp_ms);
        assert(values[from + k] == point.value);
    } else {
        let buckets = bucket_budget(max_points);
        bucketed_shows_values(samples, values, from, to - from, buckets, buckets, k);
        assert(shows(samples, values, from, to, point));
        let i = choose|i: int|
            from <= i < to && (#[trigger] samples[i]).timestamp_ms == point.timestamp_ms;
        assert(0 <= i < samples.len() && samples[i].timestamp_ms == point.timestamp_ms);
    }
}

proof fn bucketed_is_bounded(
    samples: Seq<PlotSample>,
    values: Seq<F32>,
    from: int,
    len: int,
    buckets: int,
    upto: int,
)
    requires
        0 <= upto,
    ensures
        bucketed(samples, values, from, len, buckets, upto).len() <= 2 * upto,
    decreases upto,
{
    if upto > 0 {
        bucketed_is_bounded(samples, values, from, len, buckets, upto - 1);
    }
}

/// Decimation law: with level of detail on, a limit of two points or more is
/// kept.
pub proof fn decimation_keeps_the_limit(
    samples: Seq<PlotSample>,
    values: Seq<F32>,
    max_points: int,
    zoom: Option<(u64, u64)>,
)
    requires
        max_points >= 2,
        visible(samples, zoom).0 <= visible(samples, zoom).1,
    ensures
        plotted(samples, values, max_points, zoom, true).len() <= max_points,
{
    let (from, to) = visible(samples, zoom);
    let buckets = bucket_budget(max_points);
    bucketed_is_bounded(samples, values, from, to - from, buckets, buckets);
}

proof fn bucketed_is_in_order(
    samples: Seq<PlotSample>,
    values: Seq<F32>,
    from: int,
    len: int,
    buckets: int,
    upto: int,
)
    requires
        chronological(samples),
        0 <= from,
        0 <= len,
        from + len <= samples.len(),
        0 <= upto <= buckets,
        0 < buckets,
    ensures
        in_order(bucketed(samples, values, from, len, buckets, upto)),
        forall|k: int, x: int|
            0 <= k < bucketed(samples, values, from, len, buckets, upto).len() && from
                + decimation::split_at(len, buckets, upto) <= x < samples.len() ==> (
            #[trigger] bucketed(samples, values, from, len, buckets, upto)[k]).timestamp_ms <= (
            #[trigger] samples[x]).timestamp_ms,
    decreases upto,
{
    if upto > 0 {
        bucketed_is_in_order(samples, values, from, len, buckets, upto - 1);
        decimation::split_is_bounded(len, buckets, upto - 1);
        decimation::split_is_bounded(len, buckets, upto);
        decimation::split_is_monotonic(len, buckets, upto - 1);
        let before = bucketed(samples, values, from, len, buckets, upto - 1);
        let all = bucketed(samples, values, from, len, buckets, upto);
        let lo = from + decimation::split_at(len, buckets, upto - 1);
        let hi = from + decimation::split_at(len, buckets, upto);
        if lo < hi {
            let mid = (lo + hi) / 2;
            assert forall|k: int| before.len() <= k < all.len() implies (
            #[trigger] all[k]).timestamp_ms == samples[mid].timestamp_ms by {}
            assert forall|k: int| 0 <= k < before.len() implies #[trigger] all[k] == before[k] by {}
        }
    }
}

/// Whether the times along a line never go back.
pub open spec fn in_order(line: Seq<PlotPoint>) -> bool {
    forall|i: int, j: int|
        0 <= i <= j < line.len() ==> (#[trigger] line[i]).timestamp_ms <= (
        #[trigger] line[j]).timestamp_ms
}

/// Decimation law: over chronological samples, the times along a drawn line
/// never go back.
pub proof fn plotted_times_never_go_back(
    samples: Seq<PlotSample>,
    values: Seq<F32>,
    max_points: int,
    zoom: Option<(u64, u64)>,
    lod_enabled: bool,
)
    requires
        chronological(samples),
        values.len() == samples.len(),
        max_points >= 0,
        zoom matches Some((min_ms, max_ms)) ==> min_ms <= max_ms,
    ensures
        in_order(plotted(samples, values, max_points, zoom, lod_enabled)),
{
    let (from, to) = visible(samples, zoom);
    if let Some((min_ms, max_ms)) = zoom {
        zoom_keeps_the_span(samples, min_ms, max_ms);
    }
    let buckets = bucket_budget(max_points);
    bucketed_is_in_order(samples, values, from, to - from, buckets, buckets);
}

proof fn bucket_of(count: int, parts: int, x: int, from: int) -> (b: int)
    requires
        0 < parts,
        0 <= from < parts,
        0 <= count,
        decimation::split_at(count, parts, from) <= x < count,
    ensures
        from <= b < parts,
        decimation::split_at(count, parts, b) <= x < decimation::split_at(count, parts, b + 1),
    decreases parts - from,
{
    decimation::split_is_bounded(count, parts, from);
    if x < decimation::split_at(count, parts, from + 1) {
        from
    } else {
        bucket_of(count, parts, x, from + 1)
    }
}

proof fn earlier_buckets_stay(
    samples: Seq<PlotSample>,
    values: Seq<F32>,
    from: int,
    len: int,
    buckets: int,
    upto: int,
    all: int,
)
    requires
        0 <= upto <= all,
    ensures
        ({
            let some = bucketed(samples, values, from, len, buckets, upto);
            let every = bucketed(samples, values, from, len, buckets, all);
            &&& some.len() <= every.len()
            &&& forall|k: int| 0 <= k < some.len() ==> #[trigger] every[k] == some[k]
        }),
    decreases all - upto,
{
    if upto < all {
        earlier_buckets_stay(samples, values, from, len, buckets, upto, all - 1);
    }
}

/// Where the points of a bucket that is not empty begin in the drawn line.
proof fn bucket_is_drawn(
    samples: Seq<PlotSample>,
    values: Seq<F32>,
    max_points: int,
    zoom: Option<(u64, u64)>,
    b: int,
) -> (k: int)
    requires
        values.len() == samples.len(),
        max_points > 0,
        visible(samples, zoom).1 - visible(samples, zoom).0 > max_points,
        0 <= b < bucket_budget(max_points),
        ({
            let (from, to) = visible(samples, zoom);
            let parts = bucket_budget(max_points);
            decimation::split_at(to - from, parts, b) < decimation::split_at(to - from, parts, b + 1)
        }),
    ensures
        ({
            let (from, to) = visible(samples, zoom);
            let parts = bucket_budget(max_points);
            let start = from + decimation::split_at(to - from, parts, b);
            let end = from + decimation::split_at(to - from, parts, b + 1);
            let line = plotted(samples, values, max_points, zoom, true);
            let ends = extremes(values.subrange(start, end));
            let points = decimation::bucket_points(
                samples[(start + end) / 2].timestamp_ms,
                ends.0,
                ends.1,
            );
            &&& 0 <= k
            &&& k + points.len() <= line.len()
            &&& forall|m: int| 0 <= m < points.len() ==> line[k + m] == #[trigger] points[m]
        }),
{
    let (from, to) = visible(samples, zoom);
    let parts = bucket_budget(max_points);
    let k = bucketed(samples, values, from, to - from, parts, b).len() as int;
    earlier_buckets_stay(samples, values, from, to - from, parts, b + 1, parts);
    k
}

proof fn visible_is_within(samples: Seq<PlotSample>, zoom: Option<(u64, u64)>)
    ensures
        0 <= visible(samples, zoom).0,
        visible(samples, zoom).1 <= samples.len(),
{
    if let Some((min_ms, max_ms)) = zoom {
        bisected_separates(samples, min_ms, false, 0, samples.len() as int);
        bisected_separates(samples, max_ms, true, 0, samples.len() as int);
    }
}

/// Decimation law: no extreme is lost. Where the visible samples are more than
/// the points that may be drawn, they fall into equal buckets, and the bucket of
/// every finite value is drawn as two neighbouring points at the timestamp of
/// its middle sample. Both are values of the bucket, none of its values is below
/// the first or above the second. (A bucket with both infinities is a gap.)
///
/// The result is the bucket of value `i`, and where its points stand.
pub proof fn decimation_loses_no_extreme(
    samples: Seq<PlotSample>,
    values: Seq<F32>,
    max_points: int,
    zoom: Option<(u64, u64)>,
    i: int,
) -> (found: (int, int))
    requires
        values.len() == samples.len(),
        max_points > 0,
        visible(samples, zoom).1 - visible(samples, zoom).0 > max_points,
        visible(samples, zoom).0 <= i < visible(samples, zoom).1,
        !values[i].nan(),
        !values[i].infinite(),
    ensures
        ({
            let (from, to) = visible(samples, zoom);
            let parts = if max_points < 4 {
                1
            } else {
                max_points / 2
            };
            let start = from + found.0 * (to - from) / parts;
            let end = from + (found.0 + 1) * (to - from) / parts;
            let line = plotted(samples, values, max_points, zoom, true);
            let k = found.1;
            &&& 0 <= found.0 < parts
            &&& from <= start <= i < end <= to
            &&& decimation::infinite_to_one_side(values.subrange(start, end)) ==> {
                &&& 0 <= k
                &&& k + 1 < line.len()
                &&& line[k].timestamp_ms == samples[(start + end) / 2].timestamp_ms
                &&& line[k + 1].timestamp_ms == samples[(start + end) / 2].timestamp_ms
                &&& !line[k].value.nan() && !values[i].below(line[k].value)
                &&& !line[k + 1].value.nan() && !line[k + 1].value.below(values[i])
                &&& decimation::spanned(
                    values.subrange(start, end),
                    line[k].value,
                    line[k + 1].value,
                )
            }
        }),
{
    visible_is_within(samples, zoom);
    let (from, to) = visible(samples, zoom);
    let len = to - from;
    let parts = bucket_budget(max_points);
    decimation::split_is_bounded(len, parts, 0);
    let b = bucket_of(len, parts, i - from, 0);
    decimation::split_is_bounded(len, parts, b);
    decimation::split_is_bounded(len, parts, b + 1);
    let start = from + decimation::split_at(len, parts, b);
    let end = from + decimation::split_at(len, parts, b + 1);
    let k = bucket_is_drawn(samples, values, max_points, zoom, b);
    let line = plotted(samples, values, max_points, zoom, true);
    let part = values.subrange(start, end);
    let ends = extremes(part);
    let x = samples[(start + end) / 2].timestamp_ms;
    extremes_bound_the_values(part);
    assert(part[i - start] == values[i]);
    if decimation::infinite_to_one_side(part) {
        decimation::finite_values_are_drawn(part, x, ends.0, ends.1, i - start);
        let points = decimation::bucket_points(x, ends.0, ends.1);
        assert(line[k + 0] == points[0]);
        assert(line[k + 1] == points[1]);
    }
    (b, k)
}

/// Drawing law: where nothing visible is infinite, the line reaches the lowest
/// and the highest of the visible values, whatever the number of samples. The
/// result is where it does.
pub proof fn the_outermost_values_are_drawn(
    samples: Seq<PlotSample>,
    values: Seq<F32>,
    max_points: int,
    zoom: Option<(u64, u64)>,
    i: int,
) -> (k: int)
    requires
        values.len() == samples.len(),
        max_points >= 0,
        visible(samples, zoom).0 <= i < visible(samples, zoom).1,
        !values[i].nan(),
        forall|j: int|
            visible(samples, zoom).0 <= j < visible(samples, zoom).1 ==> !(
            #[trigger] values[j]).infinite(),
        (forall|j: int|
            visible(samples, zoom).0 <= j < visible(samples, zoom).1 ==> !(
            #[trigger] values[j]).below(values[i])) || (forall|j: int|
            visible(samples, zoom).0 <= j < visible(samples, zoom).1 ==> !values[i].below(
                #[trigger] values[j],
            )),
    ensures
        ({
            let line = plotted(samples, values, max_points, zoom, true);
            &&& 0 <= k < line.len()
            &&& !line[k].value.nan()
            &&& !line[k].value.below(values[i])
            &&& !values[i].below(line[k].value)
        }),
{
    visible_is_within(samples, zoom);
    let (from, to) = visible(samples, zoom);
    if max_points == 0 || to - from <= max_points {
        undecimated_lines_are_the_samples(samples, values, max_points, zoom);
        i - from
    } else {
        let (b, k) = decimation_loses_no_extreme(samples, values, max_points, zoom, i);
        let line = plotted(samples, values, max_points, zoom, true);
        if !line[k].value.below(values[i]) {
            k
        } else {
            k + 1
        }
    }
}

/// Decimation law: a bucket without a finite number is drawn as one gap, at the
/// timestamp of its middle sample. The result is where it stands.
pub proof fn decimation_draws_the_gaps(
    samples: Seq<PlotSample>,
    values: Seq<F32>,
    max_points: int,
    zoom: Option<(u64, u64)>,
    b: int,
) -> (k: int)
    requires
        values.len() == samples.len(),
        max_points > 0,
        visible(samples, zoom).1 - visible(samples, zoom).0 > max_points,
        0 <= b < if max_points < 4 {
            1
        } else {
            max_points / 2
        },
        ({
            let (from, to) = visible(samples, zoom);
            let parts = if max_points < 4 {
                1
            } else {
                max_points / 2
            };
            let start = from + b * (to - from) / parts;
            let end = from + (b + 1) * (to - from) / parts;
            start < end && decimation::without_a_number(values.subrange(start, end))
        }),
    ensures
        ({
            let (from, to) = visible(samples, zoom);
            let parts = if max_points < 4 {
                1
            } else {
                max_points / 2
            };
            let start = from + b * (to - from) / parts;
            let end = from + (b + 1) * (to - from) / parts;
            let line = plotted(samples, values, max_points, zoom, true);
            &&& 0 <= k < line.len()
            &&& line[k].timestamp_ms == samples[(start + end) / 2].timestamp_ms
            &&& line[k].value.nan()
        }),
{
    visible_is_within(samples, zoom);
    let (from, to) = visible(samples, zoom);
    let len = to - from;
    let parts = bucket_budget(max_points);
    decimation::split_is_bounded(len, parts, b);
    decimation::split_is_bounded(len, parts, b + 1);
    let start = from + decimation::split_at(len, parts, b);
    let end = from + decimation::split_at(len, parts, b + 1);
    let k = bucket_is_drawn(samples, values, max_points, zoom, b);
    let part = values.subrange(start, end);
    extremes_bound_the_values(part);
    let ends = extremes(part);
    let x = samples[(start + end) / 2].timestamp_ms;
    decimation::values_without_a_number_are_a_gap(part, x, ends.0, ends.1);
    let points = decimation::bucket_points(x, ends.0, ends.1);
    assert(plotted(samples, values, max_points, zoom, true)[k + 0] == points[0]);
    k
}

/// Drawing law: where nothing is decimated, the line is the samples themselves,
/// each at its own timestamp: all of them without level of detail, the visible
/// ones with it.
pub proof fn undecimated_lines_are_the_samples(
    samples: Seq<PlotSample>,
    values: Seq<F32>,
    max_points: int,
    zoom: Option<(u64, u64)>,
)
    requires
        values.len() == samples.len(),
        visible(samples, zoom).0 <= visible(samples, zoom).1,
    ensures
        plotted(samples, values, max_points, zoom, false).len() == samples.len(),
        forall|i: int|
            0 <= i < samples.len() ==> {
                let point = #[trigger] plotted(samples, values, max_points, zoom, false)[i];
                point.timestamp_ms == samples[i].timestamp_ms && point.value == values[i]
            },
        ({
            let (from, to) = visible(samples, zoom);
            max_points == 0 || to - from <= max_points ==> {
                &&& plotted(samples, values, max_points, zoom, true).len() == to - from
                &&& forall|i: int|
                    0 <= i < to - from ==> {
                        let point = #[trigger] plotted(samples, values, max_points, zoom, true)[i];
                        point.timestamp_ms == samples[from + i].timestamp_ms && point.value
                            == values[from + i]
                    }
            }
        }),
{
}

/// Zoom law: without a zoom every sample is visible. Over chronological samples,
/// a zoom shows at most one sample before its span and one behind it.
pub proof fn zoom_shows_little_more_than_the_span(
    samples: Seq<PlotSample>,
    min_ms: u64,
    max_ms: u64,
)
    requires
        chronological(samples),
    ensures
        visible(samples, None) == (0int, samples.len() as int),
        ({
            let range = visible(samples, Some((min_ms, max_ms)));
            forall|i: int|
                range.0 < i < range.1 - 1 ==> min_ms <= (#[trigger] samples[i]).timestamp_ms
                    <= max_ms
        }),
{
    cut_separates(samples, min_ms, false);
    cut_separates(samples, max_ms, true);
}

/// The buffer after one more sample: the oldest makes room where it is full.
pub open spec fn ring_pushed<T>(rows: Seq<T>, capacity: int, row: T) -> Seq<T> {
    if rows.len() >= capacity && rows.len() > 0 {
        rows.subrange(1, rows.len() as int).push(row)
    } else {
        rows.push(row)
    }
}

/// Buffer law: a push keeps the capacity, and the newest sample is last.
pub proof fn ring_keeps_the_capacity<T>(rows: Seq<T>, capacity: int, row: T)
    requires
        capacity > 0,
        rows.len() <= capacity,
    ensures
        ring_pushed(rows, capacity, row).len() <= capacity,
        ring_pushed(rows, capacity, row).last() == row,
{
}

/// The buffer after each of `incoming` in turn.
pub open spec fn ring_pushed_all<T>(rows: Seq<T>, capacity: int, incoming: Seq<T>) -> Seq<T>
    decreases incoming.len(),
{
    if incoming.len() == 0 {
        rows
    } else {
        ring_pushed(
            ring_pushed_all(rows, capacity, incoming.drop_last()),
            capacity,
            incoming.last(),
        )
    }
}

/// Buffer law: what an empty buffer of capacity `capacity` holds after any
/// number of pushes is the newest `capacity` of them, in order.
pub proof fn ring_holds_the_newest<T>(capacity: int, incoming: Seq<T>)
    requires
        capacity > 0,
    ensures
        ring_pushed_all(Seq::<T>::empty(), capacity, incoming) == incoming.subrange(
            if incoming.len() > capacity { incoming.len() - capacity } else { 0 },
            incoming.len() as int,
        ),
    decreases incoming.len(),
{
    if incoming.len() == 0 {
        assert(incoming.subrange(0, 0) =~= Seq::<T>::empty());
    } else {
        ring_holds_the_newest(capacity, incoming.drop_last());
        assert(ring_pushed_all(Seq::<T>::empty(), capacity, incoming) =~= incoming.subrange(
            if incoming.len() > capacity { incoming.len() - capacity } else { 0 },
            incoming.len() as int,
        ));
    }
}

/// Buffer law: a push into a buffer that is full, or holds more than its
/// capacity, drops the oldest row and no other; any other push drops none.
pub proof fn ring_drops_the_oldest<T>(rows: Seq<T>, capacity: int, row: T)
    ensures
        ring_pushed(rows, capacity, row).last() == row,
        rows.len() >= capacity && rows.len() > 0 ==> {
            &&& ring_pushed(rows, capacity, row).len() == rows.len()
            &&& forall|i: int|
                0 <= i < rows.len() - 1 ==> #[trigger] ring_pushed(rows, capacity, row)[i] == rows[i
                    + 1]
        },
        rows.len() < capacity || rows.len() == 0 ==> {
            &&& ring_pushed(rows, capacity, row).len() == rows.len() + 1
            &&& forall|i: int|
                0 <= i < rows.len() ==> #[trigger] ring_pushed(rows, capacity, row)[i] == rows[i]
        },
{
}

/// The newest value that is a number, given the one known before.
pub open spec fn fresher(known: Option<F32>, value: F32) -> Option<F32> {
    if value.nan() {
        known
    } else {
        Some(value)
    }
}

/// The newest total whose stored form is a number, given the one known before.
pub open spec fn fresher_total(known: Option<F64>, total: Total) -> Option<F64> {
    if total.narrow.nan() {
        known
    } else {
        Some(total.exact)
    }
}

fn fresher_of(known: Option<F32>, value: F32) -> (r: Option<F32>)
    ensures
        r == fresher(known, value),
{
    if value.is_nan() {
        known
    } else {
        Some(value)
    }
}

fn fresher_total_of(known: Option<F64>, total: Total) -> (r: Option<F64>)
    ensures
        r == fresher_total(known, total),
{
    if total.narrow.is_nan() {
        known
    } else {
        Some(total.exact)
    }
}

/// The newest value of each series that was a number when it was pushed.
#[derive(Debug, Clone, Copy, PartialEq, Eq, Structural)]
pub struct Latest {
    pub voltage: Option<F32>,
    pub current: Option<F32>,
    pub power: Option<F32>,
    pub temp: Option<F32>,
    pub energy: Option<F64>,
    pub capacity: Option<F64>,
}

impl Latest {
    /// Nothing known yet.
    pub open spec fn none() -> Latest {
        Latest {
            voltage: None,
            current: None,
            power: None,
            temp: None,
            energy: None,
            capacity: None,
        }
    }

    /// These values after one more sample.
    pub open spec fn updated(self, sample: Sample, energy: Total, capacity: Total) -> Latest {
        Latest {
            voltage: fresher(self.voltage, sample.voltage_v),
            current: fresher(self.current, sample.current_a),
            power: fresher(self.power, sample.power_w),
            temp: fresher(self.temp, sample.temp_c),
            energy: fresher_total(self.energy, energy),
            capacity: fresher_total(self.capacity, capacity),
        }
    }

    /// Nothing known yet.
    pub fn empty() -> (r: Latest)
        ensures
            r == Latest::none(),
    {
        Latest {
            voltage: None,
            current: None,
            power: None,
            temp: None,
            energy: None,
            capacity: None,
        }
    }

    /// Take one more sample into account.
    pub fn update(&mut self, sample: &Sample, energy: Total, capacity: Total)
        ensures
            *final(self) == old(self).updated(*sample, energy, capacity),
    {
        self.voltage = fresher_of(self.voltage, sample.voltage_v);
        self.current = fresher_of(self.current, sample.current_a);
        self.power = fresher_of(self.power, sample.power_w);
        self.temp = fresher_of(self.temp, sample.temp_c);
        self.energy = fresher_total_of(self.energy, energy);
        self.capacity = fresher_total_of(self.capacity, capacity);
    }
}

/// The newest values after all of `samples`, each with its totals.
pub open spec fn latest_of(samples: Seq<Sample>, totals: Seq<(Total, Total)>) -> Latest
    decreases samples.len(),
{
    if samples.len() == 0 {
        Latest::none()
    } else {
        latest_of(samples.drop_last(), totals.drop_last()).updated(
            samples.last(),
            totals.last().0,
            totals.last().1,
        )
    }
}

/// Title law: the newest value of a series is the last that was a number, from
/// whichever sample it came; nothing is known where there was none.
pub proof fn latest_is_the_last_number(samples: Seq<Sample>, totals: Seq<(Total, Total)>, i: int)
    requires
        totals.len() == samples.len(),
        0 <= i < samples.len(),
    ensures
        !samples[i].voltage_v.nan() && (forall|j: int|
            i < j < samples.len() ==> (#[trigger] samples[j]).voltage_v.nan()) ==> latest_of(
            samples,
            totals,
        ).voltage == Some(samples[i].voltage_v),
        !samples[i].current_a.nan() && (forall|j: int|
            i < j < samples.len() ==> (#[trigger] samples[j]).current_a.nan()) ==> latest_of(
            samples,
            totals,
        ).current == Some(samples[i].current_a),
        !samples[i].power_w.nan() && (forall|j: int|
            i < j < samples.len() ==> (#[trigger] samples[j]).power_w.nan()) ==> latest_of(
            samples,
            totals,
        ).power == Some(samples[i].power_w),
        !samples[i].temp_c.nan() && (forall|j: int|
            i < j < samples.len() ==> (#[trigger] samples[j]).temp_c.nan()) ==> latest_of(
            samples,
            totals,
        ).temp == Some(samples[i].temp_c),
        !totals[i].0.narrow.nan() && (forall|j: int|
            i < j < totals.len() ==> (#[trigger] totals[j]).0.narrow.nan()) ==> latest_of(
            samples,
            totals,
        ).energy == Some(totals[i].0.exact),
        !totals[i].1.narrow.nan() && (forall|j: int|
            i < j < totals.len() ==> (#[trigger] totals[j]).1.narrow.nan()) ==> latest_of(
            samples,
            totals,
        ).capacity == Some(totals[i].1.exact),
    decreases samples.len(),
{
    let init = samples.drop_last();
    let rest = totals.drop_last();
    let last = samples.len() - 1;
    if i < last {
        latest_is_the_last_number(init, rest, i);
        assert(samples[last] == samples.last());
        assert(totals[last] == totals.last());
        assert(forall|j: int| 0 <= j < last ==> #[trigger] init[j] == samples[j]);
        assert(forall|j: int| 0 <= j < last ==> #[trigger] rest[j] == totals[j]);
    }
}

/// Title law: where no sample of a series was a number, nothing is known of it.
pub proof fn latest_is_unknown_without_a_number(samples: Seq<Sample>, totals: Seq<(Total, Total)>)
    requires
        totals.len() == samples.len(),
    ensures
        (forall|j: int| 0 <= j < samples.len() ==> (#[trigger] samples[j]).voltage_v.nan())
            ==> latest_of(samples, totals).voltage is None,
        (forall|j: int| 0 <= j < samples.len() ==> (#[trigger] samples[j]).current_a.nan())
            ==> latest_of(samples, totals).current is None,
        (forall|j: int| 0 <= j < samples.len() ==> (#[trigger] samples[j]).power_w.nan())
            ==> latest_of(samples, totals).power is None,
        (forall|j: int| 0 <= j < samples.len() ==> (#[trigger] samples[j]).temp_c.nan())
            ==> latest_of(samples, totals).temp is None,
        (forall|j: int| 0 <= j < totals.len() ==> (#[trigger] totals[j]).0.narrow.nan())
            ==> latest_of(samples, totals).energy is None,
        (forall|j: int| 0 <= j < totals.len() ==> (#[trigger] totals[j]).1.narrow.nan())
            ==> latest_of(samples, totals).capacity is None,
    decreases samples.len(),
{
    if samples.len() > 0 {
        let init = samples.drop_last();
        let rest = totals.drop_last();
        let last = samples.len() - 1;
        latest_is_unknown_without_a_number(init, rest);
        assert(samples[last] == samples.last());
        assert(totals[last] == totals.last());
        assert(forall|j: int| 0 <= j < last ==> #[trigger] init[j] == samples[j]);
        assert(forall|j: int| 0 <= j < last ==> #[trigger] rest[j] == totals[j]);
    }
}

/// Circular-buffered storage for the real-time measurement plots.
///
/// The view is the sequence of stored samples, raw registers included.
#[derive(Debug)]
pub struct PlotState {
    pub all_samples: VecDeque<PlotSample>,
    /// Export-only raw registers `(raw_voltage, raw_current)`, kept in
    /// lockstep with `all_samples` so that full samples can be rebuilt.
    pub raw_adc: VecDeque<(u32, u32)>,
    pub energy_wh: VecDeque<F32>,
    pub capacity_mah: VecDeque<F32>,
    pub sample_capacity: usize,
    /// Changes whenever the buffer is cleared.
    pub generation: u64,
    pub latest: Latest,
}

impl View for PlotState {
    type V = Seq<Sample>;

    open spec fn view(&self) -> Seq<Sample> {
        Seq::new(
            self.all_samples@.len(),
            |i: int| rejoined(self.all_samples@[i], self.raw_adc@[i]),
        )
    }
}

impl PlotState {
    /// Every series has one entry per sample.
    pub open spec fn inv(&self) -> bool {
        &&& self.raw_adc@.len() == self.all_samples@.len()
        &&& self.energy_wh@.len() == self.all_samples@.len()
        &&& self.capacity_mah@.len() == self.all_samples@.len()
    }

    /// Create a new plot state with the given sample capacity.
    pub fn new(capacity: usize) -> (r: PlotState)
        requires
            capacity * 32 <= isize::MAX,
        ensures
            r.inv(),
            r@ == Seq::<Sample>::empty(),
            r.energy_wh@ == Seq::<F32>::empty(),
            r.capacity_mah@ == Seq::<F32>::empty(),
            r.sample_capacity == capacity,
            r.generation == 0,
            r.latest == Latest::none(),
    {
        PlotState {
            all_samples: VecDeque::with_capacity(capacity),
            raw_adc: VecDeque::with_capacity(capacity),
            energy_wh: VecDeque::with_capacity(capacity),
            capacity_mah: VecDeque::with_capacity(capacity),
            sample_capacity: capacity,
            generation: 0,
            latest: Latest::empty(),
        }
    }

    /// Append a sample, discarding the oldest entry if the buffer is full.
    pub fn push(&mut self, sample: &Sample, energy_wh: Total, capacity_mah: Total)
        requires
            old(self).inv(),
        ensures
            final(self).inv(),
            final(self)@ == ring_pushed(old(self)@, old(self).sample_capacity as int, *sample),
            final(self).energy_wh@ == ring_pushed(
                old(self).energy_wh@,
                old(self).sample_capacity as int,
                energy_wh.narrow,
            ),
            final(self).capacity_mah@ == ring_pushed(
                old(self).capacity_mah@,
                old(self).sample_capacity as int,
                capacity_mah.narrow,
            ),
            final(self).sample_capacity == old(self).sample_capacity,
            final(self).generation == old(self).generation,
            final(self).latest == old(self).latest.updated(*sample, energy_wh, capacity_mah),
    {
        if self.all_samples.len() >= self.sample_capacity {
            let _ = self.all_samples.pop_front();
            let _ = self.raw_adc.pop_front();
            let _ = self.energy_wh.pop_front();
            let _ = self.capacity_mah.pop_front();
        }
        self.push_unlimited(sample, energy_wh, capacity_mah);
        assert(self@ =~= ring_pushed(old(self)@, old(self).sample_capacity as int, *sample));
    }

    /// Pre-allocate storage for `additional` more samples ahead of a
    /// known-size bulk import.
    pub fn reserve(&mut self, additional: usize)
        requires
            old(self).inv(),
            (old(self)@.len() + additional) * 32 <= isize::MAX,
        ensures
            final(self).inv(),
            final(self)@ == old(self)@,
            final(self).energy_wh@ == old(self).energy_wh@,
            final(self).capacity_mah@ == old(self).capacity_mah@,
            final(self).sample_capacity == old(self).sample_capacity,
            final(self).generation == old(self).generation,
            final(self).latest == old(self).latest,
    {
        self.all_samples.reserve(additional);
        self.raw_adc.reserve(additional);
        self.energy_wh.reserve(additional);
        self.capacity_mah.reserve(additional);
    }

    /// Append a sample without enforcing the capacity, so that an imported
    /// file is shown whole.
    pub fn push_unlimited(&mut self, sample: &Sample, energy_wh: Total, capacity_mah: Total)
        requires
            old(self).inv(),
        ensures
            final(self).inv(),
            final(self)@ == old(self)@.push(*sample),
            final(self).energy_wh@ == old(self).energy_wh@.push(energy_wh.narrow),
            final(self).capacity_mah@ == old(self).capacity_mah@.push(capacity_mah.narrow),
            final(self).sample_capacity == old(self).sample_capacity,
            final(self).generation == old(self).generation,
            final(self).latest == old(self).latest.updated(*sample, energy_wh, capacity_mah),
    {
        self.all_samples.push_back(PlotSample::of_sample(sample));
        self.raw_adc.push_back((sample.raw_voltage, sample.raw_current));
        self.energy_wh.push_back(energy_wh.narrow);
        self.capacity_mah.push_back(capacity_mah.narrow);
        self.latest.update(sample, energy_wh, capacity_mah);
        assert(self@ =~= old(self)@.push(*sample));
    }

    /// Forget every sample.
    pub fn clear(&mut self)
        ensures
            final(self).inv(),
            final(self)@ == Seq::<Sample>::empty(),
            final(self).energy_wh@ == Seq::<F32>::empty(),
            final(self).capacity_mah@ == Seq::<F32>::empty(),
            final(self).sample_capacity == old(self).sample_capacity,
            final(self).generation == (old(self).generation + 1) % 0x1_0000_0000_0000_0000,
            final(self).latest == Latest::none(),
    {
        self.all_samples.clear();
        self.raw_adc.clear();
        self.energy_wh.clear();
        self.capacity_mah.clear();
        self.generation = self.generation.wrapping_add(1);
        self.latest = Latest::empty();
    }

    /// Resize the buffer, dropping the oldest entries if needed.
    pub fn set_capacity(&mut self, new_capacity: usize)
        requires
            old(self).inv(),
        ensures
            final(self).inv(),
            final(self).sample_capacity == new_capacity,
            ({
                let len = old(self)@.len() as int;
                let gone = if len > new_capacity { len - new_capacity } else { 0 };
                &&& final(self)@ == old(self)@.subrange(gone, len)
                &&& final(self).energy_wh@ == old(self).energy_wh@.subrange(gone, len)
                &&& final(self).capacity_mah@ == old(self).capacity_mah@.subrange(gone, len)
            }),
            final(self).generation == old(self).generation,
            final(self).latest == old(self).latest,
    {
        self.sample_capacity = new_capacity;
        let len: usize = self.all_samples.len();
        if len > new_capacity {
            let excess: usize = len - new_capacity;
            self.all_samples = self.all_samples.split_off(excess);
            self.raw_adc = self.raw_adc.split_off(excess);
            self.energy_wh = self.energy_wh.split_off(excess);
            self.capacity_mah = self.capacity_mah.split_off(excess);
        }
        assert(self@ =~= old(self)@.subrange(
            if len > new_capacity { len - new_capacity } else { 0 },
            len as int,
        ));
    }

    /// The most samples that [`PlotState::push`] keeps.
    pub fn capacity(&self) -> (r: usize)
        ensures
            r == self.sample_capacity,
    {
        self.sample_capacity
    }

    /// Number of stored samples.
    pub fn sample_count(&self) -> (r: usize)
        ensures
            r == self@.len(),
    {
        self.all_samples.len()
    }

    /// Whether nothing is stored.
    pub fn is_empty(&self) -> (r: bool)
        ensures
            r == (self@.len() == 0),
    {
        self.all_samples.len() == 0
    }

    /// Retained bytes.
    pub fn memory_bytes(&self) -> (r: usize)
        requires
            self@.len() * 48 <= usize::MAX,
        ensures
            r == self@.len() * 48,
    {
        self.all_samples.len() * BYTES_PER_SAMPLE
    }

    /// Rebuild the full samples for export, by joining the scanned buffer with
    /// the raw registers.
    pub fn export_samples(&self) -> (r: Vec<Sample>)
        requires
            self.inv(),
        ensures
            r@ == self@,
    {
        let mut out: Vec<Sample> = Vec::new();
        let mut i: usize = 0;
        while i < self.all_samples.len()
            invariant
                self.inv(),
                i <= self.all_samples@.len(),
                out@ == self@.subrange(0, i as int),
            decreases self.all_samples@.len() - i,
        {
            let s = &self.all_samples[i];
            let raw = &self.raw_adc[i];
            out.push(
                Sample {
                    timestamp_ms: s.timestamp_ms,
                    voltage_v: s.voltage_v,
                    current_a: s.current_a,
                    power_w: s.power_w,
                    dp_v: s.dp_v,
                    dn_v: s.dn_v,
                    temp_c: s.temp_c,
                    raw_voltage: raw.0,
                    raw_current: raw.1,
                },
            );
            i = i + 1;
            assert(out@ =~= self@.subrange(0, i as int));
        }
        assert(self@.subrange(0, i as int) =~= self@);
        out
    }

    /// The index of the cut at `ms`.
    fn cut_at(&self, ms: u64, inclusive: bool) -> (r: usize)
        ensures
            r == cut(self.all_samples@, ms, inclusive),
            r <= self.all_samples@.len(),
    {
        let mut lo: usize = 0;
        let mut hi: usize = self.all_samples.len();
        while lo < hi
            invariant
                lo <= hi <= self.all_samples@.len(),
                bisected(self.all_samples@, ms, inclusive, lo as int, hi as int) == cut(
                    self.all_samples@,
                    ms,
                    inclusive,
                ),
            decreases hi - lo,
        {
            let mid: usize = lo + (hi - lo) / 2;
            let at: u64 = self.all_samples[mid].timestamp_ms;
            if at < ms || (inclusive && at == ms) {
                lo = mid + 1;
            } else {
                hi = mid;
            }
        }
        lo
    }

    /// The active index range: the whole buffer, or, zoomed in to a span of
    /// milliseconds, the samples in it with one more on either side.
    pub fn visible_range(&self, zoom: Option<(u64, u64)>) -> (r: (usize, usize))
        ensures
            (r.0 as int, r.1 as int) == visible(self.all_samples@, zoom),
    {
        let count: usize = self.all_samples.len();
        match zoom {
            None => (0, count),
            Some((min_ms, max_ms)) => {
                let from: usize = self.cut_at(min_ms, false);
                let to: usize = self.cut_at(max_ms, true);
                (if from > 0 { from - 1 } else { 0 }, if to < count { to + 1 } else { count })
            },
        }
    }

    /// The samples of `from..to` as points, each at its own timestamp.
    fn plain_points(&self, values: &VecDeque<F32>, from: usize, to: usize) -> (pts: Vec<PlotPoint>)
        requires
            values@.len() == self.all_samples@.len(),
            from <= to <= self.all_samples@.len(),
        ensures
            pts@ == plain(self.all_samples@, values@, from as int, to as int),
    {
        let mut pts: Vec<PlotPoint> = Vec::new();
        let mut i: usize = from;
        while i < to
            invariant
                values@.len() == self.all_samples@.len(),
                from <= i <= to <= self.all_samples@.len(),
                pts@ == plain(self.all_samples@, values@, from as int, i as int),
            decreases to - i,
        {
            pts.push(PlotPoint { timestamp_ms: self.all_samples[i].timestamp_ms, value: values[i] });
            i = i + 1;
            assert(pts@ =~= plain(self.all_samples@, values@, from as int, i as int));
        }
        pts
    }

    /// The extremes of one bucket of values.
    fn fold(values: &VecDeque<F32>, from: usize, to: usize) -> (r: (F32, F32))
        requires
            from <= to <= values@.len(),
        ensures
            r == extremes(values@.subrange(from as int, to as int)),
    {
        let mut lo = F32 { bits: INFINITY_BITS };
        let mut hi = F32 { bits: NEG_INFINITY_BITS };
        let mut i: usize = from;
        while i < to
            invariant
                from <= i <= to <= values@.len(),
                (lo, hi) == extremes(values@.subrange(from as int, i as int)),
            decreases to - i,
        {
            let v = values[i];
            proof {
                let next = values@.subrange(from as int, i + 1);
                assert(next.drop_last() =~= values@.subrange(from as int, i as int));
                assert(next.last() == v);
            }
            if v.is_below(lo) {
                lo = v;
            }
            if hi.is_below(v) {
                hi = v;
            }
            i = i + 1;
        }
        (lo, hi)
    }

    /// Build plot points from a series that has one value per sample, with
    /// zoom-aware min-max decimation.
    pub fn points_from_deque(
        &self,
        values: &VecDeque<F32>,
        max_points: usize,
        zoom: Option<(u64, u64)>,
        lod_enabled: bool,
    ) -> (pts: Vec<PlotPoint>)
        requires
            values@.len() == self.all_samples@.len(),
            visible(self.all_samples@, zoom).0 <= visible(self.all_samples@, zoom).1,
        ensures
            pts@ == plotted(self.all_samples@, values@, max_points as int, zoom, lod_enabled),
    {
        if !lod_enabled {
            return self.plain_points(values, 0, self.all_samples.len());
        }
        let (from, to) = self.visible_range(zoom);
        let slice_len: usize = to - from;
        if max_points == 0 || slice_len <= max_points {
            return self.plain_points(values, from, to);
        }
        let buckets: usize = if max_points / 2 > 1 { max_points / 2 } else { 1 };
        let mut pts: Vec<PlotPoint> = Vec::new();
        let mut b: usize = 0;
        while b < buckets
            invariant
                values@.len() == self.all_samples@.len(),
                from + slice_len == to,
                to <= self.all_samples@.len(),
                b <= buckets,
                0 < buckets,
                pts@ == bucketed(
                    self.all_samples@,
                    values@,
                    from as int,
                    slice_len as int,
                    buckets as int,
                    b as int,
                ),
            decreases buckets - b,
        {
            proof {
                decimation::split_is_bounded(slice_len as int, buckets as int, b + 1);
            }
            let (local_start, local_end) = bucket_bounds(b, slice_len, buckets);
            if local_start < local_end {
                let lo_idx: usize = from + local_start;
                let hi_idx: usize = from + local_end;
                let (lo, hi) = PlotState::fold(values, lo_idx, hi_idx);
                let mid: usize = lo_idx + (hi_idx - lo_idx) / 2;
                emit_bucket(&mut pts, self.all_samples[mid].timestamp_ms, lo, hi);
            }
            b = b + 1;
        }
        pts
    }

    /// No points yet, for each of `count` lanes.
    fn empty_lanes(count: usize) -> (lanes: Vec<Vec<PlotPoint>>)
        ensures
            lanes@.len() == count,
            forall|j: int|
                0 <= j < count ==> (#[trigger] lanes@[j])@ == Seq::<PlotPoint>::empty(),
    {
        let mut lanes: Vec<Vec<PlotPoint>> = Vec::new();
        let mut j: usize = 0;
        while j < count
            invariant
                j <= count,
                lanes@.len() == j,
                forall|k: int|
                    0 <= k < j ==> (#[trigger] lanes@[k])@ == Seq::<PlotPoint>::empty(),
            decreases count - j,
        {
            lanes.push(Vec::new());
            j = j + 1;
        }
        lanes
    }

    /// The samples of `from..to` as points, one lane for each of `channels`.
    fn plain_lanes<const N: usize>(&self, channels: &[Channel; N], from: usize, to: usize) -> (lanes:
        Vec<Vec<PlotPoint>>)
        requires
            from <= to <= self.all_samples@.len(),
        ensures
            lanes@.len() == N,
            forall|j: int|
                0 <= j < N ==> (#[trigger] lanes@[j])@ == plain(
                    self.all_samples@,
                    column(self.all_samples@, channels@[j]),
                    from as int,
                    to as int,
                ),
    {
        let mut lanes = PlotState::empty_lanes(N);
        let mut i: usize = from;
        assert forall|j: int| 0 <= j < N implies (#[trigger] lanes@[j])@ == plain(
            self.all_samples@,
            column(self.all_samples@, channels@[j]),
            from as int,
            from as int,
        ) by {}
        while i < to
            invariant
                from <= i <= to <= self.all_samples@.len(),
                lanes@.len() == N,
                forall|j: int|
                    0 <= j < N ==> (#[trigger] lanes@[j])@ == plain(
                        self.all_samples@,
                        column(self.all_samples@, channels@[j]),
                        from as int,
                        i as int,
                    ),
            decreases to - i,
        {
            let s = self.all_samples[i];
            let mut k: usize = 0;
            while k < N
                invariant
                    from <= i < to <= self.all_samples@.len(),
                    s == self.all_samples@[i as int],
                    k <= N,
                    lanes@.len() == N,
                    forall|j: int|
                        0 <= j < N ==> (#[trigger] lanes@[j])@ == plain(
                            self.all_samples@,
                            column(self.all_samples@, channels@[j]),
                            from as int,
                            if j < k {
                                i + 1
                            } else {
                                i as int
                            },
                        ),
                decreases N - k,
            {
                let point = PlotPoint {
                    timestamp_ms: s.timestamp_ms,
                    value: channels[k].extract(&s),
                };
                lanes[k].push(point);
                assert(lanes@[k as int]@ =~= plain(
                    self.all_samples@,
                    column(self.all_samples@, channels@[k as int]),
                    from as int,
                    i + 1,
                ));
                k = k + 1;
            }
            i = i + 1;
        }
        lanes
    }

    /// The extremes of one bucket of samples, for each of `channels`, in a
    /// single walk of the bucket.
    fn fold_lanes<const N: usize>(&self, channels: &[Channel; N], from: usize, to: usize) -> (ends:
        Vec<(F32, F32)>)
        requires
            from <= to <= self.all_samples@.len(),
        ensures
            ends@.len() == N,
            forall|j: int|
                0 <= j < N ==> #[trigger] ends@[j] == extremes(
                    column(self.all_samples@, channels@[j]).subrange(from as int, to as int),
                ),
    {
        let mut ends: Vec<(F32, F32)> = Vec::new();
        let mut k: usize = 0;
        while k < N
            invariant
                from <= self.all_samples@.len(),
                k <= N,
                ends@.len() == k,
                forall|j: int|
                    0 <= j < k ==> #[trigger] ends@[j] == extremes(
                        column(self.all_samples@, channels@[j]).subrange(from as int, from as int),
                    ),
            decreases N - k,
        {
            ends.push((F32 { bits: INFINITY_BITS }, F32 { bits: NEG_INFINITY_BITS }));
            k = k + 1;
        }
        let mut i: usize = from;
        while i < to
            invariant
                from <= i <= to <= self.all_samples@.len(),
                ends@.len() == N,
                forall|j: int|
                    0 <= j < N ==> #[trigger] ends@[j] == extremes(
                        column(self.all_samples@, channels@[j]).subrange(from as int, i as int),
                    ),
            decreases to - i,
        {
            let s = self.all_samples[i];
            let mut k: usize = 0;
            while k < N
                invariant
                    from <= i < to <= self.all_samples@.len(),
                    s == self.all_samples@[i as int],
                    k <= N,
                    ends@.len() == N,
                    forall|j: int|
                        0 <= j < N ==> #[trigger] ends@[j] == extremes(
                            column(self.all_samples@, channels@[j]).subrange(
                                from as int,
                                if j < k {
                                    i + 1
                                } else {
                                    i as int
                                },
                            ),
                        ),
                decreases N - k,
            {
                let v = channels[k].extract(&s);
                let (lo, hi) = ends[k];
                proof {
                    let values = column(self.all_samples@, channels@[k as int]);
                    let next = values.subrange(from as int, i + 1);
                    assert(next.drop_last() =~= values.subrange(from as int, i as int));
                    assert(next.last() == v);
                }
                ends[k] = (
                    if v.is_below(lo) {
                        v
                    } else {
                        lo
                    },
                    if hi.is_below(v) {
                        v
                    } else {
                        hi
                    },
                );
                k = k + 1;
            }
            i = i + 1;
        }
        ends
    }

    /// Build one series of plot points per channel in a single fused pass over
    /// the samples, with zoom-aware min-max decimation.
    pub fn points_from_samples_multi<const N: usize>(
        &self,
        channels: [Channel; N],
        max_points: usize,
        zoom: Option<(u64, u64)>,
        lod_enabled: bool,
    ) -> (lanes: Vec<Vec<PlotPoint>>)
        requires
            visible(self.all_samples@, zoom).0 <= visible(self.all_samples@, zoom).1,
        ensures
            lanes@.len() == N,
            forall|i: int|
                0 <= i < N ==> (#[trigger] lanes@[i])@ == plotted(
                    self.all_samples@,
                    column(self.all_samples@, channels@[i]),
                    max_points as int,
                    zoom,
                    lod_enabled,
                ),
    {
        if !lod_enabled {
            return self.plain_lanes(&channels, 0, self.all_samples.len());
        }
        let (from, to) = self.visible_range(zoom);
        let slice_len: usize = to - from;
        if max_points == 0 || slice_len <= max_points {
            return self.plain_lanes(&channels, from, to);
        }
        let buckets: usize = if max_points / 2 > 1 { max_points / 2 } else { 1 };
        let mut lanes = PlotState::empty_lanes(N);
        let mut b: usize = 0;
        while b < buckets
            invariant
                from + slice_len == to,
                to <= self.all_samples@.len(),
                b <= buckets,
                0 < buckets,
                lanes@.len() == N,
                forall|j: int|
                    0 <= j < N ==> (#[trigger] lanes@[j])@ == bucketed(
                        self.all_samples@,
                        column(self.all_samples@, channels@[j]),
                        from as int,
                        slice_len as int,
                        buckets as int,
                        b as int,
                    ),
            decreases buckets - b,
        {
            proof {
                decimation::split_is_bounded(slice_len as int, buckets as int, b + 1);
            }
            let (local_start, local_end) = bucket_bounds(b, slice_len, buckets);
            if local_start < local_end {
                let lo_idx: usize = from + local_start;
                let hi_idx: usize = from + local_end;
                let ends = self.fold_lanes(&channels, lo_idx, hi_idx);
                let x: u64 = self.all_samples[lo_idx + (hi_idx - lo_idx) / 2].timestamp_ms;
                let mut k: usize = 0;
                while k < N
                    invariant
                        lo_idx == from + decimation::split_at(
                            slice_len as int,
                            buckets as int,
                            b as int,
                        ),
                        hi_idx == from + decimation::split_at(
                            slice_len as int,
                            buckets as int,
                            b + 1,
                        ),
                        lo_idx < hi_idx <= self.all_samples@.len(),
                        x == self.all_samples@[(lo_idx + hi_idx) / 2].timestamp_ms,
                        ends@.len() == N,
                        forall|j: int|
                            0 <= j < N ==> #[trigger] ends@[j] == extremes(
                                column(self.all_samples@, channels@[j]).subrange(
                                    lo_idx as int,
                                    hi_idx as int,
                                ),
                            ),
                        k <= N,
                        lanes@.len() == N,
                        forall|j: int|
                            0 <= j < N ==> (#[trigger] lanes@[j])@ == bucketed(
                                self.all_samples@,
                                column(self.all_samples@, channels@[j]),
                                from as int,
                                slice_len as int,
                                buckets as int,
                                if j < k {
                                    b + 1
                                } else {
                                    b as int
                                },
                            ),
                    decreases N - k,
                {
                    let (lo, hi) = ends[k];
                    emit_bucket(&mut lanes[k], x, lo, hi);
                    k = k + 1;
                }
            }
            b = b + 1;
        }
        lanes
    }

    /// The index of the sample nearest to `target_ms`, where that is in reach
    /// of the data.
    fn nearest(&self, target_ms: u64) -> (r: Option<usize>)
        ensures
            match r {
                None => !in_reach(self.all_samples@, target_ms),
                Some(i) => in_reach(self.all_samples@, target_ms) && i == nearest_to(
                    self.all_samples@,
                    target_ms,
                ) && i < self.all_samples@.len(),
            },
    {
        let count: usize = self.all_samples.len();
        if count == 0 {
            return None;
        }
        let last_ms: u64 = self.all_samples[count - 1].timestamp_ms;
        let first_ms: u64 = self.all_samples[0].timestamp_ms;
        if target_ms > last_ms.saturating_add(HOVER_TOLERANCE_MS) || target_ms
            < first_ms.saturating_sub(HOVER_TOLERANCE_MS) {
            return None;
        }
        proof {
            nearest_is_stored(self.all_samples@, target_ms);
            bisected_separates(self.all_samples@, target_ms, false, 0, count as int);
        }
        let next: usize = self.cut_at(target_ms, false);
        if next == 0 {
            return Some(0);
        }
        let before_ms: u64 = self.all_samples[next - 1].timestamp_ms;
        if next < count && self.all_samples[next].timestamp_ms - target_ms <= target_ms
            - before_ms {
            Some(next)
        } else {
            let first: usize = self.cut_at(before_ms, false);
            Some(if first < count { first } else { count - 1 })
        }
    }

    /// Look up the channel's value at the sample nearest to `target_ms`.
    pub fn value_from_samples(&self, channel: Channel, target_ms: u64) -> (r: Option<PlotPoint>)
        ensures
            r == value_at(
                self.all_samples@,
                column(self.all_samples@, channel),
                target_ms,
            ),
    {
        match self.nearest(target_ms) {
            None => None,
            Some(i) => {
                let s = &self.all_samples[i];
                Some(PlotPoint { timestamp_ms: s.timestamp_ms, value: channel.extract(s) })
            },
        }
    }

    /// Same as [`PlotState::value_from_samples`], but reads from a separate
    /// series.
    pub fn value_from_vec(&self, values: &VecDeque<F32>, target_ms: u64) -> (r: Option<PlotPoint>)
        ensures
            r == value_at(self.all_samples@, values@, target_ms),
    {
        if values.len() == 0 {
            return None;
        }
        match self.nearest(target_ms) {
            None => None,
            Some(at) => {
                let i: usize = if at < values.len() { at } else { values.len() - 1 };
                Some(
                    PlotPoint {
                        timestamp_ms: self.all_samples[i].timestamp_ms,
                        value: values[i],
                    },
                )
            },
        }
    }
}

/// Whether the pointer at `target_ms` is close enough to the data to read it.
pub open spec fn in_reach(samples: Seq<PlotSample>, target_ms: u64) -> bool {
    &&& samples.len() > 0
    &&& target_ms <= samples.last().timestamp_ms + HOVER_TOLERANCE_MS
    &&& target_ms >= samples[0].timestamp_ms - HOVER_TOLERANCE_MS
}

/// `index`, or the last of `len` where it is past the end.
pub open spec fn clamped(index: int, len: int) -> int {
    if index < len {
        index
    } else {
        len - 1
    }
}

/// The index of the sample nearest to `target_ms`: the next one or the one
/// before it. Of two that are equally near the later counts, and of equal
/// timestamps the first.
pub open spec fn nearest_to(samples: Seq<PlotSample>, target_ms: u64) -> int {
    let next = cut(samples, target_ms, false);
    if next == 0 {
        0
    } else if next < samples.len() && samples[next].timestamp_ms - target_ms <= target_ms
        - samples[next - 1].timestamp_ms {
        next
    } else {
        clamped(cut(samples, samples[next - 1].timestamp_ms, false), samples.len() as int)
    }
}

/// What the pointer at `target_ms` reads: the nearest sample with its value, or
/// the last one that has a value; nothing out of reach of the data.
pub open spec fn value_at(
    samples: Seq<PlotSample>,
    values: Seq<F32>,
    target_ms: u64,
) -> Option<PlotPoint> {
    if in_reach(samples, target_ms) && values.len() > 0 {
        let i = clamped(nearest_to(samples, target_ms), values.len() as int);
        Some(PlotPoint { timestamp_ms: samples[i].timestamp_ms, value: values[i] })
    } else {
        None
    }
}

proof fn nearest_is_stored(samples: Seq<PlotSample>, target_ms: u64)
    requires
        samples.len() > 0,
    ensures
        0 <= nearest_to(samples, target_ms) < samples.len(),
{
    let next = cut(samples, target_ms, false);
    bisected_separates(samples, target_ms, false, 0, samples.len() as int);
    if next > 0 {
        let before = samples[next - 1].timestamp_ms;
        bisected_separates(samples, before, false, 0, samples.len() as int);
    }
}

/// The distance between two times.
pub open spec fn apart(a: u64, b: u64) -> int {
    if a < b {
        b - a
    } else {
        a - b
    }
}

/// Hover law: over chronological samples, a pointer in reach of the data reads
/// the sample nearest to it. Of two that are equally near it reads the later,
/// and of equal timestamps the first.
pub proof fn hover_reads_the_nearest_sample(
    samples: Seq<PlotSample>,
    values: Seq<F32>,
    target_ms: u64,
)
    requires
        chronological(samples),
        values.len() == samples.len(),
        in_reach(samples, target_ms),
    ensures
        ({
            let i = nearest_to(samples, target_ms);
            &&& 0 <= i < samples.len()
            &&& value_at(samples, values, target_ms) == Some(
                PlotPoint { timestamp_ms: samples[i].timestamp_ms, value: values[i] },
            )
            &&& forall|j: int|
                0 <= j < samples.len() ==> apart(samples[i].timestamp_ms, target_ms) <= apart(
                    (#[trigger] samples[j]).timestamp_ms,
                    target_ms,
                )
            &&& forall|j: int|
                0 <= j < samples.len() && apart((#[trigger] samples[j]).timestamp_ms, target_ms)
                    == apart(samples[i].timestamp_ms, target_ms) ==> samples[j].timestamp_ms
                    <= samples[i].timestamp_ms
            &&& forall|j: int|
                0 <= j < i ==> (#[trigger] samples[j]).timestamp_ms < samples[i].timestamp_ms
        }),
{
    cut_separates(samples, target_ms, false);
    let next = cut(samples, target_ms, false);
    if next > 0 {
        let before = samples[next - 1].timestamp_ms;
        cut_separates(samples, before, false);
        let i = nearest_to(samples, target_ms);
        assert forall|j: int| 0 <= j < samples.len() implies if j < next {
            (#[trigger] samples[j]).timestamp_ms <= before
        } else {
            samples[next].timestamp_ms <= samples[j].timestamp_ms
        } by {}
        if i != next {
            assert(samples[i].timestamp_ms == before);
        }
    } else {
        assert forall|j: int| 0 <= j < samples.len() implies samples[0].timestamp_ms <= (
        #[trigger] samples[j]).timestamp_ms by {}
    }
}

/// A panel of the plot grid.
#[derive(Debug, Clone, Copy, PartialEq, Eq, Structural)]
pub enum Panel {
    Voltage,
    Current,
    Power,
    Temperature,
    Energy,
    Capacity,
}

impl PlotConfig {
    /// The panels that are switched on, in the order they are drawn.
    pub open spec fn panels(self) -> Seq<Panel> {
        on(self.voltage, Panel::Voltage) + on(self.current, Panel::Current) + on(
            self.power,
            Panel::Power,
        ) + on(self.temperature, Panel::Temperature) + on(self.energy, Panel::Energy) + on(
            self.capacity,
            Panel::Capacity,
        )
    }

    /// The panels that are switched on, in the order they are drawn.
    pub fn active(self) -> (r: Vec<Panel>)
        ensures
            r@ == self.panels(),
    {
        let mut r: Vec<Panel> = Vec::new();
        if self.voltage {
            r.push(Panel::Voltage);
        }
        if self.current {
            r.push(Panel::Current);
        }
        if self.power {
            r.push(Panel::Power);
        }
        if self.temperature {
            r.push(Panel::Temperature);
        }
        if self.energy {
            r.push(Panel::Energy);
        }
        if self.capacity {
            r.push(Panel::Capacity);
        }
        assert(r@ =~= self.panels());
        r
    }
}

impl Panel {
    /// The panel's identifier.
    pub open spec fn key(self) -> Seq<char> {
        match self {
            Panel::Voltage => "voltage_plot"@,
            Panel::Current => "current_plot"@,
            Panel::Power => "power_plot"@,
            Panel::Temperature => "temperature_plot"@,
            Panel::Energy => "energy_plot"@,
            Panel::Capacity => "capacity_plot"@,
        }
    }

    /// The panel's title.
    pub open spec fn title(self) -> Seq<char> {
        match self {
            Panel::Voltage => "Voltage"@,
            Panel::Current => "Current"@,
            Panel::Power => "Power"@,
            Panel::Temperature => "Temperature"@,
            Panel::Energy => "Energy"@,
            Panel::Capacity => "Capacity"@,
        }
    }

    /// The unit of the panel's values.
    pub open spec fn measure(self) -> Seq<char> {
        match self {
            Panel::Voltage => "V"@,
            Panel::Current => "A"@,
            Panel::Power => "W"@,
            Panel::Temperature => "°C"@,
            Panel::Energy => "Wh"@,
            Panel::Capacity => "mAh"@,
        }
    }

    /// The line that the pointer reads.
    pub open spec fn first_line(self) -> Series {
        match self {
            Panel::Voltage => Series::Of(Channel::Voltage),
            Panel::Current => Series::Of(Channel::Current),
            Panel::Power => Series::Of(Channel::Power),
            Panel::Temperature => Series::Of(Channel::Temp),
            Panel::Energy => Series::Energy,
            Panel::Capacity => Series::Capacity,
        }
    }

    /// The panel's identifier.
    pub fn id(self) -> (r: &'static str)
        ensures
            r@ == self.key(),
    {
        match self {
            Panel::Voltage => "voltage_plot",
            Panel::Current => "current_plot",
            Panel::Power => "power_plot",
            Panel::Temperature => "temperature_plot",
            Panel::Energy => "energy_plot",
            Panel::Capacity => "capacity_plot",
        }
    }

    /// The panel's title.
    pub fn label(self) -> (r: &'static str)
        ensures
            r@ == self.title(),
    {
        match self {
            Panel::Voltage => "Voltage",
            Panel::Current => "Current",
            Panel::Power => "Power",
            Panel::Temperature => "Temperature",
            Panel::Energy => "Energy",
            Panel::Capacity => "Capacity",
        }
    }

    /// The unit of the panel's values.
    pub fn unit(self) -> (r: &'static str)
        ensures
            r@ == self.measure(),
    {
        match self {
            Panel::Voltage => "V",
            Panel::Current => "A",
            Panel::Power => "W",
            Panel::Temperature => "°C",
            Panel::Energy => "Wh",
            Panel::Capacity => "mAh",
        }
    }
}

/// A line of a panel.
#[derive(Debug, Clone, Copy, PartialEq, Eq, Structural)]
pub enum Series {
    /// A channel of the samples.
    Of(Channel),
    /// The running total of energy.
    Energy,
    /// The running total of charge.
    Capacity,
}

impl Series {
    /// How the line is called.
    pub open spec fn title(self) -> Seq<char> {
        match self {
            Series::Of(Channel::Voltage) => "V"@,
            Series::Of(Channel::Current) => "A"@,
            Series::Of(Channel::Power) => "W"@,
            Series::Of(Channel::Temp) => "°C"@,
            Series::Of(Channel::Dp) => "D+"@,
            Series::Of(Channel::Dn) => "D−"@,
            Series::Energy => "Wh"@,
            Series::Capacity => "mAh"@,
        }
    }

    /// How the line is called.
    pub fn name(self) -> (r: &'static str)
        ensures
            r@ == self.title(),
    {
        match self {
            Series::Of(Channel::Voltage) => "V",
            Series::Of(Channel::Current) => "A",
            Series::Of(Channel::Power) => "W",
            Series::Of(Channel::Temp) => "°C",
            Series::Of(Channel::Dp) => "D+",
            Series::Of(Channel::Dn) => "D−",
            Series::Energy => "Wh",
            Series::Capacity => "mAh",
        }
    }
}

impl PlotConfig {
    /// The lines of a panel, in the order they are drawn: the voltage panel has
    /// the data lines as well, where they are switched on.
    pub open spec fn lines(self, panel: Panel) -> Seq<Series> {
        match panel {
            Panel::Voltage => if self.d_lines {
                seq![
                    Series::Of(Channel::Voltage),
                    Series::Of(Channel::Dp),
                    Series::Of(Channel::Dn),
                ]
            } else {
                seq![Series::Of(Channel::Voltage)]
            },
            Panel::Current => seq![Series::Of(Channel::Current)],
            Panel::Power => seq![Series::Of(Channel::Power)],
            Panel::Temperature => seq![Series::Of(Channel::Temp)],
            Panel::Energy => seq![Series::Energy],
            Panel::Capacity => seq![Series::Capacity],
        }
    }

    /// The lines of a panel, in the order they are drawn. The first is the one
    /// that the pointer reads.
    pub fn lines_of(self, panel: Panel) -> (r: Vec<Series>)
        ensures
            r@ == self.lines(panel),
            r@.len() > 0 && r@[0] == panel.first_line(),
    {
        let mut r: Vec<Series> = Vec::new();
        match panel {
            Panel::Voltage => {
                r.push(Series::Of(Channel::Voltage));
                if self.d_lines {
                    r.push(Series::Of(Channel::Dp));
                    r.push(Series::Of(Channel::Dn));
                }
            },
            Panel::Current => {
                r.push(Series::Of(Channel::Current));
            },
            Panel::Power => {
                r.push(Series::Of(Channel::Power));
            },
            Panel::Temperature => {
                r.push(Series::Of(Channel::Temp));
            },
            Panel::Energy => {
                r.push(Series::Energy);
            },
            Panel::Capacity => {
                r.push(Series::Capacity);
            },
        }
        assert(r@ =~= self.lines(panel));
        r
    }
}

impl PlotState {
    /// The values of a line, one per sample.
    pub open spec fn values(&self, series: Series) -> Seq<F32> {
        match series {
            Series::Of(channel) => column(self.all_samples@, channel),
            Series::Energy => self.energy_wh@,
            Series::Capacity => self.capacity_mah@,
        }
    }

    /// The points of a panel's lines, line by line.
    pub fn panel_points(
        &self,
        config: PlotConfig,
        panel: Panel,
        max_points: usize,
        zoom: Option<(u64, u64)>,
        lod_enabled: bool,
    ) -> (r: Vec<Vec<PlotPoint>>)
        requires
            self.inv(),
            visible(self.all_samples@, zoom).0 <= visible(self.all_samples@, zoom).1,
        ensures
            r@.len() == config.lines(panel).len(),
            forall|i: int|
                0 <= i < r@.len() ==> (#[trigger] r@[i])@ == plotted(
                    self.all_samples@,
                    self.values(config.lines(panel)[i]),
                    max_points as int,
                    zoom,
                    lod_enabled,
                ),
    {
        match panel {
            Panel::Voltage => if config.d_lines {
                self.points_from_samples_multi(
                    [Channel::Voltage, Channel::Dp, Channel::Dn],
                    max_points,
                    zoom,
                    lod_enabled,
                )
            } else {
                self.points_from_samples_multi([Channel::Voltage], max_points, zoom, lod_enabled)
            },
            Panel::Current => self.points_from_samples_multi(
                [Channel::Current],
                max_points,
                zoom,
                lod_enabled,
            ),
            Panel::Power => self.points_from_samples_multi(
                [Channel::Power],
                max_points,
                zoom,
                lod_enabled,
            ),
            Panel::Temperature => self.points_from_samples_multi(
                [Channel::Temp],
                max_points,
                zoom,
                lod_enabled,
            ),
            Panel::Energy => {
                let mut r: Vec<Vec<PlotPoint>> = Vec::new();
                r.push(self.points_from_deque(&self.energy_wh, max_points, zoom, lod_enabled));
                r
            },
            Panel::Capacity => {
                let mut r: Vec<Vec<PlotPoint>> = Vec::new();
                r.push(self.points_from_deque(&self.capacity_mah, max_points, zoom, lod_enabled));
                r
            },
        }
    }

    /// What the pointer at `target_ms` reads in a panel.
    pub fn panel_value(&self, panel: Panel, target_ms: u64) -> (r: Option<PlotPoint>)
        requires
            self.inv(),
        ensures
            r == value_at(self.all_samples@, self.values(panel.first_line()), target_ms),
    {
        match panel {
            Panel::Voltage => self.value_from_samples(Channel::Voltage, target_ms),
            Panel::Current => self.value_from_samples(Channel::Current, target_ms),
            Panel::Power => self.value_from_samples(Channel::Power, target_ms),
            Panel::Temperature => self.value_from_samples(Channel::Temp, target_ms),
            Panel::Energy => self.value_from_vec(&self.energy_wh, target_ms),
            Panel::Capacity => self.value_from_vec(&self.capacity_mah, target_ms),
        }
    }
}

/// Storage law: a stored sample is taken apart and rebuilt without a change, and
/// each of its values stands in the scanned part under its own name.
pub proof fn stored_samples_are_rebuilt(sample: Sample)
    ensures
        rejoined(hot(sample), (sample.raw_voltage, sample.raw_current)) == sample,
        hot(sample).timestamp_ms == sample.timestamp_ms,
        hot(sample).voltage_v == sample.voltage_v,
        hot(sample).current_a == sample.current_a,
        hot(sample).power_w == sample.power_w,
        hot(sample).dp_v == sample.dp_v,
        hot(sample).dn_v == sample.dn_v,
        hot(sample).temp_c == sample.temp_c,
{
}

/// Panel law: every line draws its own measurement of the stored samples, at
/// their own times.
pub proof fn lines_draw_their_measurement(state: PlotState, config: PlotConfig, i: int)
    requires
        state.inv(),
        0 <= i < state@.len(),
    ensures
        state.all_samples@.len() == state@.len(),
        state.all_samples@[i].timestamp_ms == state@[i].timestamp_ms,
        state.raw_adc@[i].0 == state@[i].raw_voltage,
        state.raw_adc@[i].1 == state@[i].raw_current,
        state.values(config.lines(Panel::Voltage)[0])[i] == state@[i].voltage_v,
        config.d_lines ==> state.values(config.lines(Panel::Voltage)[1])[i] == state@[i].dp_v,
        config.d_lines ==> state.values(config.lines(Panel::Voltage)[2])[i] == state@[i].dn_v,
        state.values(config.lines(Panel::Current)[0])[i] == state@[i].current_a,
        state.values(config.lines(Panel::Power)[0])[i] == state@[i].power_w,
        state.values(config.lines(Panel::Temperature)[0])[i] == state@[i].temp_c,
        state.values(config.lines(Panel::Energy)[0])[i] == state.energy_wh@[i],
        state.values(config.lines(Panel::Capacity)[0])[i] == state.capacity_mah@[i],
        forall|panel: Panel|
            (#[trigger] config.lines(panel)).len() == if panel == Panel::Voltage && config.d_lines {
                3int
            } else {
                1int
            },
        forall|panel: Panel| #[trigger]
            config.lines(panel)[0] == panel.first_line(),
        forall|panel: Panel, k: int|
            0 <= k < config.lines(panel).len() ==> state.values(
                #[trigger] config.lines(panel)[k],
            ).len() == state@.len(),
        column(state.all_samples@, Channel::Voltage)[i] == state@[i].voltage_v,
        column(state.all_samples@, Channel::Current)[i] == state@[i].current_a,
        column(state.all_samples@, Channel::Power)[i] == state@[i].power_w,
        column(state.all_samples@, Channel::Temp)[i] == state@[i].temp_c,
        column(state.all_samples@, Channel::Dp)[i] == state@[i].dp_v,
        column(state.all_samples@, Channel::Dn)[i] == state@[i].dn_v,
{
}

/// Panel law: the panels are those that are switched on, each once, in the
/// order of voltage, current, power, temperature, energy, capacity: each stands
/// behind as many panels as are switched on before it.
pub proof fn panels_are_those_switched_on(config: PlotConfig)
    ensures
        ({
            let panels = config.panels();
            let v: int = if config.voltage {
                1
            } else {
                0
            };
            let c: int = if config.current {
                v + 1
            } else {
                v
            };
            let p: int = if config.power {
                c + 1
            } else {
                c
            };
            let t: int = if config.temperature {
                p + 1
            } else {
                p
            };
            let e: int = if config.energy {
                t + 1
            } else {
                t
            };
            let q: int = if config.capacity {
                e + 1
            } else {
                e
            };
            &&& panels.len() == q
            &&& config.voltage ==> panels[0] == Panel::Voltage
            &&& config.current ==> panels[v] == Panel::Current
            &&& config.power ==> panels[c] == Panel::Power
            &&& config.temperature ==> panels[p] == Panel::Temperature
            &&& config.energy ==> panels[t] == Panel::Energy
            &&& config.capacity ==> panels[e] == Panel::Capacity
        }),
{
}

/// Title law: a panel's title shows the newest value of its own measurement,
/// and nothing while none is known.
pub proof fn titles_show_their_measurement(latest: Latest)
    ensures
        latest.voltage matches Some(v) ==> latest.shown(Panel::Voltage) == Shown::Single(v),
        latest.current matches Some(v) ==> latest.shown(Panel::Current) == Shown::Single(v),
        latest.power matches Some(v) ==> latest.shown(Panel::Power) == Shown::Single(v),
        latest.temp matches Some(v) ==> latest.shown(Panel::Temperature) == Shown::Single(v),
        latest.energy matches Some(v) ==> latest.shown(Panel::Energy) == Shown::Double(v),
        latest.capacity matches Some(v) ==> latest.shown(Panel::Capacity) == Shown::Double(v),
        latest.voltage is None ==> latest.shown(Panel::Voltage) is Nothing,
        latest.current is None ==> latest.shown(Panel::Current) is Nothing,
        latest.power is None ==> latest.shown(Panel::Power) is Nothing,
        latest.temp is None ==> latest.shown(Panel::Temperature) is Nothing,
        latest.energy is None ==> latest.shown(Panel::Energy) is Nothing,
        latest.capacity is None ==> latest.shown(Panel::Capacity) is Nothing,
{
}

/// Hover law: the pointer reads something where there are samples and it is at
/// most a second before the first or behind the last, and nothing elsewhere.
pub proof fn hover_reaches_a_second(samples: Seq<PlotSample>, values: Seq<F32>, target_ms: u64)
    requires
        values.len() == samples.len(),
    ensures
        value_at(samples, values, target_ms) is Some <==> {
            &&& samples.len() > 0
            &&& target_ms <= samples[samples.len() - 1].timestamp_ms + 1000
            &&& samples[0].timestamp_ms <= target_ms + 1000
        },
{
}

/// The value that a panel's title shows.
#[derive(Debug, Clone, Copy, PartialEq, Eq, Structural)]
pub enum Shown {
    /// No value is known yet.
    Nothing,
    Single(F32),
    Double(F64),
}

impl Latest {
    /// The value that a panel's title shows: the newest of its first line.
    pub open spec fn shown(self, panel: Panel) -> Shown {
        match panel {
            Panel::Voltage => single(self.voltage),
            Panel::Current => single(self.current),
            Panel::Power => single(self.power),
            Panel::Temperature => single(self.temp),
            Panel::Energy => double(self.energy),
            Panel::Capacity => double(self.capacity),
        }
    }

    /// The value that a panel's title shows.
    pub fn of_panel(self, panel: Panel) -> (r: Shown)
        ensures
            r == self.shown(panel),
    {
        match panel {
            Panel::Voltage => Latest::held(self.voltage),
            Panel::Current => Latest::held(self.current),
            Panel::Power => Latest::held(self.power),
            Panel::Temperature => Latest::held(self.temp),
            Panel::Energy => Latest::held_total(self.energy),
            Panel::Capacity => Latest::held_total(self.capacity),
        }
    }

    fn held(value: Option<F32>) -> (r: Shown)
        ensures
            r == single(value),
    {
        match value {
            Some(v) => Shown::Single(v),
            None => Shown::Nothing,
        }
    }

    fn held_total(value: Option<F64>) -> (r: Shown)
        ensures
            r == double(value),
    {
        match value {
            Some(v) => Shown::Double(v),
            None => Shown::Nothing,
        }
    }
}

/// A value of single precision, where it is known.
pub open spec fn single(value: Option<F32>) -> Shown {
    match value {
        Some(v) => Shown::Single(v),
        None => Shown::Nothing,
    }
}

/// A value of double precision, where it is known.
pub open spec fn double(value: Option<F64>) -> Shown {
    match value {
        Some(v) => Shown::Double(v),
        None => Shown::Nothing,
    }
}

/// `panel`, where it is switched on.
pub open spec fn on(shown: bool, panel: Panel) -> Seq<Panel> {
    if shown {
        seq![panel]
    } else {
        Seq::empty()
    }
}

/// The grid that a number of panels is laid out in.
#[derive(Debug, Clone, Copy, PartialEq, Eq, Structural)]
pub struct Grid {
    pub count: usize,
    pub cols: usize,
    pub rows: usize,
}

impl Grid {
    /// Lay out `count` panels: in one column up to two of them, in two columns
    /// beyond, with as few rows as hold them. No panels need no grid.
    pub fn of(count: usize) -> (r: Option<Grid>)
        ensures
            r == if count == 0 {
                None::<Grid>
            } else if count <= 2 {
                Some(Grid { count, cols: 1, rows: count })
            } else {
                Some(Grid { count, cols: 2, rows: (count / 2 + count % 2) as usize })
            },
    {
        if count == 0 {
            None
        } else if count <= 2 {
            Some(Grid { count, cols: 1, rows: count })
        } else {
            Some(Grid { count, cols: 2, rows: count / 2 + count % 2 })
        }
    }

    /// Whether the row ends once `drawn` panels are drawn.
    pub fn ends_row(self, drawn: usize) -> (r: bool)
        requires
            self.cols > 0,
        ensures
            r == (drawn as int % self.cols as int == 0 && drawn < self.count),
    {
        drawn % self.cols == 0 && drawn < self.count
    }
}

/// Hover law: where a line has fewer values than there are samples, the pointer
/// reads the nearest that has one.
pub proof fn hover_reads_what_there_is(
    samples: Seq<PlotSample>,
    values: Seq<F32>,
    target_ms: u64,
)
    requires
        0 < values.len() <= samples.len(),
        in_reach(samples, target_ms),
    ensures
        ({
            let i = nearest_to(samples, target_ms);
            let at = if i < values.len() {
                i
            } else {
                values.len() - 1
            };
            &&& 0 <= at < values.len()
            &&& value_at(samples, values, target_ms) is Some
            &&& value_at(samples, values, target_ms)->0.timestamp_ms == samples[at].timestamp_ms
            &&& value_at(samples, values, target_ms)->0.value == values[at]
        }),
{
    nearest_is_stored(samples, target_ms);
}

} // verus!
