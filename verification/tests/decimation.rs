use fnirsi::decimation::{
    emit_bucket, Channel, MinMax, PlotPoint, PlotSample, Pyramid, BUCKET_SAMPLES,
};
use fnirsi::float::F32;
use std::collections::VecDeque;

/// Deterministic LCG so property tests are reproducible.
struct Lcg(u64);

impl Lcg {
    fn next(&mut self) -> u64 {
        self.0 = self
            .0
            .wrapping_mul(6_364_136_223_846_793_005)
            .wrapping_add(1_442_695_040_888_963_407);
        self.0
    }

    fn next_f32(&mut self) -> f32 {
        (self.next() >> 40) as f32 / (1u64 << 24) as f32
    }

    fn next_usize(&mut self, bound: usize) -> usize {
        (self.next() >> 33) as usize % bound.max(1)
    }
}

fn held(v: f32) -> F32 {
    F32 { bits: v.to_bits() }
}

fn plain(v: F32) -> f32 {
    f32::from_bits(v.bits)
}

/// Channels get distinct derived values so a mixed-up channel index shows up
/// as a test failure. NaN input propagates to every channel.
fn sample(ts_ms: u64, v: f32) -> PlotSample {
    PlotSample {
        timestamp_ms: ts_ms,
        voltage_v: held(v),
        current_a: held(-v),
        power_w: held(v + 1.0),
        dp_v: held(v * 0.5),
        dn_v: held(3.0 - v),
        temp_c: held(v.abs()),
    }
}

/// Independent brute-force scan mirroring the first-occurrence tie-break.
fn brute(samples: &VecDeque<PlotSample>, ch: Channel, start: usize, end: usize) -> MinMax {
    let mut agg = MinMax::empty();
    for s in samples.iter().take(end).skip(start) {
        let v = plain(ch.extract(s));
        if v.is_nan() {
            continue;
        }
        if agg.any {
            if v < plain(agg.min) {
                agg.min = held(v);
                agg.min_ts_ms = s.timestamp_ms;
            }
            if v > plain(agg.max) {
                agg.max = held(v);
                agg.max_ts_ms = s.timestamp_ms;
            }
        } else {
            agg = MinMax {
                min: held(v),
                max: held(v),
                min_ts_ms: s.timestamp_ms,
                max_ts_ms: s.timestamp_ms,
                any: true,
            };
        }
    }
    agg
}

fn assert_minmax_eq(got: &MinMax, want: &MinMax, ctx: &str) {
    assert_eq!(got.any, want.any, "any mismatch: {ctx}");
    if want.any {
        assert_eq!(got.min.bits, want.min.bits, "min mismatch: {ctx}");
        assert_eq!(got.max.bits, want.max.bits, "max mismatch: {ctx}");
        assert_eq!(got.min_ts_ms, want.min_ts_ms, "min ts mismatch: {ctx}");
        assert_eq!(got.max_ts_ms, want.max_ts_ms, "max ts mismatch: {ctx}");
    }
}

/// A point in plot coordinates: seconds, and the value widened.
fn coordinates(pts: &[PlotPoint]) -> Vec<[f64; 2]> {
    pts.iter()
        .map(|p| [p.timestamp_ms as f64 / 1000.0, f64::from(plain(p.value))])
        .collect()
}

/// Reference for `min_max_points_multi`: identical bucket alignment and
/// bucket-center emission, but every range aggregated by brute force over the
/// raw samples.
fn reference_points(
    pyr: &Pyramid,
    samples: &VecDeque<PlotSample>,
    ch: Channel,
    start: usize,
    end: usize,
    render_buckets: usize,
) -> Vec<[f64; 2]> {
    if start >= end || render_buckets == 0 {
        return Vec::new();
    }
    let abs_start = pyr.front_skip + start;
    let abs_end = pyr.front_skip + end;
    let first_bucket = abs_start / BUCKET_SAMPLES;
    let bucket_count = (abs_end - 1) / BUCKET_SAMPLES + 1 - first_bucket;
    let render_buckets = render_buckets.min(bucket_count);
    let mut pts = Vec::new();
    for r in 0..render_buckets {
        let ka = first_bucket + r * bucket_count / render_buckets;
        let kb = first_bucket + (r + 1) * bucket_count / render_buckets;
        let lo = (ka * BUCKET_SAMPLES).max(abs_start) - pyr.front_skip;
        let hi = (kb * BUCKET_SAMPLES).min(abs_end) - pyr.front_skip;
        let agg = brute(samples, ch, lo, hi);
        let x = samples[usize::midpoint(lo, hi)].timestamp_ms as f64 / 1000.0;
        if agg.any {
            pts.push([x, f64::from(plain(agg.min))]);
            pts.push([x, f64::from(plain(agg.max))]);
        } else {
            pts.push([x, f64::NAN]);
        }
    }
    pts
}

fn assert_points_eq(got: &[[f64; 2]], want: &[[f64; 2]], ctx: &str) {
    assert_eq!(got.len(), want.len(), "point count mismatch: {ctx}");
    for (i, (g, w)) in got.iter().zip(want).enumerate() {
        assert_eq!(g[0].to_bits(), w[0].to_bits(), "x mismatch at {i}: {ctx}");
        assert_eq!(g[1].to_bits(), w[1].to_bits(), "y mismatch at {i}: {ctx}");
    }
}

/// Circular buffer driver: push `total` samples through a deque of `capacity`,
/// mirroring evictions into the pyramid, calling `checkpoint` periodically.
fn drive(
    capacity: usize,
    total: usize,
    rng: &mut Lcg,
    mut checkpoint: impl FnMut(&Pyramid, &VecDeque<PlotSample>),
) {
    let mut samples: VecDeque<PlotSample> = VecDeque::new();
    let mut pyr = Pyramid::default();
    for i in 0..total {
        let v = if rng.next_usize(20) == 0 {
            f32::NAN
        } else {
            rng.next_f32().mul_add(10.0, -5.0)
        };
        let s = sample(i as u64 * 10, v);
        if samples.len() >= capacity {
            samples.pop_front();
            pyr.evict_front(1);
        }
        samples.push_back(s);
        pyr.push(&s);
        assert_eq!(pyr.covered_samples(), samples.len(), "desync at push {i}");
        if i % 97 == 0 {
            checkpoint(&pyr, &samples);
        }
    }
    checkpoint(&pyr, &samples);
}

#[test]
fn bookkeeping_tracks_sample_count_through_evictions() {
    let mut rng = Lcg(7);
    let mut samples: VecDeque<PlotSample> = VecDeque::new();
    let mut pyr = Pyramid::default();
    let mut ts = 0u64;
    for round in 0..200 {
        let pushes = rng.next_usize(700) + 1;
        for _ in 0..pushes {
            ts += 10;
            let s = sample(ts, rng.next_f32());
            samples.push_back(s);
            pyr.push(&s);
        }
        let evict = rng.next_usize(samples.len() + 1);
        samples.drain(..evict);
        pyr.evict_front(evict);
        assert_eq!(pyr.covered_samples(), samples.len(), "round {round}");
        if let Some(front) = pyr.buckets.front() {
            assert!(pyr.front_skip < front.len, "front over-evicted");
        } else {
            assert_eq!(pyr.front_skip, 0);
            assert!(samples.is_empty());
        }
        if round % 50 == 0 {
            samples.clear();
            pyr.clear();
            assert_eq!(pyr.covered_samples(), 0);
        }
    }
}

#[test]
fn range_min_max_matches_brute_force_across_eviction_cycles() {
    let mut rng = Lcg(0xDEAD_BEEF);
    let mut query_rng = Lcg(0x5EED);
    // Capacity deliberately not a multiple of BUCKET_SAMPLES; ~5 full
    // wraparounds keep the front bucket partially evicted most of the time.
    drive(1000, 5000, &mut rng, |pyr, samples| {
        let len = samples.len();
        for ch in Channel::all() {
            let got = pyr.range_min_max(samples, ch, 0, len);
            let want = brute(samples, ch, 0, len);
            assert_minmax_eq(&got, &want, "full range");
        }
        for _ in 0..10 {
            let a = query_rng.next_usize(len + 1);
            let b = query_rng.next_usize(len + 1);
            let (start, end) = if a <= b { (a, b) } else { (b, a) };
            for ch in Channel::all() {
                let got = pyr.range_min_max(samples, ch, start, end);
                let want = brute(samples, ch, start, end);
                assert_minmax_eq(&got, &want, &format!("range {start}..{end}"));
            }
        }
    });
}

#[test]
fn min_max_points_multi_matches_reference_decimation() {
    let mut rng = Lcg(0xCAFE);
    let mut query_rng = Lcg(0xF00D);
    drive(2000, 9000, &mut rng, |pyr, samples| {
        let len = samples.len();
        for &render_buckets in &[1usize, 3, 7, 50] {
            let lanes =
                pyr.min_max_points_multi(samples, [Channel::Voltage], 0, len, render_buckets);
            assert_eq!(lanes.len(), 1);
            let want = reference_points(pyr, samples, Channel::Voltage, 0, len, render_buckets);
            assert_points_eq(
                &coordinates(&lanes[0]),
                &want,
                &format!("full range, {render_buckets} buckets"),
            );
        }
        let a = query_rng.next_usize(len + 1);
        let b = query_rng.next_usize(len + 1);
        let (start, end) = if a <= b { (a, b) } else { (b, a) };
        // Fused lanes must each match their own single-channel reference.
        let lanes =
            pyr.min_max_points_multi(samples, [Channel::Current, Channel::Dn], start, end, 5);
        assert_eq!(lanes.len(), 2);
        let want_a = reference_points(pyr, samples, Channel::Current, start, end, 5);
        let want_dn = reference_points(pyr, samples, Channel::Dn, start, end, 5);
        assert_points_eq(
            &coordinates(&lanes[0]),
            &want_a,
            &format!("current, range {start}..{end}"),
        );
        assert_points_eq(
            &coordinates(&lanes[1]),
            &want_dn,
            &format!("dn, range {start}..{end}"),
        );
    });
}

#[test]
fn all_nan_ranges_propagate_gap_sentinel() {
    let mut samples: VecDeque<PlotSample> = VecDeque::new();
    let mut pyr = Pyramid::default();
    // 1024 real samples, then 512 NaN, then 512 real: the NaN run spans two
    // whole buckets.
    for i in 0..2048u64 {
        let v = if (1024..1536).contains(&i) {
            f32::NAN
        } else {
            1.0
        };
        let s = sample(i * 10, v);
        samples.push_back(s);
        pyr.push(&s);
    }
    let gap = pyr.range_min_max(&samples, Channel::Voltage, 1024, 1536);
    assert!(!gap.any, "all-NaN range must report no value");
    let mixed = pyr.range_min_max(&samples, Channel::Voltage, 1000, 1600);
    assert!(mixed.any);

    // 8 render buckets over 8 summary buckets: buckets 4 and 5 are pure NaN and
    // must emit exactly one sentinel each, at their bucket-center sample
    // (midpoints of 1024..1280 and 1280..1536).
    let lanes = pyr.min_max_points_multi(&samples, [Channel::Voltage], 0, 2048, 8);
    let pts = coordinates(&lanes[0]);
    let nan_xs: Vec<f64> = pts.iter().filter(|p| p[1].is_nan()).map(|p| p[0]).collect();
    let expected = [
        f64::from(1152u32 * 10) / 1000.0,
        f64::from(1408u32 * 10) / 1000.0,
    ];
    assert_eq!(nan_xs.len(), 2);
    assert!((nan_xs[0] - expected[0]).abs() < 1e-9);
    assert!((nan_xs[1] - expected[1]).abs() < 1e-9);
}

#[test]
fn merging_adjacent_summaries_gives_the_whole() {
    let values = [2.0, f32::NAN, -1.0, 7.5, -1.0, 7.5, 0.0];
    let samples: VecDeque<PlotSample> = values
        .iter()
        .enumerate()
        .map(|(i, &v)| sample(i as u64, v))
        .collect();
    for cut in 0..=samples.len() {
        let mut front = brute(&samples, Channel::Voltage, 0, cut);
        let back = brute(&samples, Channel::Voltage, cut, samples.len());
        front.merge(&back);
        assert_minmax_eq(
            &front,
            &brute(&samples, Channel::Voltage, 0, samples.len()),
            &format!("cut at {cut}"),
        );
    }
    let all = brute(&samples, Channel::Voltage, 0, samples.len());
    assert_eq!((all.min_ts_ms, all.max_ts_ms), (2, 3));
}

#[test]
fn emit_bucket_orders_extremes_and_marks_gaps() {
    let mut pts: Vec<PlotPoint> = Vec::new();
    emit_bucket(&mut pts, 5, held(1.0), held(2.0));
    emit_bucket(&mut pts, 6, held(f32::INFINITY), held(f32::NEG_INFINITY));
    emit_bucket(&mut pts, 7, held(f32::NEG_INFINITY), held(2.0));
    emit_bucket(&mut pts, 8, held(1.0), held(f32::INFINITY));
    let drawn: Vec<(u64, f32)> = pts.iter().map(|p| (p.timestamp_ms, plain(p.value))).collect();
    assert_eq!(&drawn[..2], &[(5, 1.0), (5, 2.0)]);
    assert_eq!(drawn[2].0, 6);
    assert!(drawn[2].1.is_nan());
    assert_eq!(
        &drawn[3..],
        &[
            (7, f32::NEG_INFINITY),
            (7, 2.0),
            (8, 1.0),
            (8, f32::INFINITY)
        ]
    );
    for hi in [f32::NEG_INFINITY, f32::INFINITY] {
        let mut gap: Vec<PlotPoint> = Vec::new();
        emit_bucket(&mut gap, 9, held(f32::NEG_INFINITY), held(hi));
        assert_eq!(gap.len(), 1);
        assert!(plain(gap[0].value).is_nan());
    }
}

#[test]
fn empty_requests_draw_nothing() {
    let samples: VecDeque<PlotSample> = VecDeque::new();
    let pyr = Pyramid::new();
    let lanes = pyr.min_max_points_multi(&samples, [Channel::Temp, Channel::Dp], 0, 0, 4);
    assert_eq!(lanes.len(), 2);
    assert!(lanes.iter().all(|lane| lane.is_empty()));
    assert!(!pyr.range_min_max(&samples, Channel::Temp, 0, 0).any);
}

#[test]
fn render_buckets_tile_a_partially_evicted_range() {
    let mut samples: VecDeque<PlotSample> = VecDeque::new();
    let mut pyr = Pyramid::new();
    for i in 0..1000u64 {
        let s = sample(i, i as f32);
        samples.push_back(s);
        pyr.push(&s);
    }
    samples.drain(..300);
    pyr.evict_front(300);
    assert_eq!(pyr.front_skip, 44);
    // Summary buckets cover samples 300..512, 512..768 and 768..1000.
    let lanes = pyr.min_max_points_multi(&samples, [Channel::Voltage], 0, 700, 10);
    let drawn: Vec<(u64, f32)> = lanes[0]
        .iter()
        .map(|p| (p.timestamp_ms, plain(p.value)))
        .collect();
    assert_eq!(
        drawn,
        vec![
            (406, 300.0),
            (406, 511.0),
            (640, 512.0),
            (640, 767.0),
            (884, 768.0),
            (884, 999.0),
        ]
    );
}

#[test]
fn summaries_take_memory_per_bucket() {
    let mut pyr = Pyramid::new();
    assert_eq!(pyr.memory_bytes(), 0);
    pyr.reserve(1000);
    assert_eq!(pyr.covered_samples(), 0);
    for i in 0..257u64 {
        pyr.push(&sample(i, 1.0));
    }
    assert_eq!(pyr.buckets.len(), 2);
    let one = pyr.memory_bytes() / 2;
    assert_eq!(pyr.memory_bytes(), one * 2);
    assert_eq!(one, std::mem::size_of::<fnirsi::decimation::Bucket>());
}
