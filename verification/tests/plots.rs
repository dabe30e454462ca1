use fnirsi::decimation::{Channel, PlotPoint, PlotSample};
use fnirsi::float::{F32, F64};
use fnirsi::plots::{bucket_bounds, Grid, Panel, PlotConfig, PlotState, Series, Shown, Total};
use fnirsi::sample::Sample;
use std::collections::VecDeque;

fn held(v: f32) -> F32 {
    F32 { bits: v.to_bits() }
}

fn plain(v: F32) -> f32 {
    f32::from_bits(v.bits)
}

fn total(v: f64) -> Total {
    Total {
        exact: F64 { bits: v.to_bits() },
        narrow: held(v as f32),
    }
}

/// A sample from plain numbers: volts, amps, watts, D+, D-, degrees.
fn measured(timestamp_ms: u64, values: [f32; 6], raw_voltage: u32, raw_current: u32) -> Sample {
    Sample {
        timestamp_ms,
        voltage_v: held(values[0]),
        current_a: held(values[1]),
        power_w: held(values[2]),
        dp_v: held(values[3]),
        dn_v: held(values[4]),
        temp_c: held(values[5]),
        raw_voltage,
        raw_current,
    }
}

fn volts(timestamp_ms: u64, v: f32) -> Sample {
    measured(timestamp_ms, [v, 0.0, 0.0, 0.0, 0.0, 0.0], 0, 0)
}

/// The span of milliseconds for a visible x range in seconds: the whole buffer
/// unless less than nine tenths of it are visible.
fn zoom(state: &PlotState, visible_x: Option<(f64, f64)>) -> Option<(u64, u64)> {
    let (x_min, x_max) = visible_x?;
    let first = state.all_samples.front()?.timestamp_ms as f64 / 1000.0;
    let last = state.all_samples.back()?.timestamp_ms as f64 / 1000.0;
    let data_range = last - first;
    if data_range <= 0.0 || x_max - x_min >= data_range * 0.9 {
        return None;
    }
    Some(((x_min * 1000.0) as u64, (x_max * 1000.0) as u64))
}

fn seconds(timestamp_ms: u64) -> f64 {
    timestamp_ms as f64 / 1000.0
}

fn coordinates(pts: &[PlotPoint]) -> Vec<[f64; 2]> {
    pts.iter()
        .map(|p| [seconds(p.timestamp_ms), f64::from(plain(p.value))])
        .collect()
}

#[test]
fn reserve_then_bulk_import_preserves_lengths_and_logical_capacity() {
    let mut plots = PlotState::new(16);
    let n = 1_000;
    plots.reserve(n);
    for i in 0..n as u64 {
        plots.push_unlimited(
            &measured(i, [5.0, 1.0, 5.0, 0.0, 0.0, 0.0], 0, 0),
            total(0.0),
            total(0.0),
        );
    }
    assert_eq!(plots.sample_count(), n);
    assert_eq!(plots.all_samples.len(), n);
    // `reserve` must extend the raw-ADC side-buffer too, keeping it in lockstep.
    assert_eq!(plots.raw_adc.len(), n);
    // `reserve` only pre-allocates storage; the logical sample_capacity must be
    // unchanged.
    assert_eq!(plots.capacity(), 16);
}

/// Fixture with duplicate timestamps at 3000ms (indices 1-3) and 8000ms
/// (indices 8-9). Per-sample voltages are distinct so tests can tell which
/// duplicate index was actually selected.
fn duplicate_fixture() -> PlotState {
    let mut state = PlotState::new(20);
    let voltages = [
        (2_000, 2.0),
        (3_000, 3.1),
        (3_000, 3.2),
        (3_000, 3.3),
        (4_000, 4.0),
        (5_000, 5.0),
        (6_000, 6.0),
        (7_000, 7.0),
        (8_000, 8.1),
        (8_000, 8.2),
        (10_000, 10.0),
    ];
    for (ts, v) in voltages {
        state.push_unlimited(&volts(ts, v), total(0.0), total(0.0));
    }
    state
}

/// Hover at `x` seconds over the voltage line.
fn hover(state: &PlotState, x: f64) -> Option<(f64, f64)> {
    if x < 0.0 {
        return None;
    }
    state
        .value_from_samples(Channel::Voltage, (x * 1000.0).round() as u64)
        .map(|p| (seconds(p.timestamp_ms), f64::from(plain(p.value))))
}

fn hover_vec(state: &PlotState, values: &VecDeque<F32>, x: f64) -> Option<(f64, f64)> {
    if x < 0.0 {
        return None;
    }
    state
        .value_from_vec(values, (x * 1000.0).round() as u64)
        .map(|p| (seconds(p.timestamp_ms), f64::from(plain(p.value))))
}

#[test]
fn visible_range_full_when_not_zoomed() {
    let state = duplicate_fixture();
    assert_eq!(state.visible_range(None), (0, 11));
}

#[test]
fn visible_range_min_on_duplicate_timestamp_is_first_occurrence_minus_one() {
    // min_ms = 3000 hits the three-way duplicate at indices 1-3; the first-geq
    // index is 1, so start = 0. max_ms = 3500 has no exact match.
    let state = duplicate_fixture();
    let span = zoom(&state, Some((3.0, 3.5)));
    assert_eq!(state.visible_range(span), (0, 5));
}

#[test]
fn visible_range_max_on_duplicate_timestamp_is_last_occurrence_plus_one() {
    // max_ms = 8000 hits the duplicate at indices 8-9; the last-leq index is 9,
    // plus the lead-out. min_ms = 7500 has no exact match.
    let state = duplicate_fixture();
    let span = zoom(&state, Some((7.5, 8.0)));
    assert_eq!(state.visible_range(span), (7, 11));
}

#[test]
fn value_from_samples_exact_hit_on_duplicate_picks_first_occurrence() {
    let state = duplicate_fixture();
    let (t, v) = hover(&state, 3.0).unwrap();
    assert_eq!(t, 3.0);
    assert_eq!(v, f64::from(3.1_f32));
}

#[test]
fn value_from_samples_between_samples_matches_old_insertion_point() {
    let state = duplicate_fixture();
    let (t, v) = hover(&state, 3.5).unwrap();
    assert_eq!(t, 4.0);
    assert_eq!(v, 4.0);
}

#[test]
fn value_from_samples_before_first_clamps_to_first() {
    // 1500ms is before the first sample (2000ms) but within the tolerance.
    let state = duplicate_fixture();
    let (t, v) = hover(&state, 1.5).unwrap();
    assert_eq!(t, 2.0);
    assert_eq!(v, 2.0);
}

#[test]
fn value_from_samples_after_last_clamps_to_last() {
    // 10500ms is after the last sample (10000ms) but within the tolerance.
    let state = duplicate_fixture();
    let (t, v) = hover(&state, 10.5).unwrap();
    assert_eq!(t, 10.0);
    assert_eq!(v, 10.0);
}

#[test]
fn value_from_samples_exact_hit_on_unique_timestamp_is_unchanged() {
    let state = duplicate_fixture();
    let (t, v) = hover(&state, 10.0).unwrap();
    assert_eq!(t, 10.0);
    assert_eq!(v, 10.0);
}

#[test]
fn value_from_vec_exact_hit_on_duplicate_picks_first_occurrence() {
    let state = duplicate_fixture();
    let vec: VecDeque<F32> = (0..11).map(|i| held(100.0 + i as f32)).collect();
    let (t, v) = hover_vec(&state, &vec, 3.0).unwrap();
    assert_eq!(t, 3.0);
    assert_eq!(v, 101.0);
}

#[test]
fn value_from_vec_between_samples_matches_old_insertion_point() {
    let state = duplicate_fixture();
    let vec: VecDeque<F32> = (0..11).map(|i| held(100.0 + i as f32)).collect();
    let (t, v) = hover_vec(&state, &vec, 3.5).unwrap();
    assert_eq!(t, 4.0);
    assert_eq!(v, 104.0);
}

#[test]
fn hover_reads_the_nearest_sample() {
    let mut state = PlotState::new(8);
    for (at, v) in [(0, 1.0), (1000, 2.0), (1000, 3.0), (4000, 4.0), (4000, 5.0)] {
        state.push_unlimited(&volts(at, v), total(0.0), total(0.0));
    }
    assert_eq!(hover(&state, 0.1), Some((0.0, 1.0)));
    assert_eq!(hover(&state, 0.499), Some((0.0, 1.0)));
    // Of two that are equally near the later counts.
    assert_eq!(hover(&state, 0.5), Some((1.0, 2.0)));
    // Of equal timestamps the first counts, from either side.
    assert_eq!(hover(&state, 0.9), Some((1.0, 2.0)));
    assert_eq!(hover(&state, 1.2), Some((1.0, 2.0)));
    assert_eq!(hover(&state, 2.499), Some((1.0, 2.0)));
    assert_eq!(hover(&state, 2.5), Some((4.0, 4.0)));
    assert_eq!(hover(&state, 4.9), Some((4.0, 4.0)));
}

#[test]
fn drawn_times_never_go_back() {
    let state = duplicate_fixture();
    for max_points in 0..12 {
        for zoom in [None, Some((3000, 5000)), Some((2500, 8000))] {
            let lanes =
                state.points_from_samples_multi([Channel::Voltage], max_points, zoom, true);
            assert!(lanes[0]
                .windows(2)
                .all(|pair| pair[0].timestamp_ms <= pair[1].timestamp_ms));
        }
    }
}

#[test]
fn hover_out_of_reach_reads_nothing() {
    let state = duplicate_fixture();
    assert!(state.value_from_samples(Channel::Voltage, 999).is_none());
    assert!(state.value_from_samples(Channel::Voltage, 1000).is_some());
    assert!(state.value_from_samples(Channel::Voltage, 11_000).is_some());
    assert!(state.value_from_samples(Channel::Voltage, 11_001).is_none());
    let short: VecDeque<F32> = VecDeque::new();
    assert!(state.value_from_vec(&short, 3000).is_none());
    let one: VecDeque<F32> = vec![held(9.0)].into();
    let read = state.value_from_vec(&one, 8000).unwrap();
    assert_eq!((read.timestamp_ms, plain(read.value)), (2000, 9.0));
    assert!(PlotState::new(1)
        .value_from_samples(Channel::Voltage, 0)
        .is_none());
}

/// Cases spanning slice_len < buckets, exact division, and non-exact division.
fn cases() -> Vec<(usize, usize)> {
    vec![
        (0, 1),
        (1, 1),
        (10, 4), // exact: slice_len % buckets == 0
        (10, 3), // inexact: remainder distributed across leading buckets
        (3, 10), // slice_len < buckets: most buckets are empty
        (1, 10),
        (1000, 7),
        (2_000_003, 4096),
    ]
}

#[test]
fn covers_exactly_zero_to_slice_len_with_no_overlap() {
    for (slice_len, buckets) in cases() {
        let mut expected_next_start = 0;
        for b in 0..buckets {
            let (start, end) = bucket_bounds(b, slice_len, buckets);
            assert_eq!(
                start, expected_next_start,
                "bucket {b} start should immediately follow previous bucket's end \
                 (slice_len={slice_len}, buckets={buckets})"
            );
            assert!(
                end <= slice_len,
                "bucket {b} end {end} exceeds slice_len {slice_len} (buckets={buckets})"
            );
            expected_next_start = end;
        }
        assert_eq!(
            expected_next_start, slice_len,
            "last bucket should end exactly at slice_len (slice_len={slice_len}, buckets={buckets})"
        );
    }
}

#[test]
fn bounds_are_monotonically_nondecreasing() {
    for (slice_len, buckets) in cases() {
        let mut prev_end = 0;
        for b in 0..buckets {
            let (start, end) = bucket_bounds(b, slice_len, buckets);
            assert!(start <= end, "start {start} > end {end} for bucket {b}");
            assert!(
                start >= prev_end,
                "bucket {b} start {start} regressed before previous end {prev_end}"
            );
            prev_end = end;
        }
    }
}

#[test]
fn empty_buckets_are_skippable_when_buckets_exceed_slice_len() {
    // slice_len < buckets: some buckets must be empty (start == end).
    let (slice_len, buckets) = (3, 10);
    let empty_count = (0..buckets)
        .filter(|&b| {
            let (start, end) = bucket_bounds(b, slice_len, buckets);
            start == end
        })
        .count();
    assert_eq!(empty_count, buckets - slice_len);
}

#[test]
fn matches_previous_float_based_formula_when_inexact() {
    let (slice_len, buckets) = (17, 5);
    let bucket_size = slice_len as f64 / buckets as f64;
    for b in 0..buckets {
        let old_start = (b as f64 * bucket_size) as usize;
        let old_end = (((b + 1) as f64 * bucket_size) as usize).min(slice_len);
        let (new_start, new_end) = bucket_bounds(b, slice_len, buckets);
        assert_eq!(old_start, new_start, "start mismatch at bucket {b}");
        assert_eq!(old_end, new_end, "end mismatch at bucket {b}");
    }
}

fn push_energy(ps: &mut PlotState, timestamp_ms: u64, energy_wh: f64) {
    // capacity_mah mirrors a distinct-but-synchronized series.
    ps.push(
        &volts(timestamp_ms, 0.0),
        total(energy_wh),
        total(energy_wh * 2.0),
    );
}

fn assert_close(actual: f64, expected: f64) {
    assert!(
        (actual - expected).abs() < 1e-9,
        "expected {expected}, got {actual}"
    );
}

#[test]
fn empty_state_returns_no_points() {
    let ps = PlotState::new(16);
    assert!(ps
        .points_from_deque(&ps.energy_wh, 1000, None, true)
        .is_empty());
    assert!(ps
        .points_from_deque(&ps.capacity_mah, 0, None, false)
        .is_empty());
}

#[test]
fn no_lod_returns_every_sample_in_order() {
    let mut ps = PlotState::new(32);
    for i in 0..8u64 {
        push_energy(&mut ps, i * 1000, i as f64);
    }
    let points = coordinates(&ps.points_from_deque(&ps.energy_wh, 1000, None, false));
    assert_eq!(points.len(), 8);
    for (i, p) in points.iter().enumerate() {
        assert_close(p[0], i as f64); // timestamp_ms / 1000
        assert_close(p[1], i as f64); // energy value at the same index
    }
}

#[test]
fn lod_decimates_to_min_max_per_bucket() {
    let mut ps = PlotState::new(2048);
    let n = 1000usize;
    for i in 0..n {
        push_energy(&mut ps, i as u64 * 10, i as f64);
    }
    // slice_len = 1000 > max_points = 10 -> buckets = 5 of 200 samples; every
    // bucket emits its lo/hi pair at the bucket-center timestamp.
    let points = coordinates(&ps.points_from_deque(&ps.energy_wh, 10, None, true));
    assert_eq!(points.len(), 10);
    // Bucket 0 covers indices 0..200 (min 0, max 199); both extremes land at the
    // center sample (index 100, t = 1.0 s), lo first.
    assert_close(points[0][0], 1.0);
    assert_close(points[0][1], 0.0);
    assert_close(points[1][0], 1.0);
    assert_close(points[1][1], 199.0);
    assert!(points.len() < n);
}

#[test]
fn all_nan_bucket_emits_gap_sentinel() {
    let mut ps = PlotState::new(2048);
    // First 200 samples carry real increasing energy; the next 200 are NaN.
    for i in 0..200u64 {
        push_energy(&mut ps, i * 10, i as f64);
    }
    for i in 200..400u64 {
        push_energy(&mut ps, i * 10, f64::NAN);
    }
    // slice_len = 400 > max_points = 4 -> buckets = 2, bucket_size = 200.
    // Bucket 0 (real) emits 2 points; bucket 1 (all NaN) emits 1 gap.
    let points = coordinates(&ps.points_from_deque(&ps.energy_wh, 4, None, true));
    assert_eq!(points.len(), 3);
    assert!(points[0][1].is_finite());
    assert!(points[1][1].is_finite());
    assert!(points[2][1].is_nan(), "all-NaN bucket must emit a NaN gap");
    // The sentinel sits at the bucket-center sample (index 300 of 200..400).
    assert_close(points[2][0], 3.0);
}

#[test]
fn public_api_keeps_series_length_synced() {
    let mut ps = PlotState::new(5);
    for i in 0..20u64 {
        push_energy(&mut ps, i * 10, i as f64); // overflows capacity -> pop_front
    }
    assert_eq!(ps.energy_wh.len(), ps.all_samples.len());
    assert_eq!(ps.capacity_mah.len(), ps.all_samples.len());

    ps.set_capacity(3);
    assert_eq!(ps.energy_wh.len(), ps.all_samples.len());
    assert_eq!(ps.capacity_mah.len(), ps.all_samples.len());

    ps.clear();
    assert_eq!(ps.energy_wh.len(), ps.all_samples.len());
    assert_eq!(ps.capacity_mah.len(), ps.all_samples.len());

    for i in 0..7u64 {
        ps.push_unlimited(&volts(i * 10, 0.0), total(i as f64), total(i as f64));
    }
    assert_eq!(ps.energy_wh.len(), ps.all_samples.len());
    assert_eq!(ps.capacity_mah.len(), ps.all_samples.len());

    assert_eq!(
        ps.points_from_deque(&ps.energy_wh, 8, None, true).len(),
        7
    );
    assert_eq!(
        ps.points_from_deque(&ps.capacity_mah, 8, None, true).len(),
        7
    );
}

/// A sample whose every field is distinct so round-trips can catch any field
/// being dropped or crossed with another.
fn distinct(ts: u64, base: f32, raw_voltage: u32, raw_current: u32) -> Sample {
    measured(
        ts,
        [base, base + 1.0, base + 2.0, base + 3.0, base + 4.0, base + 5.0],
        raw_voltage,
        raw_current,
    )
}

#[test]
fn plot_sample_is_32_bytes() {
    assert_eq!(std::mem::size_of::<PlotSample>(), 32);
}

#[test]
fn export_round_trips_every_field_including_raw_adc() {
    let mut state = PlotState::new(16);
    let inputs = [
        distinct(0, 1.0, 510_000, 120_000),
        distinct(100, 2.5, 900_000, 200_000),
        distinct(200, 3.25, 1_234_567, 7_654_321),
    ];
    for s in &inputs {
        state.push(s, total(0.0), total(0.0));
    }

    let exported = state.export_samples();
    assert_eq!(exported.len(), inputs.len());
    for (out, inp) in exported.iter().zip(&inputs) {
        assert_eq!(out.timestamp_ms, inp.timestamp_ms);
        assert_eq!(out.voltage_v.bits, inp.voltage_v.bits);
        assert_eq!(out.current_a.bits, inp.current_a.bits);
        assert_eq!(out.power_w.bits, inp.power_w.bits);
        assert_eq!(out.dp_v.bits, inp.dp_v.bits);
        assert_eq!(out.dn_v.bits, inp.dn_v.bits);
        assert_eq!(out.temp_c.bits, inp.temp_c.bits);
        assert_eq!(out.raw_voltage, inp.raw_voltage);
        assert_eq!(out.raw_current, inp.raw_current);
    }
}

#[test]
fn capacity_eviction_keeps_buffers_in_lockstep() {
    let mut state = PlotState::new(3);
    for i in 0..10u64 {
        state.push(
            &distinct(i * 10, i as f32, i as u32, (i * 2) as u32),
            total(0.0),
            total(0.0),
        );
    }
    assert_eq!(state.sample_count(), 3);
    assert_eq!(state.all_samples.len(), state.raw_adc.len());
    assert_eq!(state.all_samples.len(), state.energy_wh.len());
    assert_eq!(state.all_samples.len(), state.capacity_mah.len());

    // Only the three newest survive, and their raw ADC stays aligned.
    let exported = state.export_samples();
    assert_eq!(exported[0].timestamp_ms, 70);
    assert_eq!(exported[0].raw_voltage, 7);
    assert_eq!(exported[0].raw_current, 14);
    assert_eq!(exported[2].raw_voltage, 9);
    assert_eq!(exported[2].raw_current, 18);
}

#[test]
fn set_capacity_drains_all_buffers_in_lockstep() {
    let mut state = PlotState::new(100);
    for i in 0..10u64 {
        state.push_unlimited(
            &distinct(i * 10, i as f32, i as u32, (i * 2) as u32),
            total(0.0),
            total(0.0),
        );
    }
    state.set_capacity(4);
    assert_eq!(state.sample_count(), 4);
    assert_eq!(state.all_samples.len(), state.raw_adc.len());
    assert_eq!(state.raw_adc.len(), state.energy_wh.len());
    assert_eq!(state.energy_wh.len(), state.capacity_mah.len());

    let exported = state.export_samples();
    assert_eq!(exported.first().unwrap().timestamp_ms, 60);
    assert_eq!(exported.first().unwrap().raw_voltage, 6);
    assert_eq!(exported.last().unwrap().raw_voltage, 9);
}

#[test]
fn clear_empties_all_buffers() {
    let mut state = PlotState::new(8);
    state.push(&distinct(0, 1.0, 5, 6), total(1.0), total(2.0));
    state.clear();
    assert!(state.is_empty());
    assert!(state.raw_adc.is_empty());
    assert!(state.export_samples().is_empty());
    assert_eq!(state.generation, 1);
    assert!(state.latest.voltage.is_none());
}

fn mk(ts_ms: u64, v: f32, dp: f32, dn: f32) -> Sample {
    measured(ts_ms, [v, 0.0, 0.0, dp, dn, 0.0], 0, 0)
}

fn state_from(samples: &[Sample]) -> PlotState {
    let mut st = PlotState::new(samples.len().max(1));
    for s in samples {
        st.push_unlimited(s, total(0.0), total(0.0));
    }
    st
}

/// Bitwise coordinate equality that also treats NaN as equal to NaN.
fn coord_eq(x: f64, y: f64) -> bool {
    if x.is_nan() || y.is_nan() {
        x.is_nan() && y.is_nan()
    } else {
        x.to_bits() == y.to_bits()
    }
}

fn points_eq(a: &[[f64; 2]], b: &[[f64; 2]]) -> bool {
    a.len() == b.len()
        && a.iter()
            .zip(b)
            .all(|(p, q)| coord_eq(p[0], q[0]) && coord_eq(p[1], q[1]))
}

fn lanes<const N: usize>(
    st: &PlotState,
    channels: [Channel; N],
    max_points: usize,
    span: Option<(u64, u64)>,
    lod: bool,
) -> Vec<Vec<[f64; 2]>> {
    let drawn = st.points_from_samples_multi(channels, max_points, span, lod);
    assert_eq!(drawn.len(), N);
    drawn.iter().map(|lane| coordinates(lane)).collect()
}

#[test]
fn n1_ramp_emits_extremes_at_bucket_centers() {
    // 10-sample ramp, max_points = 4 -> 2 buckets of 5 samples each.
    let samples: Vec<Sample> = (0..10).map(|i| mk(i, i as f32, 0.0, 0.0)).collect();
    let st = state_from(&samples);

    let lane = &lanes(&st, [Channel::Voltage], 4, None, true)[0];

    // Bucket 0 (idx 0..5): lo 0 / hi 4 at center idx 2. Bucket 1 (idx 5..10):
    // lo 5 / hi 9 at center idx 7.
    let expected = vec![
        [seconds(2), 0.0],
        [seconds(2), 4.0],
        [seconds(7), 5.0],
        [seconds(7), 9.0],
    ];
    assert!(points_eq(lane, &expected), "got {lane:?}");
}

#[test]
fn n3_lanes_fold_independently_at_shared_bucket_center() {
    // Single bucket (max_points = 2) over 5 samples. Each lane's extremes come
    // from different sample indices, yet all land at the shared bucket-center x
    // (idx 2), lo before hi.
    let v = [0.0, 1.0, 2.0, 3.0, 4.0]; // ascending: min@0, max@4
    let dp = [7.0, 7.0, 7.0, 7.0, 7.0]; // flat: lo == hi
    let dn = [4.0, 3.0, 2.0, 1.0, 0.0]; // descending: min@4, max@0
    let samples: Vec<Sample> = (0..5)
        .map(|i| mk(i, v[i as usize], dp[i as usize], dn[i as usize]))
        .collect();
    let st = state_from(&samples);

    let drawn = lanes(
        &st,
        [Channel::Voltage, Channel::Dp, Channel::Dn],
        2,
        None,
        true,
    );
    let (lv, ldp, ldn) = (&drawn[0], &drawn[1], &drawn[2]);

    assert!(
        points_eq(lv, &[[seconds(2), 0.0], [seconds(2), 4.0]]),
        "v: {lv:?}"
    );
    assert!(
        points_eq(ldp, &[[seconds(2), 7.0], [seconds(2), 7.0]]),
        "dp: {ldp:?}"
    );
    assert!(
        points_eq(ldn, &[[seconds(2), 0.0], [seconds(2), 4.0]]),
        "dn: {ldn:?}"
    );
}

#[test]
fn nan_operands_ignored_and_all_nan_bucket_emits_gap_sentinel() {
    // 6 samples, max_points = 4 -> 2 buckets of 3. Bucket 0 has a leading NaN
    // that the fold must ignore; bucket 1 is all NaN -> one gap sentinel at its
    // bucket-center timestamp.
    let vals = [f32::NAN, 1.0, 2.0, f32::NAN, f32::NAN, f32::NAN];
    let samples: Vec<Sample> = (0..6)
        .map(|i| mk(i, vals[i as usize], 0.0, 0.0))
        .collect();
    let st = state_from(&samples);

    let lane = &lanes(&st, [Channel::Voltage], 4, None, true)[0];

    assert_eq!(lane.len(), 3);
    // Bucket 0 (idx 0..3, center idx 1): NaN ignored -> lo 1 / hi 2.
    assert!(
        points_eq(&lane[..2], &[[seconds(1), 1.0], [seconds(1), 2.0]]),
        "{lane:?}"
    );
    // Bucket 1 (idx 3..6, center idx 4): all NaN -> sentinel with NaN y.
    assert!(coord_eq(lane[2][0], seconds(4)), "{lane:?}");
    assert!(lane[2][1].is_nan(), "{lane:?}");
}

#[test]
fn fused_matches_separate() {
    // The fused N=3 pass must produce, lane for lane, exactly what three N=1
    // passes produce, across the non-LOD path, the pass-through path, and
    // several decimation ratios.
    let n = 1500usize;
    let samples: Vec<Sample> = (0..n)
        .map(|i| {
            let v = if i % 71 == 0 { f32::NAN } else { (i % 97) as f32 };
            let dp = if i % 50 == 0 { f32::NAN } else { (i % 53) as f32 };
            let dn = (i % 31) as f32;
            mk(i as u64, v, dp, dn)
        })
        .collect();
    let st = state_from(&samples);

    for &mp in &[0usize, 8, 64, 500, 4000] {
        for &lod in &[true, false] {
            let fused = lanes(
                &st,
                [Channel::Voltage, Channel::Dp, Channel::Dn],
                mp,
                None,
                lod,
            );
            let sv = &lanes(&st, [Channel::Voltage], mp, None, lod)[0];
            let sdp = &lanes(&st, [Channel::Dp], mp, None, lod)[0];
            let sdn = &lanes(&st, [Channel::Dn], mp, None, lod)[0];
            assert!(points_eq(&fused[0], sv), "voltage mismatch mp={mp} lod={lod}");
            assert!(points_eq(&fused[1], sdp), "dp mismatch mp={mp} lod={lod}");
            assert!(points_eq(&fused[2], sdn), "dn mismatch mp={mp} lod={lod}");
        }
    }
}

fn build_state(values: &[f32]) -> PlotState {
    let mut st = PlotState::new(values.len().max(1));
    for (i, &v) in values.iter().enumerate() {
        st.push_unlimited(&volts(i as u64 * 10, v), total(0.0), total(0.0));
    }
    st
}

/// One bucket's outcome by argmin/argmax: extreme values plus the timestamps
/// where they occur.
struct ArgBucket {
    abs_start: usize,
    abs_end: usize,
    min_val: f64, // +INFINITY when the bucket is all-NaN
    max_val: f64,
    min_x: f64,
    max_x: f64,
}

fn arg_decimate(
    st: &PlotState,
    start_idx: usize,
    end_idx: usize,
    buckets: usize,
) -> Vec<ArgBucket> {
    let slice_len = end_idx - start_idx;
    let mut out = Vec::with_capacity(buckets);
    for b in 0..buckets {
        let (local_start, local_end) = bucket_bounds(b, slice_len, buckets);
        if local_start >= local_end {
            continue;
        }
        let abs_start = start_idx + local_start;
        let abs_end = start_idx + local_end;

        let mut min_val = f64::INFINITY;
        let mut max_val = f64::NEG_INFINITY;
        let mut min_idx = abs_start;
        let mut max_idx = abs_start;
        for i in abs_start..abs_end {
            let v = f64::from(plain(st.all_samples[i].voltage_v));
            if v.is_nan() {
                continue;
            }
            if v < min_val {
                min_val = v;
                min_idx = i;
            }
            if v > max_val {
                max_val = v;
                max_idx = i;
            }
        }

        out.push(ArgBucket {
            abs_start,
            abs_end,
            min_val,
            max_val,
            min_x: seconds(st.all_samples[min_idx].timestamp_ms),
            max_x: seconds(st.all_samples[max_idx].timestamp_ms),
        });
    }
    out
}

/// Seeded LCG producing values in `[0, 1)`.
struct Lcg(u64);

impl Lcg {
    fn next_u64(&mut self) -> u64 {
        self.0 = self
            .0
            .wrapping_mul(6_364_136_223_846_793_005)
            .wrapping_add(1_442_695_040_888_963_407);
        self.0
    }

    fn next_unit(&mut self) -> f64 {
        // Top 53 bits -> uniform f64 in [0, 1).
        (self.next_u64() >> 11) as f64 / (1u64 << 53) as f64
    }
}

fn noisy_values(n: usize, seed: u64, nan_every: usize) -> Vec<f32> {
    let mut rng = Lcg(seed);
    let mut out = Vec::with_capacity(n);
    for i in 0..n {
        // Slow drift + high-frequency noise, occasional NaN runs. All finite
        // values stay positive.
        if nan_every != 0 && (i / nan_every).is_multiple_of(17) {
            out.push(f32::NAN);
            continue;
        }
        let drift = (i as f64 / 500.0).sin().mul_add(2.0, 5.0);
        let noise = (rng.next_unit() - 0.5) * 0.8;
        out.push((drift + noise) as f32);
    }
    out
}

#[test]
fn bucket_center_fold_matches_argminmax_extremes() {
    // Include constant runs and NaN runs alongside the noisy data.
    let mut values = noisy_values(4000, 0x1234_5678, 250);
    for v in &mut values[500..600] {
        *v = 3.3; // constant bucket region
    }
    for v in &mut values[700..720] {
        *v = f32::NAN; // all-NaN bucket region
    }
    let st = build_state(&values);
    let ts = |idx: usize| seconds(st.all_samples[idx].timestamp_ms);

    // Full view plus zoomed windows.
    for &visible_x in &[None, Some((5.0, 12.0)), Some((0.9, 7.31))] {
        let span = zoom(&st, visible_x);
        let (start_idx, end_idx) = st.visible_range(span);
        for &max_points in &[64usize, 512, 3998] {
            if end_idx - start_idx <= max_points {
                continue; // pass-through: no decimation to compare
            }
            let buckets = (max_points / 2).max(1);
            let old = arg_decimate(&st, start_idx, end_idx, buckets);
            let new = &lanes(&st, [Channel::Voltage], max_points, span, true)[0];

            let mut i = 0usize;
            for ob in &old {
                // Half the bucket's width in seconds (10 ms sample period), plus
                // a hair of float slack for the exactly-half-a-bucket edge case.
                let tol = (ob.abs_end - ob.abs_start) as f64 * 0.010 / 2.0 + 1e-9;
                if ob.min_val.is_infinite() {
                    // All-NaN bucket -> a single gap sentinel.
                    let [x, y] = new[i];
                    assert!(y.is_nan(), "expected NaN sentinel, got {y}");
                    assert!(
                        (x - ts(ob.abs_start)).abs() <= tol,
                        "sentinel moved more than half a bucket"
                    );
                    i += 1;
                } else {
                    let [x_lo, y_lo] = new[i];
                    let [x_hi, y_hi] = new[i + 1];
                    assert_eq!(y_lo.to_bits(), ob.min_val.to_bits(), "min differs");
                    assert_eq!(y_hi.to_bits(), ob.max_val.to_bits(), "max differs");
                    // Both extremes share the bucket-center x, and each sits
                    // within half a bucket of where it occurs.
                    assert_eq!(x_lo.to_bits(), x_hi.to_bits());
                    assert!(
                        (x_lo - ob.min_x).abs() <= tol && (x_hi - ob.max_x).abs() <= tol,
                        "extreme moved more than half a bucket"
                    );
                    i += 2;
                }
            }
            assert_eq!(i, new.len(), "point count mismatch");
        }
    }
}

#[test]
fn decimation_stays_within_the_point_limit() {
    let st = build_state(&noisy_values(1000, 9, 0));
    for max_points in 2..40usize {
        let lane = &lanes(&st, [Channel::Voltage], max_points, None, true)[0];
        assert!(lane.len() <= max_points);
    }
    // A limit of one point still draws one bucket.
    assert_eq!(lanes(&st, [Channel::Voltage], 1, None, true)[0].len(), 2);
}

#[test]
fn push_to_a_buffer_of_no_capacity_keeps_the_newest() {
    let mut ps = PlotState::new(0);
    for i in 0..4u64 {
        push_energy(&mut ps, i, i as f64);
    }
    assert_eq!(ps.sample_count(), 1);
    assert_eq!(ps.export_samples()[0].timestamp_ms, 3);
}

#[test]
fn latest_values_skip_gaps() {
    let mut ps = PlotState::new(4);
    ps.push(&volts(0, 5.0), total(1.5), total(2.5));
    ps.push(&volts(1, f32::NAN), total(f64::NAN), total(f64::NAN));
    assert_eq!(ps.latest.voltage.map(plain), Some(5.0));
    assert_eq!(ps.latest.current.map(plain), Some(0.0));
    assert_eq!(
        ps.latest.energy.map(|e| f64::from_bits(e.bits)),
        Some(1.5)
    );
    assert_eq!(
        ps.latest.capacity.map(|c| f64::from_bits(c.bits)),
        Some(2.5)
    );
}

#[test]
fn memory_is_48_bytes_per_sample() {
    let mut ps = PlotState::new(8);
    assert_eq!(ps.memory_bytes(), 0);
    for i in 0..3u64 {
        push_energy(&mut ps, i, 0.0);
    }
    assert_eq!(ps.memory_bytes(), 144);
}

#[test]
fn panels_are_laid_out_in_up_to_two_columns() {
    assert_eq!(PlotConfig::default().active().len(), 0);
    let config = PlotConfig {
        voltage: true,
        d_lines: true,
        current: false,
        power: true,
        temperature: false,
        energy: true,
        capacity: true,
    };
    assert_eq!(
        config.active(),
        vec![Panel::Voltage, Panel::Power, Panel::Energy, Panel::Capacity]
    );
    assert_eq!(Grid::of(0), None);
    assert_eq!(
        Grid::of(2),
        Some(Grid {
            count: 2,
            cols: 1,
            rows: 2
        })
    );
    let grid = Grid::of(5).unwrap();
    assert_eq!((grid.cols, grid.rows), (2, 3));
    assert_eq!(
        (1..=5).map(|n| grid.ends_row(n)).collect::<Vec<bool>>(),
        vec![false, true, false, true, false]
    );
}

#[test]
fn panels_draw_their_lines() {
    let mut state = PlotState::new(8);
    for i in 0..3u64 {
        let base = i as f32 * 10.0;
        state.push(
            &distinct(i, base, 0, 0),
            total(f64::from(base) + 6.0),
            total(f64::from(base) + 7.0),
        );
    }
    let config = PlotConfig {
        d_lines: true,
        ..PlotConfig::default()
    };
    let expected: [(Panel, Vec<Series>, Vec<f32>); 6] = [
        (
            Panel::Voltage,
            vec![
                Series::Of(Channel::Voltage),
                Series::Of(Channel::Dp),
                Series::Of(Channel::Dn),
            ],
            vec![0.0, 3.0, 4.0],
        ),
        (
            Panel::Current,
            vec![Series::Of(Channel::Current)],
            vec![1.0],
        ),
        (Panel::Power, vec![Series::Of(Channel::Power)], vec![2.0]),
        (
            Panel::Temperature,
            vec![Series::Of(Channel::Temp)],
            vec![5.0],
        ),
        (Panel::Energy, vec![Series::Energy], vec![6.0]),
        (Panel::Capacity, vec![Series::Capacity], vec![7.0]),
    ];
    for (panel, series, offsets) in expected {
        assert_eq!(config.lines_of(panel), series);
        let drawn = state.panel_points(config, panel, 100, None, true);
        assert_eq!(drawn.len(), offsets.len());
        for (lane, offset) in drawn.iter().zip(&offsets) {
            let ys: Vec<f32> = lane.iter().map(|p| plain(p.value)).collect();
            assert_eq!(ys, vec![*offset, offset + 10.0, offset + 20.0]);
        }
        let read = state.panel_value(panel, 1).unwrap();
        assert_eq!(plain(read.value), offsets[0] + 10.0);
        let shown = match state.latest.of_panel(panel) {
            Shown::Single(v) => plain(v),
            Shown::Double(v) => f64::from_bits(v.bits) as f32,
            Shown::Nothing => f32::NAN,
        };
        assert_eq!(shown, offsets[0] + 20.0);
    }
    assert_eq!(PlotConfig::default().lines_of(Panel::Voltage).len(), 1);
    assert_eq!(
        PlotState::new(1).latest.of_panel(Panel::Power),
        Shown::Nothing
    );
}

#[test]
fn panels_and_lines_have_names() {
    let names = [
        (Panel::Voltage, "voltage_plot", "Voltage", "V"),
        (Panel::Current, "current_plot", "Current", "A"),
        (Panel::Power, "power_plot", "Power", "W"),
        (Panel::Temperature, "temperature_plot", "Temperature", "\u{B0}C"),
        (Panel::Energy, "energy_plot", "Energy", "Wh"),
        (Panel::Capacity, "capacity_plot", "Capacity", "mAh"),
    ];
    for (panel, id, label, unit) in names {
        assert_eq!((panel.id(), panel.label(), panel.unit()), (id, label, unit));
    }
    assert_eq!(Series::Of(Channel::Dn).name(), "D\u{2212}");
    assert_eq!(Series::Of(Channel::Dp).name(), "D+");
    assert_eq!(Series::Energy.name(), "Wh");
}
