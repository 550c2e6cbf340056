use sipmon::analyze::media_stats::{
    rtp_ts_delta, MediaStats, MediaStatsAccumulator, RtpStatsHeader,
};
use sipmon::double::Double;

fn value(d: Double) -> f64 {
    f64::from_bits(d.bits)
}

fn double(x: f64) -> Double {
    Double { bits: x.to_bits() }
}

/// The interarrival jitter estimate; a distance of more than a second is a
/// discontinuity.
fn step(arrival: i128, ts: i64, clock: u32, jitter: Double) -> Option<Double> {
    let units = arrival as f64 * clock as f64 / 1_000_000.0;
    let delta = (units - ts as f64).abs();
    if !delta.is_finite() || clock == 0 || delta * 1000.0 / clock as f64 > 1000.0 {
        return None;
    }
    let j = value(jitter);
    Some(double(j + (delta - j) / 16.0))
}

fn rescale(jitter: Double, new: u32, old: u32) -> Double {
    double(value(jitter) * (new as f64 / old as f64))
}

fn jitter_ms(st: &MediaStats) -> Option<f64> {
    st.jitter
        .map(|j| value(j.rtp_units) * 1000.0 / j.clock_rate as f64)
}

fn hdr(seq: u16, ts: u32) -> RtpStatsHeader {
    RtpStatsHeader {
        payload_type: 0,
        sequence_number: seq,
        rtp_timestamp: ts,
        ssrc: 1,
    }
}

fn pcmu(seq: u16, ts: u32) -> RtpStatsHeader {
    hdr(seq, ts)
}

#[test]
fn gap_overflow_counts_immediate_loss() {
    let mut s = MediaStatsAccumulator::new();
    s.observe(0, Some(hdr(10, 0)), &step);
    // diff 70: 69 skipped, 64 buffered + 5 immediate loss.
    s.observe(1_000, Some(hdr(80, 0)), &step);
    let st = s.snapshot();
    assert_eq!(st.packet_count, 2);
    assert_eq!(st.lost_packets, 69);
    assert_eq!(st.expected_packets, 71);
}

#[test]
fn pending_expires_after_window() {
    let mut s = MediaStatsAccumulator::new();
    s.observe(0, Some(hdr(10, 0)), &step);
    s.observe(1_000, Some(hdr(12, 0)), &step); // gap at 11 (pending)
    s.observe(2_000, Some(hdr(100, 0)), &step); // big jump: 11 now beyond window
    let st = s.snapshot();
    // 87 gap (12..100) = 64 buffered + 23 immediate; 11 expired (+1).
    assert_eq!(st.lost_packets, 88);
    assert_eq!(st.expected_packets, 91);
}

#[test]
fn duplicate_packet_is_noop() {
    let mut s = MediaStatsAccumulator::new();
    s.observe(0, Some(hdr(10, 0)), &step);
    s.observe(1_000, Some(hdr(10, 0)), &step); // diff 0
    let st = s.snapshot();
    assert_eq!(st.packet_count, 2);
    assert_eq!(st.lost_packets, 0);
}

#[test]
fn reordered_packet_clears_pending_loss() {
    let mut s = MediaStatsAccumulator::new();
    s.observe(10_000, Some(hdr(10, 1_600)), &step);
    s.observe(30_000, Some(hdr(12, 1_920)), &step);
    s.observe(40_000, Some(hdr(11, 1_760)), &step);
    let st = s.snapshot();
    assert_eq!(st.packet_count, 3);
    assert_eq!(st.lost_packets, 0);
}

#[test]
fn unfilled_gap_counts_as_loss() {
    let mut s = MediaStatsAccumulator::new();
    s.observe(10_000, Some(hdr(10, 1_600)), &step);
    s.observe(30_000, Some(hdr(12, 1_920)), &step);
    let st = s.snapshot();
    assert_eq!(st.lost_packets, 1);
    assert_eq!(st.expected_packets, 3);
}

#[test]
fn large_forward_jump_is_restart_not_loss() {
    // SSRC/port reuse or sender restart: the new session starts at an
    // unrelated random sequence number.
    let mut s = MediaStatsAccumulator::new();
    s.observe(1_000_000, Some(hdr(100, 1_600)), &step);
    s.observe(1_020_000, Some(hdr(30_000, 480_000)), &step);
    s.observe(1_040_000, Some(hdr(30_001, 480_160)), &step);
    s.observe(1_060_000, Some(hdr(30_002, 480_320)), &step);
    let st = s.snapshot();
    assert_eq!(st.lost_packets, 0, "restart must not book ~29k lost");
    assert_eq!(st.restarts, 1);
    assert_eq!(st.expected_packets, 4);
}

#[test]
fn restart_across_seq_wraparound() {
    let mut s = MediaStatsAccumulator::new();
    s.observe(1_000_000, Some(hdr(65_500, 1_600)), &step);
    s.observe(1_020_000, Some(hdr(5_000, 480_000)), &step);
    s.observe(1_040_000, Some(hdr(5_001, 480_160)), &step);
    let st = s.snapshot();
    assert_eq!(st.lost_packets, 0, "wrapped restart must not book loss");
    assert_eq!(st.restarts, 1);
}

#[test]
fn moderate_gap_still_counts_as_loss() {
    // A 100-packet gap is below the restart threshold: still real loss.
    let mut s = MediaStatsAccumulator::new();
    s.observe(1_000_000, Some(hdr(100, 1_600)), &step);
    s.observe(1_020_000, Some(hdr(200, 3_200)), &step);
    let st = s.snapshot();
    assert_eq!(st.lost_packets, 99);
    assert_eq!(st.restarts, 0);
}

#[test]
fn steady_pcmu_has_near_zero_jitter() {
    let mut s = MediaStatsAccumulator::new();
    for i in 0..40u16 {
        let arr = 1_000_000 + u64::from(i) * 20_000;
        s.observe(arr, Some(pcmu(i, u32::from(i) * 160)), &step);
    }
    let j = jitter_ms(&s.snapshot()).unwrap();
    assert!(j < 1.0, "expected ~0 jitter, got {j}");
}

#[test]
fn multi_second_hold_does_not_inflate_jitter() {
    let mut s = MediaStatsAccumulator::new();
    s.observe(1_000_000, Some(pcmu(1, 160)), &step);
    s.observe(1_020_000, Some(pcmu(2, 320)), &step);
    // 5s hold; RTP timestamp barely advances (frozen / CN).
    s.observe(6_040_000, Some(pcmu(3, 480)), &step);
    s.observe(6_060_000, Some(pcmu(4, 640)), &step);
    let j = jitter_ms(&s.snapshot()).unwrap();
    assert!(
        j < 20.0,
        "5s hold must be treated as a timestamp jump, got {j}ms"
    );
}

#[test]
fn rtp_timestamp_reset_does_not_inflate_jitter() {
    let mut s = MediaStatsAccumulator::new();
    s.observe(1_000_000, Some(pcmu(1, 800_000)), &step);
    s.observe(1_020_000, Some(pcmu(2, 800_160)), &step);
    s.observe(1_040_000, Some(pcmu(3, 160)), &step);
    s.observe(1_060_000, Some(pcmu(4, 320)), &step);
    let j = jitter_ms(&s.snapshot()).unwrap();
    assert!(
        j < 20.0,
        "timestamp reset must be treated as a jump, got {j}ms"
    );
}

#[test]
fn set_clock_rate_rescales_units_not_milliseconds() {
    let mut s = MediaStatsAccumulator::new();
    // 1ms extra delay on one interval at 8 kHz → D = 8 units.
    s.observe(1_000_000, Some(pcmu(1, 160)), &step);
    s.observe(1_021_000, Some(pcmu(2, 320)), &step);
    let before = jitter_ms(&s.snapshot()).unwrap();
    s.set_clock_rate(48_000, &rescale);
    let after = jitter_ms(&s.snapshot()).unwrap();
    assert!(
        (before - after).abs() < 1e-9,
        "rescale must keep jitter_ms, {before} vs {after}"
    );
    assert_eq!(s.clock_rate, Some(48_000));
}

#[test]
fn a_new_accumulator_counts_nothing() {
    let st = MediaStatsAccumulator::new().snapshot();
    assert_eq!(st.packet_count, 0);
    assert_eq!(st.lost_packets, 0);
    assert_eq!(st.expected_packets, 0);
    assert!(st.jitter.is_none());
    assert!(st.clock_rate.is_none());
}

#[test]
fn a_packet_without_a_header_is_only_counted() {
    let mut s = MediaStatsAccumulator::new();
    s.observe(5, None, &step);
    let st = s.snapshot();
    assert_eq!(st.packet_count, 1);
    assert_eq!(st.expected_packets, 1);
    assert_eq!(s.payload_type, None);
    assert_eq!(s.last_sequence, None);
}

#[test]
fn a_clock_rate_of_zero_is_ignored() {
    let mut s = MediaStatsAccumulator::new();
    s.set_clock_rate(0, &rescale);
    assert_eq!(s.clock_rate, None);
    s.set_clock_rate(16_000, &rescale);
    s.set_clock_rate(0, &rescale);
    assert_eq!(s.clock_rate, Some(16_000));
}

#[test]
fn the_restart_threshold_is_exact() {
    let mut near = MediaStatsAccumulator::new();
    near.observe(0, Some(hdr(0, 0)), &step);
    near.observe(1, Some(hdr(4_096, 0)), &step);
    assert_eq!(near.snapshot().lost_packets, 4_095);
    assert_eq!(near.restarts, 0);
    let mut far = MediaStatsAccumulator::new();
    far.observe(0, Some(hdr(0, 0)), &step);
    far.observe(1, Some(hdr(4_097, 0)), &step);
    assert_eq!(far.snapshot().lost_packets, 0);
    assert_eq!(far.restarts, 1);
}

#[test]
fn a_full_window_is_pending_until_it_is_filled() {
    let mut s = MediaStatsAccumulator::new();
    s.observe(0, Some(hdr(0, 0)), &step);
    s.observe(1, Some(hdr(65, 0)), &step);
    assert_eq!(s.pending_mask, u64::MAX);
    assert_eq!(s.snapshot().lost_packets, 64);
    for seq in 1..65u16 {
        s.observe(2, Some(hdr(seq, 0)), &step);
    }
    assert_eq!(s.pending_mask, 0);
    assert_eq!(s.snapshot().lost_packets, 0);
}

#[test]
fn losses_add_up_over_gaps() {
    let mut s = MediaStatsAccumulator::new();
    let mut seen = 0u64;
    for seq in (0..900u16).step_by(3) {
        s.observe(u64::from(seq), Some(hdr(seq, 0)), &step);
        seen += 1;
    }
    let st = s.snapshot();
    assert_eq!(st.packet_count, seen);
    assert_eq!(st.lost_packets, 2 * (seen - 1));
    assert_eq!(st.expected_packets, 898);
}

#[test]
fn one_interval_moves_the_jitter_by_a_sixteenth() {
    let mut s = MediaStatsAccumulator::new();
    s.observe(1_000_000, Some(pcmu(1, 160)), &step);
    s.observe(1_021_000, Some(pcmu(2, 320)), &step);
    // D is 8 units of 1/8000 s.
    assert_eq!(value(s.jitter_rtp_units), 0.5);
    assert_eq!(s.jitter_samples, 1);
    assert_eq!(jitter_ms(&s.snapshot()), Some(0.0625));
}

#[test]
fn timestamps_wrap_around() {
    assert_eq!(rtp_ts_delta(10, 0), 10);
    assert_eq!(rtp_ts_delta(0, 10), -10);
    assert_eq!(rtp_ts_delta(5, u32::MAX - 4), 10);
    assert_eq!(rtp_ts_delta(u32::MAX - 4, 5), -10);
    assert_eq!(rtp_ts_delta(0x7fff_ffff, 0), 0x7fff_ffff);
    assert_eq!(rtp_ts_delta(0x8000_0000, 0), -0x8000_0000);
}

#[test]
fn a_step_books_each_skipped_number_once() {
    let mut s = MediaStatsAccumulator::new();
    s.observe_sequence(65_534);
    s.observe_sequence(3);
    assert_eq!(s.lost_packets, 0);
    assert_eq!(s.pending_mask.count_ones(), 4);
    s.observe_sequence(65_535);
    assert_eq!(s.pending_mask, 0b0111);
    s.observe_sequence(65_535);
    assert_eq!(s.pending_mask, 0b0111);
    assert_eq!(s.last_sequence, Some(3));
    s.observe_sequence(103);
    assert_eq!(s.lost_packets + u64::from(s.pending_mask.count_ones()), 3 + 99);
}

#[test]
fn a_late_packet_needs_no_room() {
    let mut s = MediaStatsAccumulator::new();
    s.observe_sequence(10);
    s.observe_sequence(12);
    s.lost_packets = u64::MAX;
    s.restarts = u64::MAX;
    s.observe_sequence(11);
    assert_eq!(s.pending_mask, 0);
    s.observe_sequence(13);
    assert_eq!(s.lost_packets, u64::MAX);
    assert_eq!(s.last_sequence, Some(13));
}
