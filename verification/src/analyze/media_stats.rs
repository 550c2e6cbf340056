//! Per-stream media statistics after RFC 3550: loss with a 64-packet reorder
//! window, and interarrival jitter.
use crate::bits::{
    bits, clear_bit, copies, count_ones, lemma_trues_bound, lemma_trues_of_clear,
    lemma_trues_of_copies, lemma_trues_of_sum, ones_on_top, shift_in, trues,
};
use crate::decode::rtp::{clock_rate_of, rtp_clock_rate_for_payload_type};
use crate::double::Double;
use vstd::prelude::*;

verus! {

/// How many sequence numbers before the newest may still arrive.
pub const RTP_REORDER_WINDOW: u16 = 64;

/// A forward jump larger than this between two arrivals is a restart of the
/// sender, not loss: one gap cannot skip thousands of packets.
pub const RTP_RESTART_WINDOW: u16 = 4096;

/// What the statistics need of an RTP header.
#[derive(Clone, Copy, PartialEq, Eq, Structural, Debug)]
pub struct RtpStatsHeader {
    /// The payload type.
    pub payload_type: u8,
    /// The sequence number.
    pub sequence_number: u16,
    /// The media timestamp.
    pub rtp_timestamp: u32,
    /// The synchronization source.
    pub ssrc: u32,
}

/// Running statistics of one stream.
#[derive(Clone, Copy, PartialEq, Eq, Structural, Debug)]
pub struct MediaStatsAccumulator {
    /// Packets seen.
    pub packet_count: u64,
    /// Packets given up for lost.
    pub lost_packets: u64,
    /// Sequence restarts, which do not count as loss.
    pub restarts: u64,
    /// The payload type of the first header.
    pub payload_type: Option<u8>,
    /// Ticks of the media timestamp per second.
    pub clock_rate: Option<u32>,
    /// The first sequence number.
    pub first_sequence: Option<u16>,
    /// The newest sequence number.
    pub last_sequence: Option<u16>,
    /// Which of the 64 sequence numbers before the newest have not arrived:
    /// bit `age - 1` stands for the one `age` steps back.
    pub pending_mask: u64,
    /// When the last packet arrived.
    pub prev_arrival_micros: Option<u64>,
    /// The media timestamp of the last packet.
    pub prev_rtp_timestamp: Option<u32>,
    /// The jitter estimate, in ticks of the media timestamp.
    pub jitter_rtp_units: Double,
    /// How many packet pairs went into the jitter estimate.
    pub jitter_samples: u64,
}

/// A jitter estimate in ticks, with the number of ticks per second.
#[derive(Clone, Copy, PartialEq, Eq, Structural, Debug)]
pub struct Jitter {
    /// The estimate in ticks.
    pub rtp_units: Double,
    /// Ticks per second; not zero.
    pub clock_rate: u32,
}

/// The statistics of one stream at one moment. The loss rate is
/// `lost_packets` out of `expected_packets`.
#[derive(Clone, Copy, PartialEq, Eq, Structural, Debug)]
pub struct MediaStats {
    /// Packets seen.
    pub packet_count: u64,
    /// Packets lost, those still pending among them.
    pub lost_packets: u64,
    /// Packets seen or lost.
    pub expected_packets: u64,
    /// Sequence restarts.
    pub restarts: u64,
    /// The jitter estimate, once there is one.
    pub jitter: Option<Jitter>,
    /// The payload type.
    pub payload_type: Option<u8>,
    /// Ticks of the media timestamp per second.
    pub clock_rate: Option<u32>,
}

/// How many steps forward lead from one sequence number to another, around
/// the end of the number range.
pub open spec fn ahead(from: u16, to: u16) -> int {
    (to - from) % 0x1_0000
}

/// What is known of the sequence numbers of a stream. `pending[i]` tells
/// whether the number `i + 1` steps before the newest is missing.
#[verifier::ext_equal]
pub ghost struct Tracking {
    pub first: Option<u16>,
    pub last: Option<u16>,
    pub lost: int,
    pub restarts: int,
    pub pending: Seq<bool>,
}

/// The newest number moves `d` steps forward. What leaves the window is lost,
/// as is the part of the gap that does not fit in it; the rest of the gap is
/// pending.
pub open spec fn advance(t: Tracking, seq: u16, d: int) -> Tracking {
    Tracking {
        last: Some(seq),
        lost: t.lost + trues(
            t.pending.subrange(
                if d >= 64 {
                    0
                } else {
                    64 - d
                },
                64,
            ),
        ) + if d > 65 {
            d - 65
        } else {
            0
        },
        pending: Seq::new(
            64,
            |i: int|
                if i < d {
                    i < d - 1
                } else {
                    t.pending[i - d]
                },
        ),
        ..t
    }
}

/// What one arrival does to the tracking.
pub open spec fn track(t: Tracking, seq: u16) -> Tracking {
    match (t.first, t.last) {
        (None, _) => Tracking { first: Some(seq), last: Some(seq), ..t },
        (_, None) => Tracking { last: Some(seq), ..t },
        (_, Some(last)) => {
            let d = ahead(last, seq);
            let age = ahead(seq, last);
            if d == 0 {
                t
            } else if d >= 0x8000 {
                if age <= RTP_REORDER_WINDOW {
                    Tracking { pending: t.pending.update(age - 1, false), ..t }
                } else {
                    t
                }
            } else if d > RTP_RESTART_WINDOW {
                Tracking {
                    last: Some(seq),
                    restarts: t.restarts + 1,
                    pending: copies(64, false),
                    ..t
                }
            } else {
                advance(t, seq, d)
            }
        },
    }
}

/// Every number known to be missing: given up for lost, or pending.
pub open spec fn missing(t: Tracking) -> int {
    t.lost + trues(t.pending)
}

/// The signed distance between two media timestamps.
pub open spec fn ts_delta(cur: u32, prev: u32) -> int {
    let forward = (cur - prev) % 0x1_0000_0000;
    if forward < 0x8000_0000 {
        forward
    } else {
        forward - 0x1_0000_0000
    }
}

/// The signed distance between two media timestamps.
pub fn rtp_ts_delta(cur: u32, prev: u32) -> (r: i64)
    ensures
        r == ts_delta(cur, prev),
{
    let forward = cur.wrapping_sub(prev);
    if forward <= 0x7fff_ffff {
        forward as i64
    } else {
        -(prev.wrapping_sub(cur) as i64)
    }
}

/// Whether the counters still fit once a sequence number has arrived.
pub open spec fn sequence_fits(t: Tracking, seq: u16) -> bool {
    track(t, seq).lost <= u64::MAX && track(t, seq).restarts <= u64::MAX
}

/// Whether the counters still fit once a packet has arrived.
pub open spec fn room_for(s: MediaStatsAccumulator, header: Option<RtpStatsHeader>) -> bool {
    &&& s.packet_count < u64::MAX
    &&& header matches Some(h) ==> sequence_fits(s.tracking(), h.sequence_number)
        && s.jitter_samples < u64::MAX
}

impl MediaStatsAccumulator {
    /// What is known of the sequence numbers.
    pub open spec fn tracking(self) -> Tracking {
        Tracking {
            first: self.first_sequence,
            last: self.last_sequence,
            lost: self.lost_packets as int,
            restarts: self.restarts as int,
            pending: bits(self.pending_mask),
        }
    }

    /// Statistics of a stream without packets.
    pub open spec fn spec_new() -> MediaStatsAccumulator {
        MediaStatsAccumulator {
            packet_count: 0,
            lost_packets: 0,
            restarts: 0,
            payload_type: None,
            clock_rate: None,
            first_sequence: None,
            last_sequence: None,
            pending_mask: 0,
            prev_arrival_micros: None,
            prev_rtp_timestamp: None,
            jitter_rtp_units: Double::spec_zero(),
            jitter_samples: 0,
        }
    }

    /// Statistics of a stream without packets.
    pub fn new() -> (r: MediaStatsAccumulator)
        ensures
            r == MediaStatsAccumulator::spec_new(),
    {
        MediaStatsAccumulator {
            packet_count: 0,
            lost_packets: 0,
            restarts: 0,
            payload_type: None,
            clock_rate: None,
            first_sequence: None,
            last_sequence: None,
            pending_mask: 0,
            prev_arrival_micros: None,
            prev_rtp_timestamp: None,
            jitter_rtp_units: Double::zero(),
            jitter_samples: 0,
        }
    }

    /// Sets the clock rate, unless it is zero. A jitter estimate in ticks of
    /// another clock is replaced by `rescale` of the estimate, the new rate
    /// and the old one.
    pub fn set_clock_rate<F: Fn(Double, u32, u32) -> Double>(&mut self, rate: u32, rescale: &F)
        requires
            forall|j: Double, new: u32, old: u32| call_requires(rescale, (j, new, old)),
        ensures
            rescaled(*old(self), *final(self), rate, rescale),
    {
        if rate == 0 {
            return;
        }
        if let Some(was) = self.clock_rate {
            if was != 0 && was != rate {
                self.jitter_rtp_units = rescale(self.jitter_rtp_units, rate, was);
            }
        }
        self.clock_rate = Some(rate);
    }

    /// Takes in one packet. Of two packets in a row, `step` is given the
    /// microseconds between their arrivals, the distance of their timestamps,
    /// the clock rate and the jitter estimate; it returns the new estimate, or
    /// nothing where the pair is a discontinuity.
    pub fn observe<F: Fn(i128, i64, u32, Double) -> Option<Double>>(
        &mut self,
        arrival_micros: u64,
        header: Option<RtpStatsHeader>,
        step: &F,
    )
        requires
            room_for(*old(self), header),
            forall|a: i128, t: i64, c: u32, j: Double| call_requires(step, (a, t, c, j)),
        ensures
            observed(*old(self), *final(self), arrival_micros, header, step),
    {
        self.packet_count += 1;
        let h = match header {
            Some(h) => h,
            None => {
                return;
            },
        };
        if self.payload_type.is_none() {
            self.payload_type = Some(h.payload_type);
        }
        let clock: u32 = match self.clock_rate {
            Some(c) => c,
            None => rtp_clock_rate_for_payload_type(h.payload_type),
        };
        self.clock_rate = Some(clock);
        self.observe_sequence(h.sequence_number);
        self.observe_jitter(arrival_micros, h, clock, step);
    }

    /// Takes in the sequence number of a packet. A step forward books every
    /// number that it skips once, as pending or as lost. A packet that comes
    /// late takes back its own pending loss, where it is not too late for that.
    pub fn observe_sequence(&mut self, seq: u16)
        requires
            sequence_fits(old(self).tracking(), seq),
        ensures
            final(self).tracking() == track(old(self).tracking(), seq),
            old(self).first_sequence is Some ==> (old(self).last_sequence matches Some(l) ==> {
                &&& 1 <= ahead(l, seq) <= RTP_RESTART_WINDOW ==> {
                    &&& final(self).lost_packets + trues(bits(final(self).pending_mask)) == old(
                        self,
                    ).lost_packets + trues(bits(old(self).pending_mask)) + ahead(l, seq) - 1
                    &&& final(self).lost_packets >= old(self).lost_packets
                    &&& final(self).last_sequence == Some(seq)
                    &&& final(self).restarts == old(self).restarts
                }
                &&& ahead(seq, l) <= 0x8000 ==> {
                    &&& final(self).lost_packets == old(self).lost_packets
                    &&& final(self).restarts == old(self).restarts
                    &&& final(self).first_sequence == old(self).first_sequence
                    &&& final(self).last_sequence == old(self).last_sequence
                    &&& final(self).pending_mask == if 1 <= ahead(seq, l) <= RTP_REORDER_WINDOW {
                        old(self).pending_mask & !(1u64 << ((ahead(seq, l) - 1) as u32))
                    } else {
                        old(self).pending_mask
                    }
                }
            }),
            *final(self) == (MediaStatsAccumulator {
                lost_packets: final(self).lost_packets,
                restarts: final(self).restarts,
                first_sequence: final(self).first_sequence,
                last_sequence: final(self).last_sequence,
                pending_mask: final(self).pending_mask,
                ..*old(self)
            }),
    {
        if self.first_sequence.is_none() {
            self.first_sequence = Some(seq);
            self.last_sequence = Some(seq);
            return;
        }
        let last = match self.last_sequence {
            Some(l) => l,
            None => {
                self.last_sequence = Some(seq);
                return;
            },
        };
        let diff = seq.wrapping_sub(last);
        if diff == 0 {
            return;
        }
        if diff < 0x8000 {
            if diff > RTP_RESTART_WINDOW {
                self.pending_mask = 0;
                self.restarts += 1;
                self.last_sequence = Some(seq);
                assert forall|i: int| 0 <= i < 64 implies !bits(0)[i] by {
                    let j = i as u64;
                    assert((0u64 >> j) & 1 == 0) by (bit_vector);
                }
                assert(self.tracking() =~= track(old(self).tracking(), seq));
                return;
            }
            let d: u32 = diff as u32;
            proof {
                lemma_trues_bound(
                    bits(self.pending_mask).subrange(
                        if d >= 64 {
                            0
                        } else {
                            64 - d
                        },
                        64,
                    ),
                );
            }
            let expired: u64 = ones_on_top(self.pending_mask, d) as u64;
            let skipped: u64 = if d > 65 {
                (d - 65) as u64
            } else {
                0
            };
            self.lost_packets += expired + skipped;
            self.pending_mask = shift_in(
                self.pending_mask,
                d,
                if d > 64 {
                    64
                } else {
                    d - 1
                },
            );
            self.last_sequence = Some(seq);
            assert(self.tracking() =~= advance(old(self).tracking(), seq, d as int));
            proof {
                a_gap_adds_what_it_skips(old(self).tracking(), seq, d as int);
            }
        } else {
            let age = last.wrapping_sub(seq);
            if age <= RTP_REORDER_WINDOW {
                self.pending_mask = clear_bit(self.pending_mask, (age - 1) as u32);
            }
        }
    }

    fn observe_jitter<F: Fn(i128, i64, u32, Double) -> Option<Double>>(
        &mut self,
        arrival_us: u64,
        h: RtpStatsHeader,
        clock: u32,
        step: &F,
    )
        requires
            old(self).jitter_samples < u64::MAX,
            forall|a: i128, t: i64, c: u32, j: Double| call_requires(step, (a, t, c, j)),
        ensures
            final(self).prev_arrival_micros == Some(arrival_us),
            final(self).prev_rtp_timestamp == Some(h.rtp_timestamp),
            jitter_step(*old(self), *final(self), arrival_us, h, clock, step),
            *final(self) == (MediaStatsAccumulator {
                prev_arrival_micros: final(self).prev_arrival_micros,
                prev_rtp_timestamp: final(self).prev_rtp_timestamp,
                jitter_rtp_units: final(self).jitter_rtp_units,
                jitter_samples: final(self).jitter_samples,
                ..*old(self)
            }),
    {
        if let (Some(prev_arr), Some(prev_rtp)) = (
            self.prev_arrival_micros,
            self.prev_rtp_timestamp,
        ) {
            let between: i128 = arrival_us as i128 - prev_arr as i128;
            let delta: i64 = rtp_ts_delta(h.rtp_timestamp, prev_rtp);
            let next = step(between, delta, clock, self.jitter_rtp_units);
            if let Some(j) = next {
                self.jitter_rtp_units = j;
                self.jitter_samples += 1;
            }
        }
        self.prev_arrival_micros = Some(arrival_us);
        self.prev_rtp_timestamp = Some(h.rtp_timestamp);
    }

    /// The statistics so far.
    pub open spec fn spec_snapshot(self) -> MediaStats {
        let lost = missing(self.tracking());
        MediaStats {
            packet_count: self.packet_count,
            lost_packets: lost as u64,
            expected_packets: (self.packet_count + lost) as u64,
            restarts: self.restarts,
            jitter: match self.clock_rate {
                Some(c) if c > 0 && self.jitter_samples > 0 => Some(
                    Jitter { rtp_units: self.jitter_rtp_units, clock_rate: c },
                ),
                _ => None,
            },
            payload_type: self.payload_type,
            clock_rate: self.clock_rate,
        }
    }

    /// The statistics so far.
    pub fn snapshot(&self) -> (r: MediaStats)
        requires
            self.packet_count + missing(self.tracking()) <= u64::MAX,
        ensures
            r == self.spec_snapshot(),
            r.lost_packets == missing(self.tracking()),
            r.expected_packets == r.packet_count + r.lost_packets,
    {
        proof {
            lemma_trues_bound(bits(self.pending_mask));
        }
        let lost: u64 = self.lost_packets + count_ones(self.pending_mask) as u64;
        let jitter = match self.clock_rate {
            Some(c) => if c > 0 && self.jitter_samples > 0 {
                Some(Jitter { rtp_units: self.jitter_rtp_units, clock_rate: c })
            } else {
                None
            },
            None => None,
        };
        MediaStats {
            packet_count: self.packet_count,
            lost_packets: lost,
            expected_packets: self.packet_count + lost,
            restarts: self.restarts,
            jitter,
            payload_type: self.payload_type,
            clock_rate: self.clock_rate,
        }
    }
}

/// What a clock rate does to the statistics: nothing where it is zero; else it
/// is set, and a jitter estimate in ticks of another clock is rescaled.
pub open spec fn rescaled<F: Fn(Double, u32, u32) -> Double>(
    was: MediaStatsAccumulator,
    is: MediaStatsAccumulator,
    rate: u32,
    rescale: &F,
) -> bool {
    if rate == 0 {
        is == was
    } else {
        &&& is == (MediaStatsAccumulator {
            clock_rate: Some(rate),
            jitter_rtp_units: is.jitter_rtp_units,
            ..was
        })
        &&& match was.clock_rate {
            Some(old) if old != 0 && old != rate => call_ensures(
                rescale,
                (was.jitter_rtp_units, rate, old),
                is.jitter_rtp_units,
            ),
            _ => is.jitter_rtp_units == was.jitter_rtp_units,
        }
    }
}

/// What one packet does to the statistics: it is counted, and its header
/// moves the sequence tracking and the jitter estimate on.
pub open spec fn observed<F: Fn(i128, i64, u32, Double) -> Option<Double>>(
    was: MediaStatsAccumulator,
    is: MediaStatsAccumulator,
    arrival_us: u64,
    header: Option<RtpStatsHeader>,
    step: &F,
) -> bool {
    &&& is.packet_count == was.packet_count + 1
    &&& match header {
        None => is == (MediaStatsAccumulator { packet_count: is.packet_count, ..was }),
        Some(h) => {
            let clock = match was.clock_rate {
                Some(c) => c,
                None => clock_rate_of(h.payload_type),
            };
            &&& is.payload_type == Some(
                match was.payload_type {
                    Some(p) => p,
                    None => h.payload_type,
                },
            )
            &&& is.clock_rate == Some(clock)
            &&& is.tracking() == track(was.tracking(), h.sequence_number)
            &&& is.prev_arrival_micros == Some(arrival_us)
            &&& is.prev_rtp_timestamp == Some(h.rtp_timestamp)
            &&& jitter_step(was, is, arrival_us, h, clock, step)
        },
    }
}

/// What one packet does to the jitter estimate: nothing at the first packet,
/// else what `step` decides from the packet before.
pub open spec fn jitter_step<F: Fn(i128, i64, u32, Double) -> Option<Double>>(
    was: MediaStatsAccumulator,
    is: MediaStatsAccumulator,
    arrival_us: u64,
    h: RtpStatsHeader,
    clock: u32,
    step: &F,
) -> bool {
    match (was.prev_arrival_micros, was.prev_rtp_timestamp) {
        (Some(a), Some(t)) => exists|next: Option<Double>|
            {
                &&& #[trigger] call_ensures(
                    step,
                    (
                        (arrival_us - a) as i128,
                        ts_delta(h.rtp_timestamp, t) as i64,
                        clock,
                        was.jitter_rtp_units,
                    ),
                    next,
                )
                &&& match next {
                    Some(j) => is.jitter_rtp_units == j && is.jitter_samples == was.jitter_samples
                        + 1,
                    None => is.jitter_rtp_units == was.jitter_rtp_units && is.jitter_samples
                        == was.jitter_samples,
                }
            },
        _ => is.jitter_rtp_units == was.jitter_rtp_units && is.jitter_samples == was.jitter_samples,
    }
}

/// A step forward of `d` makes exactly the `d - 1` numbers in between
/// missing, whatever leaves the window.
pub proof fn a_gap_adds_what_it_skips(t: Tracking, seq: u16, d: int)
    requires
        t.pending.len() == 64,
        d > 0,
    ensures
        missing(advance(t, seq, d)) == missing(t) + d - 1,
        advance(t, seq, d).pending.len() == 64,
{
    let k = if d >= 64 {
        0
    } else {
        64 - d
    };
    let kept = t.pending.subrange(0, k);
    let gone = t.pending.subrange(k, 64);
    assert(t.pending =~= kept + gone);
    lemma_trues_of_sum(kept, gone);
    let next = advance(t, seq, d).pending;
    if d > 64 {
        assert(next =~= copies(64, true));
        assert(kept =~= Seq::<bool>::empty());
        lemma_trues_of_copies(64, true);
    } else {
        let gap = copies((d - 1) as nat, true);
        assert(next =~= gap + copies(1, false) + kept);
        lemma_trues_of_sum(gap + copies(1, false), kept);
        lemma_trues_of_sum(gap, copies(1, false));
        lemma_trues_of_copies((d - 1) as nat, true);
        lemma_trues_of_copies(1, false);
    }
}

/// A late packet inside the reorder window takes back exactly its own loss,
/// and a second copy of it nothing.
pub proof fn a_late_packet_is_no_loss(t: Tracking, seq: u16, last: u16)
    requires
        t.pending.len() == 64,
        t.first is Some,
        t.last == Some(last),
        1 <= ahead(seq, last) <= RTP_REORDER_WINDOW,
    ensures
        missing(track(t, seq)) == missing(t) - if t.pending[ahead(seq, last) - 1] {
            1int
        } else {
            0int
        },
        track(track(t, seq), seq) == track(t, seq),
        track(t, seq).lost == t.lost,
        track(t, seq).last == t.last,
{
    let age = ahead(seq, last);
    assert(ahead(last, seq) == 0x1_0000 - age) by {
        assert((seq - last) % 0x1_0000 == 0x1_0000 - (last - seq) % 0x1_0000) by (nonlinear_arith)
            requires
                (last - seq) % 0x1_0000 > 0,
        ;
    }
    lemma_trues_of_clear(t.pending, age - 1);
    assert(track(track(t, seq), seq) =~= track(t, seq));
}

/// A repeat of the newest packet changes nothing.
pub proof fn a_duplicate_changes_nothing(t: Tracking, seq: u16)
    requires
        t.first is Some,
        t.last == Some(seq),
    ensures
        track(t, seq) == t,
{
}

/// A jump beyond the restart window adds no loss: pending numbers are
/// forgotten and tracking goes on from the new number.
pub proof fn a_restart_is_no_loss(t: Tracking, seq: u16, last: u16)
    requires
        t.first is Some,
        t.last == Some(last),
        RTP_RESTART_WINDOW < ahead(last, seq) < 0x8000,
    ensures
        missing(track(t, seq)) == t.lost,
        track(t, seq).restarts == t.restarts + 1,
        track(t, seq).last == Some(seq),
{
    lemma_trues_of_copies(64, false);
}

/// Numbers given up for lost stay lost: no arrival lowers the count.
pub proof fn lost_never_falls(t: Tracking, seq: u16)
    ensures
        track(t, seq).lost >= t.lost,
        track(t, seq).restarts >= t.restarts,
{
}

/// The distance from one sequence number to another is what takes the first to the
/// second, round the wrap.
pub proof fn a_distance_leads_from_one_to_the_other(from: u16, to: u16)
    ensures
        0 <= ahead(from, to) < 65536,
        from + ahead(from, to) == to || from + ahead(from, to) == to + 65536,
        ahead(from, to) + ahead(to, from) == if from == to {
            0int
        } else {
            65536
        },
{
}

/// The step between two media timestamps is the shortest that takes the earlier to
/// the later, round the wrap.
pub proof fn a_media_step_is_the_shortest(cur: u32, prev: u32)
    ensures
        -0x8000_0000 <= ts_delta(cur, prev) < 0x8000_0000,
        prev + ts_delta(cur, prev) == cur || prev + ts_delta(cur, prev) == cur + 0x1_0000_0000
            || prev + ts_delta(cur, prev) == cur - 0x1_0000_0000,
{
}

/// What an arrival does to the sequence, by how far it lies from the newest number.
/// Up to 4096 ahead, it becomes the newest: the numbers in between are missing, and
/// of the 64 before it each is pending that was pending or that was skipped. Up to
/// 64 behind, it is no longer pending. Further behind it changes nothing. Further
/// ahead, the sequence starts anew.
pub proof fn an_arrival_moves_the_sequence_by_its_distance(t: Tracking, seq: u16, last: u16, d: int)
    requires
        t.pending.len() == 64,
        t.first is Some,
        t.last == Some(last),
        -32768 <= d < 32768,
        seq == last + d || seq == last + d - 65536 || seq == last + d + 65536,
    ensures
        ({
            let n = track(t, seq);
            &&& n.first == t.first
            &&& n.pending.len() == 64
            &&& 1 <= d <= 4096 ==> {
                &&& n.last == Some(seq)
                &&& n.restarts == t.restarts
                &&& missing(n) == missing(t) + d - 1
                &&& forall|age: int|
                    1 <= age <= 64 ==> #[trigger] n.pending[age - 1] == (age < d || (age > d
                        && t.pending[age - d - 1]))
            }
            &&& d > 4096 ==> {
                &&& n.last == Some(seq)
                &&& n.restarts == t.restarts + 1
                &&& n.lost == t.lost
                &&& forall|i: int| 0 <= i < 64 ==> !#[trigger] n.pending[i]
            }
            &&& -64 <= d < 0 ==> {
                &&& n.last == t.last && n.lost == t.lost && n.restarts == t.restarts
                &&& !n.pending[-d - 1]
                &&& forall|i: int|
                    0 <= i < 64 && i != -d - 1 ==> #[trigger] n.pending[i] == t.pending[i]
            }
            &&& d < -64 || d == 0 ==> n == t
        }),
{
    assert(d >= 0 ==> ahead(last, seq) == d);
    assert(d < 0 ==> ahead(last, seq) == d + 65536 && ahead(seq, last) == -d);
    if 1 <= d <= 4096 {
        a_gap_adds_what_it_skips(t, seq, d);
        let n = track(t, seq);
        assert forall|age: int| 1 <= age <= 64 implies #[trigger] n.pending[age - 1] == (age < d
            || (age > d && t.pending[age - d - 1])) by {
            assert(age > d ==> t.pending[(age - 1) - d] == t.pending[age - d - 1]);
        }
    }
}

/// The first number of a sequence is also its newest, and nothing is missing by it.
pub proof fn the_first_number_starts_the_sequence(t: Tracking, seq: u16)
    requires
        t.first is None,
    ensures
        track(t, seq).first == Some(seq),
        track(t, seq).last == Some(seq),
        missing(track(t, seq)) == missing(t),
        track(t, seq).restarts == t.restarts,
{
}

/// What is read off an accumulator: the packets seen, those given up or still
/// pending as lost, and both together as expected. Jitter is told once a packet pair
/// was measured against a clock that runs.
pub proof fn a_reading_counts_what_is_missing(acc: MediaStatsAccumulator)
    requires
        acc.packet_count + acc.lost_packets + crate::bits::true_places(bits(acc.pending_mask)).len()
            <= u64::MAX,
    ensures
        ({
            let st = acc.spec_snapshot();
            &&& st.packet_count == acc.packet_count
            &&& st.lost_packets == acc.lost_packets + crate::bits::true_places(
                bits(acc.pending_mask),
            ).len()
            &&& st.lost_packets == missing(acc.tracking())
            &&& st.expected_packets == st.packet_count + st.lost_packets
            &&& st.restarts == acc.restarts
            &&& st.payload_type == acc.payload_type
            &&& st.clock_rate == acc.clock_rate
            &&& st.jitter is Some <==> acc.jitter_samples > 0 && acc.clock_rate is Some
                && acc.clock_rate->0 > 0
            &&& st.jitter matches Some(j) ==> j.rtp_units == acc.jitter_rtp_units
                && acc.clock_rate == Some(j.clock_rate)
        }),
{
    crate::bits::the_count_is_of_the_true_places(bits(acc.pending_mask));
}

/// What a packet with a header does to the statistics: it is counted once, the first
/// payload type and the first clock stay, its arrival and its timestamp are kept for
/// the next, and the jitter goes on from the time and the timestamp that passed since
/// the packet before, where there was one.
pub proof fn a_packet_goes_into_the_statistics<F: Fn(i128, i64, u32, Double) -> Option<Double>>(
    was: MediaStatsAccumulator,
    is: MediaStatsAccumulator,
    arrival_us: u64,
    h: RtpStatsHeader,
    step: &F,
)
    requires
        observed(was, is, arrival_us, Some(h), step),
    ensures
        is.packet_count == was.packet_count + 1,
        was.payload_type is None ==> is.payload_type == Some(h.payload_type),
        was.payload_type is Some ==> is.payload_type == was.payload_type,
        was.clock_rate is Some ==> is.clock_rate == was.clock_rate,
        was.clock_rate is None && 96 <= h.payload_type <= 127 ==> is.clock_rate == Some(48000u32),
        was.clock_rate is None && (h.payload_type < 96 || h.payload_type > 127) ==> is.clock_rate
            == Some(8000u32),
        is.prev_arrival_micros == Some(arrival_us),
        is.prev_rtp_timestamp == Some(h.rtp_timestamp),
        is.tracking() == track(was.tracking(), h.sequence_number),
        was.prev_arrival_micros is None || was.prev_rtp_timestamp is None ==> is.jitter_rtp_units
            == was.jitter_rtp_units && is.jitter_samples == was.jitter_samples,
        was.prev_arrival_micros is Some && was.prev_rtp_timestamp is Some ==> exists|
            delta: i64,
            next: Option<Double>,
        |
            {
                &&& #[trigger] call_ensures(
                    step,
                    (
                        (arrival_us - was.prev_arrival_micros->0) as i128,
                        delta,
                        is.clock_rate->0,
                        was.jitter_rtp_units,
                    ),
                    next,
                )
                &&& -0x8000_0000 <= delta < 0x8000_0000
                &&& (was.prev_rtp_timestamp->0 + delta - h.rtp_timestamp) % 0x1_0000_0000 == 0
                &&& next is Some ==> is.jitter_rtp_units == next->0 && is.jitter_samples
                    == was.jitter_samples + 1
                &&& next is None ==> is.jitter_rtp_units == was.jitter_rtp_units
                    && is.jitter_samples == was.jitter_samples
            },
{
    if was.prev_arrival_micros is Some && was.prev_rtp_timestamp is Some {
        let a = was.prev_arrival_micros->0;
        let t = was.prev_rtp_timestamp->0;
        let delta = ts_delta(h.rtp_timestamp, t) as i64;
        a_media_step_is_the_shortest(h.rtp_timestamp, t);
        let clock = is.clock_rate->0;
        let next = choose|next: Option<Double>|
            {
                &&& #[trigger] call_ensures(
                    step,
                    ((arrival_us - a) as i128, delta, clock, was.jitter_rtp_units),
                    next,
                )
                &&& match next {
                    Some(j) => is.jitter_rtp_units == j && is.jitter_samples == was.jitter_samples
                        + 1,
                    None => is.jitter_rtp_units == was.jitter_rtp_units && is.jitter_samples
                        == was.jitter_samples,
                }
            };
        assert(call_ensures(
            step,
            ((arrival_us - a) as i128, delta, clock, was.jitter_rtp_units),
            next,
        ));
        assert((t + delta - h.rtp_timestamp) % 0x1_0000_0000 == 0);
    }
}

/// A packet without a header is counted and changes nothing else.
pub proof fn a_packet_without_a_header_only_counts<
    F: Fn(i128, i64, u32, Double) -> Option<Double>,
>(was: MediaStatsAccumulator, is: MediaStatsAccumulator, arrival_us: u64, step: &F)
    requires
        observed(was, is, arrival_us, None, step),
    ensures
        is.packet_count == was.packet_count + 1,
        is.tracking() == was.tracking(),
        is.jitter_rtp_units == was.jitter_rtp_units,
        is.jitter_samples == was.jitter_samples,
        is.clock_rate == was.clock_rate,
        is.payload_type == was.payload_type,
        is.prev_arrival_micros == was.prev_arrival_micros,
        is.prev_rtp_timestamp == was.prev_rtp_timestamp,
{
}

/// A clock that does not run is not taken over. Any other is, and the jitter keeps
/// its ticks unless there was another running clock before: then it is rescaled from
/// the old clock to the new.
pub proof fn a_new_clock_rescales_the_jitter<F: Fn(Double, u32, u32) -> Double>(
    was: MediaStatsAccumulator,
    is: MediaStatsAccumulator,
    rate: u32,
    rescale: &F,
)
    requires
        rescaled(was, is, rate, rescale),
    ensures
        rate == 0 ==> is == was,
        rate > 0 ==> is.clock_rate == Some(rate),
        rate > 0 && (was.clock_rate is None || was.clock_rate == Some(0u32) || was.clock_rate
            == Some(rate)) ==> is.jitter_rtp_units == was.jitter_rtp_units,
        rate > 0 && was.clock_rate is Some && was.clock_rate->0 > 0 && was.clock_rate->0 != rate
            ==> call_ensures(
            rescale,
            (was.jitter_rtp_units, rate, was.clock_rate->0),
            is.jitter_rtp_units,
        ),
        is.packet_count == was.packet_count,
        is.tracking() == was.tracking(),
        is.jitter_samples == was.jitter_samples,
        is.payload_type == was.payload_type,
{
}

} // verus!
