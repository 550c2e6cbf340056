//! RTP streams: what is measured of one directed flow with one source.
use crate::addr::Flow5Tuple;
use crate::analyze::media_stats::{
    a_new_clock_rescales_the_jitter, a_packet_goes_into_the_statistics,
    a_reading_counts_what_is_missing, missing, observed, rescaled, room_for, track, MediaStats,
    MediaStatsAccumulator, RtpStatsHeader,
};
use crate::analyze::mos::{codec_params, impairments_go_by_the_name, params_of, CodecParams};
use crate::bits::{bits, the_count_is_of_the_true_places, true_places};
use crate::correlate::turn::Leg;
use crate::decode::rtp::{clock_rate_of, rtp_clock_rate_for_payload_type, RtpHeader};
use crate::double::{
    greatest, greatest_of, least, least_and_greatest_bound_the_values, least_of, Double,
};
use crate::model::media::{RatePoint, StreamSnapEvt, StreamSummary, SummaryModel};
use crate::model::sip::text_of;
use std::collections::VecDeque;
use vstd::prelude::*;

verus! {

/// The least time between two samples, in microseconds.
pub const SAMPLE_WINDOW_US: u64 = 5_000_000;

/// How many samples are kept.
pub const MAX_SAMPLES: usize = 120;

/// The quality of a stream, worked out from what was counted.
#[derive(Clone, Copy, PartialEq, Eq, Structural, Debug)]
pub struct Quality {
    /// Loss in percent.
    pub loss_pct: Double,
    /// Jitter in milliseconds.
    pub jitter_ms: Option<Double>,
    /// The mean round-trip time in milliseconds.
    pub rtt_avg_ms: Option<Double>,
    /// The one-way delay in milliseconds.
    pub oneway_ms: Option<Double>,
    /// The estimated opinion score.
    pub mos: Option<Double>,
}

/// One RTP stream.
pub struct RtpStream {
    /// The flow.
    pub flow: Flow5Tuple,
    /// The synchronization source.
    pub ssrc: u32,
    /// The call that it belongs to.
    pub call_id: String,
    /// The payload type of its first packet.
    pub payload_type: Option<u8>,
    /// Ticks of the media timestamp per second.
    pub clock_rate: Option<u32>,
    /// The codec's name.
    pub codec: Option<String>,
    /// The direction that was negotiated.
    pub direction: Option<String>,
    /// When its first packet was seen.
    pub first_ts_us: Option<u64>,
    /// When its last packet was seen.
    pub last_ts_us: Option<u64>,
    /// The payload type of its last packet.
    pub last_pt: Option<u8>,
    /// Running statistics.
    pub acc: MediaStatsAccumulator,
    /// Round-trip times in milliseconds.
    pub rtt_samples: Vec<Double>,
    /// One-way delays in milliseconds.
    pub oneway_samples: Vec<Double>,
    /// Whether the stream in the other direction was seen.
    pub reverse_seen: bool,
    /// The leg of a relayed flow that it is.
    pub leg: Option<Leg>,
    /// Whether it went through a relay.
    pub via_turn: bool,
    /// Bytes seen.
    pub bytes: u64,
    /// Periodic samples, the newest last.
    pub history: VecDeque<RatePoint>,
    /// Bytes at the last sample.
    pub last_sample_bytes: u64,
    /// Packets at the last sample.
    pub last_sample_packets: u64,
}

/// An [`RtpStream`] in mathematical terms.
#[verifier::ext_equal]
pub ghost struct StreamModel {
    pub flow: Flow5Tuple,
    pub ssrc: u32,
    pub call_id: Seq<char>,
    pub payload_type: Option<u8>,
    pub clock_rate: Option<u32>,
    pub codec: Option<Seq<char>>,
    pub direction: Option<Seq<char>>,
    pub first_ts_us: Option<u64>,
    pub last_ts_us: Option<u64>,
    pub last_pt: Option<u8>,
    pub acc: MediaStatsAccumulator,
    pub rtt_samples: Seq<Double>,
    pub oneway_samples: Seq<Double>,
    pub reverse_seen: bool,
    pub leg: Option<Leg>,
    pub via_turn: bool,
    pub bytes: int,
    pub history: Seq<RatePoint>,
    pub last_sample_bytes: u64,
    pub last_sample_packets: u64,
}

impl View for RtpStream {
    type V = StreamModel;

    open spec fn view(&self) -> StreamModel {
        StreamModel {
            flow: self.flow,
            ssrc: self.ssrc,
            call_id: self.call_id@,
            payload_type: self.payload_type,
            clock_rate: self.clock_rate,
            codec: text_of(self.codec),
            direction: text_of(self.direction),
            first_ts_us: self.first_ts_us,
            last_ts_us: self.last_ts_us,
            last_pt: self.last_pt,
            acc: self.acc,
            rtt_samples: self.rtt_samples@,
            oneway_samples: self.oneway_samples@,
            reverse_seen: self.reverse_seen,
            leg: self.leg,
            via_turn: self.via_turn,
            bytes: self.bytes as int,
            history: self.history@,
            last_sample_bytes: self.last_sample_bytes,
            last_sample_packets: self.last_sample_packets,
        }
    }
}

/// A stream of which no packet was seen.
pub open spec fn new_stream(flow: Flow5Tuple, ssrc: u32, call_id: Seq<char>) -> StreamModel {
    StreamModel {
        flow,
        ssrc,
        call_id,
        payload_type: None,
        clock_rate: None,
        codec: None,
        direction: None,
        first_ts_us: None,
        last_ts_us: None,
        last_pt: None,
        acc: MediaStatsAccumulator::spec_new(),
        rtt_samples: Seq::empty(),
        oneway_samples: Seq::empty(),
        reverse_seen: false,
        leg: None,
        via_turn: false,
        bytes: 0,
        history: Seq::empty(),
        last_sample_bytes: 0,
        last_sample_packets: 0,
    }
}

/// What the statistics need of a header.
pub open spec fn stats_header(h: RtpHeader) -> RtpStatsHeader {
    RtpStatsHeader {
        payload_type: h.payload_type,
        sequence_number: h.sequence_number,
        rtp_timestamp: h.timestamp,
        ssrc: h.ssrc,
    }
}

/// What one packet does to a stream. `mid` is the statistics with the clock
/// rate that the payload type stands for, where none was set before.
pub open spec fn packet_seen<
    R: Fn(Double, u32, u32) -> Double,
    S: Fn(i128, i64, u32, Double) -> Option<Double>,
>(
    was: StreamModel,
    is: StreamModel,
    ts_us: u64,
    h: RtpHeader,
    len: usize,
    rescale: &R,
    step: &S,
    mid: MediaStatsAccumulator,
) -> bool {
    let rate = clock_rate_of(h.payload_type);
    &&& if was.clock_rate is None {
        rescaled(was.acc, mid, rate, rescale)
    } else {
        mid == was.acc
    }
    &&& observed(mid, is.acc, ts_us, Some(stats_header(h)), step)
    &&& is == (StreamModel {
        first_ts_us: Some(
            match was.first_ts_us {
                Some(t) => t,
                None => ts_us,
            },
        ),
        last_ts_us: Some(ts_us),
        bytes: was.bytes + len,
        payload_type: Some(
            match was.payload_type {
                Some(p) => p,
                None => h.payload_type,
            },
        ),
        clock_rate: Some(
            match was.clock_rate {
                Some(c) => c,
                None => rate,
            },
        ),
        last_pt: Some(h.payload_type),
        acc: is.acc,
        ..was
    })
}

/// Whether it is too early for another sample.
pub open spec fn too_soon(history: Seq<RatePoint>, ts_us: u64) -> bool {
    history.len() > 0 && ts_us - history.last().ts_us < SAMPLE_WINDOW_US
}

/// The difference of two counters, zero where it would be negative.
pub open spec fn since(now: int, before: int) -> u64 {
    if now >= before {
        (now - before) as u64
    } else {
        0
    }
}

/// A stream with a sample of quality `q` added. The oldest sample goes where
/// there are too many.
pub open spec fn sampled(s: StreamModel, ts_us: u64, q: Quality) -> StreamModel {
    let count = s.acc.packet_count;
    let all = s.history.push(
        RatePoint {
            ts_us,
            bytes: since(s.bytes, s.last_sample_bytes as int),
            packets: since(count as int, s.last_sample_packets as int),
            loss_pct: q.loss_pct,
            jitter_ms: q.jitter_ms,
            mos: q.mos,
        },
    );
    StreamModel {
        history: if all.len() > MAX_SAMPLES {
            all.drop_first()
        } else {
            all
        },
        last_sample_bytes: s.bytes as u64,
        last_sample_packets: count,
        ..s
    }
}

/// The codec parameters of a stream.
pub open spec fn codec_of(s: StreamModel) -> CodecParams {
    params_of(
        match s.codec {
            Some(c) => c,
            None => ""@,
        },
        s.payload_type,
    )
}

/// The leg as text.
pub open spec fn leg_text(leg: Option<Leg>) -> Option<Seq<char>> {
    match leg {
        Some(Leg::Client) => Some("client"@),
        Some(Leg::Peer) => Some("peer"@),
        None => None,
    }
}

/// What a stream of quality `q` amounts to.
pub open spec fn summary_of(s: StreamModel, q: Quality) -> SummaryModel {
    let st = s.acc.spec_snapshot();
    SummaryModel {
        call_id: Some(s.call_id),
        ssrc: s.ssrc,
        flow: Some(s.flow),
        codec: s.codec,
        payload_type: s.payload_type,
        packets: st.packet_count,
        lost: st.lost_packets,
        expected: st.expected_packets,
        loss_pct: q.loss_pct,
        jitter_ms: q.jitter_ms,
        first_ts_us: s.first_ts_us,
        last_ts_us: s.last_ts_us,
        rtt_min_ms: least(s.rtt_samples),
        rtt_avg_ms: q.rtt_avg_ms,
        rtt_max_ms: greatest(s.rtt_samples),
        oneway_ms: q.oneway_ms,
        mos: q.mos,
        direction: s.direction,
        leg: leg_text(s.leg),
        via_turn: s.via_turn,
        bytes: s.bytes as u64,
        history: s.history,
    }
}

fn copy_history(v: &VecDeque<RatePoint>) -> (r: Vec<RatePoint>)
    ensures
        r@ == v@,
{
    let mut r: Vec<RatePoint> = Vec::new();
    let mut i: usize = 0;
    while i < v.len()
        invariant
            i <= v@.len(),
            r@ == v@.take(i as int),
        decreases v@.len() - i,
    {
        r.push(v[i]);
        i += 1;
    }
    r
}

/// Whether counters leave room for a snapshot.
pub open spec fn snapshot_fits(acc: MediaStatsAccumulator) -> bool {
    acc.packet_count + missing(acc.tracking()) <= u64::MAX
}

impl RtpStream {
    /// Whether the counters leave room for a snapshot.
    pub open spec fn countable(&self) -> bool {
        snapshot_fits(self.acc)
    }

    /// A stream of which no packet was seen.
    pub fn new(flow: Flow5Tuple, ssrc: u32, call_id: String) -> (r: RtpStream)
        ensures
            r@ == new_stream(flow, ssrc, call_id@),
    {
        RtpStream {
            flow,
            ssrc,
            call_id,
            payload_type: None,
            clock_rate: None,
            codec: None,
            direction: None,
            first_ts_us: None,
            last_ts_us: None,
            last_pt: None,
            acc: MediaStatsAccumulator::new(),
            rtt_samples: Vec::new(),
            oneway_samples: Vec::new(),
            reverse_seen: false,
            leg: None,
            via_turn: false,
            bytes: 0,
            history: VecDeque::new(),
            last_sample_bytes: 0,
            last_sample_packets: 0,
        }
    }

    /// Takes in one packet of `len` bytes. `rescale` and `step` do the jitter
    /// arithmetic, as in [`MediaStatsAccumulator`].
    pub fn observe<
        R: Fn(Double, u32, u32) -> Double,
        S: Fn(i128, i64, u32, Double) -> Option<Double>,
    >(&mut self, ts_us: u64, header: RtpHeader, len: usize, rescale: &R, step: &S)
        requires
            room_for(old(self).acc, Some(stats_header(header))),
            old(self).bytes + len <= u64::MAX,
            forall|j: Double, new: u32, old: u32| call_requires(rescale, (j, new, old)),
            forall|a: i128, t: i64, c: u32, j: Double| call_requires(step, (a, t, c, j)),
        ensures
            exists|mid: MediaStatsAccumulator| #[trigger]
                packet_seen(old(self)@, final(self)@, ts_us, header, len, rescale, step, mid),
    {
        if self.first_ts_us.is_none() {
            self.first_ts_us = Some(ts_us);
        }
        self.last_ts_us = Some(ts_us);
        self.bytes += len as u64;
        if self.payload_type.is_none() {
            self.payload_type = Some(header.payload_type);
        }
        if self.clock_rate.is_none() {
            self.apply_clock_rate(rtp_clock_rate_for_payload_type(header.payload_type), rescale);
        }
        let ghost mid = self.acc;
        self.acc.observe(
            ts_us,
            Some(
                RtpStatsHeader {
                    payload_type: header.payload_type,
                    sequence_number: header.sequence_number,
                    rtp_timestamp: header.timestamp,
                    ssrc: header.ssrc,
                },
            ),
            step,
        );
        self.last_pt = Some(header.payload_type);
        assert(packet_seen(old(self)@, self@, ts_us, header, len, rescale, step, mid));
    }

    /// Sets the clock rate, unless it is zero.
    pub fn apply_clock_rate<R: Fn(Double, u32, u32) -> Double>(&mut self, rate: u32, rescale: &R)
        requires
            forall|j: Double, new: u32, old: u32| call_requires(rescale, (j, new, old)),
        ensures
            rescaled(old(self).acc, final(self).acc, rate, rescale),
            final(self)@ == (StreamModel {
                clock_rate: if rate == 0 {
                    old(self).clock_rate
                } else {
                    Some(rate)
                },
                acc: final(self).acc,
                ..old(self)@
            }),
    {
        if rate == 0 {
            return;
        }
        self.clock_rate = Some(rate);
        self.acc.set_clock_rate(rate, rescale);
    }

    /// The codec parameters.
    fn codec(&self) -> (r: CodecParams)
        ensures
            r == codec_of(self@),
    {
        match &self.codec {
            Some(c) => codec_params(Some(c.as_str()), self.payload_type),
            None => codec_params(None, self.payload_type),
        }
    }

    /// Adds a sample, at most one in each window. `gauge` works out the
    /// quality from the statistics, the codec parameters, the round-trip times
    /// and the one-way delays.
    pub fn sample<G: Fn(MediaStats, CodecParams, &Vec<Double>, &Vec<Double>) -> Quality>(
        &mut self,
        ts_us: u64,
        gauge: &G,
    )
        requires
            old(self).countable(),
            forall|m: MediaStats, c: CodecParams, r: &Vec<Double>, o: &Vec<Double>|
                call_requires(gauge, (m, c, r, o)),
        ensures
            if too_soon(old(self)@.history, ts_us) {
                final(self)@ == old(self)@
            } else {
                exists|q: Quality|
                    {
                        &&& #[trigger] call_ensures(
                            gauge,
                            (
                                old(self).acc.spec_snapshot(),
                                codec_of(old(self)@),
                                &old(self).rtt_samples,
                                &old(self).oneway_samples,
                            ),
                            q,
                        )
                        &&& final(self)@ == sampled(old(self)@, ts_us, q)
                    }
            },
    {
        let n = self.history.len();
        if n > 0 && ts_us.saturating_sub(self.history[n - 1].ts_us) < SAMPLE_WINDOW_US {
            return;
        }
        let st = self.acc.snapshot();
        let q = gauge(st, self.codec(), &self.rtt_samples, &self.oneway_samples);
        self.history.push_back(
            RatePoint {
                ts_us,
                bytes: self.bytes.saturating_sub(self.last_sample_bytes),
                packets: st.packet_count.saturating_sub(self.last_sample_packets),
                loss_pct: q.loss_pct,
                jitter_ms: q.jitter_ms,
                mos: q.mos,
            },
        );
        if self.history.len() > MAX_SAMPLES {
            self.history.pop_front();
        }
        self.last_sample_bytes = self.bytes;
        self.last_sample_packets = st.packet_count;
        assert(self@ =~= sampled(old(self)@, ts_us, q));
    }

    /// The statistics so far.
    pub fn snapshot_stats(&self) -> (r: MediaStats)
        requires
            self.countable(),
        ensures
            r == self.acc.spec_snapshot(),
            r.lost_packets == missing(self.acc.tracking()),
            r.expected_packets == r.packet_count + r.lost_packets,
    {
        self.acc.snapshot()
    }

    fn leg_label(&self) -> (r: Option<String>)
        ensures
            text_of(r) == leg_text(self.leg),
    {
        match self.leg {
            Some(l) => Some(l.label().to_owned()),
            None => None,
        }
    }

    fn amounts_to(&self, q: Quality, history: Vec<RatePoint>) -> (r: StreamSummary)
        requires
            self.countable(),
        ensures
            r@ == (SummaryModel { history: history@, ..summary_of(self@, q) }),
    {
        let st = self.snapshot_stats();
        let r = StreamSummary {
            call_id: Some(self.call_id.clone()),
            ssrc: self.ssrc,
            flow: Some(self.flow),
            codec: self.codec.clone(),
            payload_type: self.payload_type,
            packets: st.packet_count,
            lost: st.lost_packets,
            expected: st.expected_packets,
            loss_pct: q.loss_pct,
            jitter_ms: q.jitter_ms,
            first_ts_us: self.first_ts_us,
            last_ts_us: self.last_ts_us,
            rtt_min_ms: least_of(&self.rtt_samples),
            rtt_avg_ms: q.rtt_avg_ms,
            rtt_max_ms: greatest_of(&self.rtt_samples),
            oneway_ms: q.oneway_ms,
            mos: q.mos,
            direction: self.direction.clone(),
            leg: self.leg_label(),
            via_turn: self.via_turn,
            bytes: self.bytes,
            history,
        };
        assert(r@ =~= (SummaryModel { history: history@, ..summary_of(self@, q) }));
        r
    }

    /// What the stream amounts to, given its quality.
    pub fn summary_with(&self, q: Quality) -> (r: StreamSummary)
        requires
            self.countable(),
        ensures
            r@ == summary_of(self@, q),
    {
        self.amounts_to(q, copy_history(&self.history))
    }

    /// The record of the stream for the event log, given its quality: its summary
    /// without the samples.
    pub fn record_with(&self, ts_us: u64, q: Quality) -> (r: StreamSnapEvt)
        requires
            self.countable(),
        ensures
            r.ts_us == ts_us,
            r.stream@ == record_of(self@, q),
    {
        StreamSnapEvt { ts_us, stream: self.amounts_to(q, Vec::new()) }
    }

    /// What the stream amounts to. `gauge` works out the quality, as in
    /// [`RtpStream::sample`].
    pub fn summary<G: Fn(MediaStats, CodecParams, &Vec<Double>, &Vec<Double>) -> Quality>(
        &self,
        gauge: &G,
    ) -> (r: StreamSummary)
        requires
            self.countable(),
            forall|m: MediaStats, c: CodecParams, r: &Vec<Double>, o: &Vec<Double>|
                call_requires(gauge, (m, c, r, o)),
        ensures
            summarizes(*self, gauge, r@),
    {
        let st = self.snapshot_stats();
        let q = gauge(st, self.codec(), &self.rtt_samples, &self.oneway_samples);
        assert(gauged(*self, gauge, q));
        self.summary_with(q)
    }

    /// The record of the stream for the event log: its summary without the
    /// samples. `gauge` works out the quality, as in [`RtpStream::summary`].
    pub fn to_snap_evt<G: Fn(MediaStats, CodecParams, &Vec<Double>, &Vec<Double>) -> Quality>(
        &self,
        ts_us: u64,
        gauge: &G,
    ) -> (r: StreamSnapEvt)
        requires
            self.countable(),
            forall|m: MediaStats, c: CodecParams, r: &Vec<Double>, o: &Vec<Double>|
                call_requires(gauge, (m, c, r, o)),
        ensures
            r.ts_us == ts_us,
            records(*self, gauge, r.stream@),
    {
        let st = self.snapshot_stats();
        let q = gauge(st, self.codec(), &self.rtt_samples, &self.oneway_samples);
        assert(gauged(*self, gauge, q));
        self.record_with(ts_us, q)
    }
}

/// The record of a stream of some quality: its summary without the samples.
pub open spec fn record_of(s: StreamModel, q: Quality) -> SummaryModel {
    SummaryModel { history: Seq::empty(), ..summary_of(s, q) }
}

/// Whether `gauge` may work out the quality `q` for a stream.
pub open spec fn gauged<G: Fn(MediaStats, CodecParams, &Vec<Double>, &Vec<Double>) -> Quality>(
    s: RtpStream,
    gauge: &G,
    q: Quality,
) -> bool {
    call_ensures(
        gauge,
        (s.acc.spec_snapshot(), codec_of(s@), &s.rtt_samples, &s.oneway_samples),
        q,
    )
}

/// Whether `m` is what a stream amounts to, with a quality that `gauge` works
/// out for it.
pub open spec fn summarizes<G: Fn(MediaStats, CodecParams, &Vec<Double>, &Vec<Double>) -> Quality>(
    s: RtpStream,
    gauge: &G,
    m: SummaryModel,
) -> bool {
    exists|q: Quality| #[trigger] gauged(s, gauge, q) && m == summary_of(s@, q)
}

/// Whether `m` is the record of a stream, with a quality that `gauge` works out
/// for it.
pub open spec fn records<G: Fn(MediaStats, CodecParams, &Vec<Double>, &Vec<Double>) -> Quality>(
    s: RtpStream,
    gauge: &G,
    m: SummaryModel,
) -> bool {
    exists|q: Quality| #[trigger] gauged(s, gauge, q) && m == record_of(s@, q)
}

/// Whether a record and a summary agree on everything that is counted or told of a
/// stream.
pub open spec fn same_counts(record: SummaryModel, summary: SummaryModel) -> bool {
    &&& record.call_id == summary.call_id
    &&& record.ssrc == summary.ssrc
    &&& record.flow == summary.flow
    &&& record.codec == summary.codec
    &&& record.payload_type == summary.payload_type
    &&& record.packets == summary.packets
    &&& record.lost == summary.lost
    &&& record.expected == summary.expected
    &&& record.first_ts_us == summary.first_ts_us
    &&& record.last_ts_us == summary.last_ts_us
    &&& record.rtt_min_ms == summary.rtt_min_ms
    &&& record.rtt_max_ms == summary.rtt_max_ms
    &&& record.direction == summary.direction
    &&& record.leg == summary.leg
    &&& record.via_turn == summary.via_turn
    &&& record.bytes == summary.bytes
}

/// Whether a record and a summary agree on the quality of a stream.
pub open spec fn same_quality(record: SummaryModel, summary: SummaryModel) -> bool {
    &&& record.loss_pct == summary.loss_pct
    &&& record.jitter_ms == summary.jitter_ms
    &&& record.rtt_avg_ms == summary.rtt_avg_ms
    &&& record.oneway_ms == summary.oneway_ms
    &&& record.mos == summary.mos
}

/// Whether samples lie at least a window apart.
pub open spec fn spaced(history: Seq<RatePoint>) -> bool {
    forall|i: int, j: int|
        0 <= i < j < history.len() ==> (#[trigger] history[i]).ts_us + SAMPLE_WINDOW_US <= (
        #[trigger] history[j]).ts_us
}

/// Samples stay a window apart and within their number, however often one is
/// asked for.
pub proof fn samples_stay_spaced_and_few(s: StreamModel, ts_us: u64, q: Quality)
    requires
        spaced(s.history),
        s.history.len() <= MAX_SAMPLES,
        !too_soon(s.history, ts_us),
    ensures
        spaced(sampled(s, ts_us, q).history),
        sampled(s, ts_us, q).history.len() <= MAX_SAMPLES,
        sampled(s, ts_us, q).history.last().ts_us == ts_us,
{
    let h = s.history;
    let n = sampled(s, ts_us, q).history;
    let k = if h.len() + 1 > MAX_SAMPLES {
        1int
    } else {
        0int
    };
    assert forall|i: int, j: int| 0 <= i < j < n.len() implies (#[trigger] n[i]).ts_us
        + SAMPLE_WINDOW_US <= (#[trigger] n[j]).ts_us by {
        assert(n[i] == h[i + k]);
        if j + k < h.len() {
            assert(n[j] == h[j + k]);
        } else {
            assert(i + k == h.len() - 1 || h[i + k].ts_us + SAMPLE_WINDOW_US <= h[h.len() - 1].ts_us);
        }
    }
}

/// Whatever the quality of a stream, its record and its summary agree on every
/// field but the samples, which a record does not have.
pub proof fn a_record_agrees_with_the_summary(s: StreamModel, q: Quality)
    ensures
        same_counts(record_of(s, q), summary_of(s, q)),
        same_quality(record_of(s, q), summary_of(s, q)),
        record_of(s, q).history.len() == 0,
        summary_of(s, q).history == s.history,
        summary_of(s, q).call_id == Some(s.call_id),
        summary_of(s, q).flow == Some(s.flow),
{
}

/// The record of a stream and its summary, each with a quality that is worked out
/// for it, agree on all that is counted. They agree on the quality too, unless it
/// is worked out differently for one and the same stream.
pub proof fn a_record_and_a_summary_tell_the_same<
    G: Fn(MediaStats, CodecParams, &Vec<Double>, &Vec<Double>) -> Quality,
>(s: RtpStream, gauge: &G, record: SummaryModel, summary: SummaryModel)
    requires
        records(s, gauge, record),
        summarizes(s, gauge, summary),
    ensures
        same_counts(record, summary),
        same_quality(record, summary) || exists|a: Quality, b: Quality|
            a != b && #[trigger] gauged(s, gauge, a) && #[trigger] gauged(s, gauge, b),
{
    let a = choose|q: Quality| #[trigger] gauged(s, gauge, q) && record == record_of(s@, q);
    let b = choose|q: Quality| #[trigger] gauged(s, gauge, q) && summary == summary_of(s@, q);
    if a != b {
        assert(gauged(s, gauge, a) && gauged(s, gauge, b));
    }
}

/// What a summary tells of the counts and the marks of a stream.
pub open spec fn tells_of(s: RtpStream, m: SummaryModel) -> bool {
    &&& m.call_id == Some(s.call_id@)
    &&& m.ssrc == s.ssrc
    &&& m.flow == Some(s.flow)
    &&& m.codec == text_of(s.codec)
    &&& m.payload_type == s.payload_type
    &&& m.packets == s.acc.packet_count
    &&& m.lost == s.acc.lost_packets + true_places(bits(s.acc.pending_mask)).len()
    &&& m.lost == missing(s.acc.tracking())
    &&& m.expected == m.packets + m.lost
    &&& m.first_ts_us == s.first_ts_us
    &&& m.last_ts_us == s.last_ts_us
    &&& m.direction == text_of(s.direction)
    &&& m.via_turn == s.via_turn
    &&& m.bytes == s.bytes
    &&& s.leg == Some(Leg::Client) ==> m.leg == Some("client"@)
    &&& s.leg == Some(Leg::Peer) ==> m.leg == Some("peer"@)
    &&& s.leg is None ==> m.leg is None
    &&& s.rtt_samples@.len() == 0 ==> m.rtt_min_ms is None && m.rtt_max_ms is None
    &&& s.rtt_samples@.len() > 0 && (forall|i: int|
        0 <= i < s.rtt_samples@.len() ==> !(#[trigger] s.rtt_samples@[i]).nan()) ==> {
        &&& m.rtt_min_ms is Some && s.rtt_samples@.contains(m.rtt_min_ms->0)
        &&& m.rtt_max_ms is Some && s.rtt_samples@.contains(m.rtt_max_ms->0)
        &&& forall|i: int|
            0 <= i < s.rtt_samples@.len() ==> m.rtt_min_ms->0.rank() <= (
            #[trigger] s.rtt_samples@[i]).rank() <= m.rtt_max_ms->0.rank()
    }
}

/// Whether a summary holds the quality that is worked out from the statistics, the
/// codec, the round-trip times and the one-way delays of a stream.
pub open spec fn tells_quality<
    G: Fn(MediaStats, CodecParams, &Vec<Double>, &Vec<Double>) -> Quality,
>(s: RtpStream, gauge: &G, m: SummaryModel) -> bool {
    exists|q: Quality|
        {
            &&& #[trigger] call_ensures(
                gauge,
                (s.acc.spec_snapshot(), codec_of(s@), &s.rtt_samples, &s.oneway_samples),
                q,
            )
            &&& m.loss_pct == q.loss_pct
            &&& m.jitter_ms == q.jitter_ms
            &&& m.rtt_avg_ms == q.rtt_avg_ms
            &&& m.oneway_ms == q.oneway_ms
            &&& m.mos == q.mos
        }
}

/// The least and the greatest round-trip time of a stream.
proof fn lemma_times_bound(v: Seq<Double>)
    requires
        v.len() > 0,
        forall|i: int| 0 <= i < v.len() ==> !(#[trigger] v[i]).nan(),
    ensures
        least(v) is Some && v.contains(least(v)->0),
        greatest(v) is Some && v.contains(greatest(v)->0),
        forall|i: int|
            0 <= i < v.len() ==> least(v)->0.rank() <= (#[trigger] v[i]).rank()
                <= greatest(v)->0.rank(),
{
    least_and_greatest_bound_the_values(v, 0);
    assert forall|i: int| 0 <= i < v.len() implies least(v)->0.rank() <= (#[trigger] v[i]).rank()
        <= greatest(v)->0.rank() by {
        least_and_greatest_bound_the_values(v, i);
    }
}

/// A summary tells what was counted of its stream. What is lost is what was given up
/// and what is still pending, and what was expected is what arrived and what is lost.
pub proof fn a_summary_counts_what_is_missing<
    G: Fn(MediaStats, CodecParams, &Vec<Double>, &Vec<Double>) -> Quality,
>(s: RtpStream, gauge: &G, m: SummaryModel)
    requires
        summarizes(s, gauge, m),
        s.countable(),
    ensures
        tells_of(s, m),
        tells_quality(s, gauge, m),
        m.history == s.history@,
{
    the_count_is_of_the_true_places(bits(s.acc.pending_mask));
    a_reading_counts_what_is_missing(s.acc);
    let v = s.rtt_samples@;
    if v.len() > 0 && forall|i: int| 0 <= i < v.len() ==> !(#[trigger] v[i]).nan() {
        lemma_times_bound(v);
    }
    let q = choose|q: Quality| #[trigger] gauged(s, gauge, q) && m == summary_of(s@, q);
    assert(call_ensures(
        gauge,
        (s.acc.spec_snapshot(), codec_of(s@), &s.rtt_samples, &s.oneway_samples),
        q,
    ));
}

/// A record tells of its stream what a summary tells, without the samples.
pub proof fn a_record_counts_what_is_missing<
    G: Fn(MediaStats, CodecParams, &Vec<Double>, &Vec<Double>) -> Quality,
>(s: RtpStream, gauge: &G, m: SummaryModel)
    requires
        records(s, gauge, m),
        s.countable(),
    ensures
        tells_of(s, m),
        tells_quality(s, gauge, m),
        m.history.len() == 0,
{
    let q = choose|q: Quality| #[trigger] gauged(s, gauge, q) && m == record_of(s@, q);
    let full = SummaryModel { history: s.history@, ..m };
    assert(gauged(s, gauge, q) && full == summary_of(s@, q));
    a_summary_counts_what_is_missing(s, gauge, full);
    assert(call_ensures(
        gauge,
        (s.acc.spec_snapshot(), codec_of(s@), &s.rtt_samples, &s.oneway_samples),
        q,
    ));
}

/// A stream can be summarised exactly where all that it counts as expected fits.
pub proof fn a_countable_stream_fits(s: RtpStream)
    ensures
        s.countable() <==> s.acc.packet_count + s.acc.lost_packets + true_places(
            bits(s.acc.pending_mask),
        ).len() <= u64::MAX,
{
    the_count_is_of_the_true_places(bits(s.acc.pending_mask));
}

/// What a packet does to its stream: it is counted with its length, the times are
/// those of the first packet and of this one, the first payload type and the first
/// clock stay, and everything that a packet does not tell stays as it is.
pub proof fn a_packet_goes_into_its_stream<
    R: Fn(Double, u32, u32) -> Double,
    S: Fn(i128, i64, u32, Double) -> Option<Double>,
>(
    was: StreamModel,
    is: StreamModel,
    ts_us: u64,
    h: RtpHeader,
    len: usize,
    rescale: &R,
    step: &S,
    mid: MediaStatsAccumulator,
)
    requires
        packet_seen(was, is, ts_us, h, len, rescale, step, mid),
    ensures
        is.bytes == was.bytes + len,
        is.acc.packet_count == was.acc.packet_count + 1,
        is.acc.tracking() == track(was.acc.tracking(), h.sequence_number),
        is.acc.prev_arrival_micros == Some(ts_us),
        is.acc.prev_rtp_timestamp == Some(h.timestamp),
        is.last_ts_us == Some(ts_us),
        was.first_ts_us is None ==> is.first_ts_us == Some(ts_us),
        was.first_ts_us is Some ==> is.first_ts_us == was.first_ts_us,
        is.last_pt == Some(h.payload_type),
        was.payload_type is None ==> is.payload_type == Some(h.payload_type),
        was.payload_type is Some ==> is.payload_type == was.payload_type,
        was.clock_rate is Some ==> is.clock_rate == was.clock_rate,
        was.clock_rate is None && 96 <= h.payload_type <= 127 ==> is.clock_rate == Some(48000u32),
        was.clock_rate is None && (h.payload_type < 96 || h.payload_type > 127) ==> is.clock_rate
            == Some(8000u32),
        is.flow == was.flow && is.ssrc == was.ssrc && is.call_id == was.call_id,
        is.codec == was.codec && is.direction == was.direction && is.leg == was.leg,
        is.rtt_samples == was.rtt_samples && is.oneway_samples == was.oneway_samples,
        is.via_turn == was.via_turn && is.reverse_seen == was.reverse_seen,
        is.history == was.history && is.last_sample_bytes == was.last_sample_bytes
            && is.last_sample_packets == was.last_sample_packets,
{
    a_packet_goes_into_the_statistics(mid, is.acc, ts_us, stats_header(h), step);
    if was.clock_rate is None {
        a_new_clock_rescales_the_jitter(was.acc, mid, clock_rate_of(h.payload_type), rescale);
    }
}

/// A sample is due five seconds after the last one, and at once where there is none.
pub proof fn a_sample_is_due_after_five_seconds(history: Seq<RatePoint>, ts_us: u64)
    ensures
        too_soon(history, ts_us) <==> history.len() > 0 && ts_us < history[history.len() - 1].ts_us
            + 5_000_000,
{
}

/// A sample counts what came since the last one, so that the next counts from here;
/// it holds the quality of the moment, and at most 120 are kept, the newest.
pub proof fn a_sample_counts_since_the_last(s: StreamModel, ts_us: u64, q: Quality)
    requires
        s.last_sample_bytes <= s.bytes <= u64::MAX,
        s.last_sample_packets <= s.acc.packet_count,
        s.history.len() <= 120,
    ensures
        ({
            let d = sampled(s, ts_us, q);
            let p = d.history[d.history.len() - 1];
            &&& d.history.len() > 0
            &&& p.ts_us == ts_us
            &&& s.last_sample_bytes + p.bytes == s.bytes
            &&& s.last_sample_packets + p.packets == s.acc.packet_count
            &&& p.loss_pct == q.loss_pct && p.jitter_ms == q.jitter_ms && p.mos == q.mos
            &&& d.last_sample_bytes == s.bytes
            &&& d.last_sample_packets == s.acc.packet_count
            &&& s.history.len() < 120 ==> d.history.len() == s.history.len() + 1
                && d.history.drop_last() == s.history
            &&& s.history.len() == 120 ==> d.history.len() == 120 && d.history.drop_last()
                == s.history.drop_first()
            &&& d.bytes == s.bytes && d.acc == s.acc && d.first_ts_us == s.first_ts_us
                && d.last_ts_us == s.last_ts_us
        }),
{
    let d = sampled(s, ts_us, q);
    if s.history.len() < 120 {
        assert(d.history.drop_last() =~= s.history);
    } else {
        assert(d.history.drop_last() =~= s.history.drop_first());
    }
}

/// A new stream knows its flow, its source and its call, and has counted nothing.
pub proof fn a_new_stream_has_counted_nothing(flow: Flow5Tuple, ssrc: u32, call_id: Seq<char>)
    ensures
        ({
            let s = new_stream(flow, ssrc, call_id);
            &&& s.flow == flow && s.ssrc == ssrc && s.call_id == call_id
            &&& s.bytes == 0 && s.acc.packet_count == 0 && s.acc.lost_packets == 0
                && s.acc.pending_mask == 0 && s.acc.restarts == 0 && s.acc.jitter_samples == 0
            &&& s.acc.first_sequence is None && s.acc.last_sequence is None
                && s.acc.clock_rate is None && s.acc.payload_type is None
                && s.acc.prev_arrival_micros is None && s.acc.prev_rtp_timestamp is None
            &&& s.first_ts_us is None && s.last_ts_us is None && s.payload_type is None
                && s.clock_rate is None && s.codec is None && s.leg is None && !s.via_turn
            &&& s.history.len() == 0 && s.rtt_samples.len() == 0 && s.oneway_samples.len() == 0
            &&& s.last_sample_bytes == 0 && s.last_sample_packets == 0
        }),
{
}

/// The codec of a stream goes by its name, and by its payload type where the name
/// tells nothing.
pub proof fn a_codec_goes_by_name_or_payload_type(s: StreamModel)
    ensures
        s.codec matches Some(c) ==> codec_of(s) == params_of(c, s.payload_type),
        s.codec is None && (s.payload_type == Some(0u8) || s.payload_type == Some(8u8)) ==> codec_of(
            s,
        ).ie_tenths == 0 && codec_of(s).bpl_tenths == 251,
        s.codec is None && s.payload_type != Some(0u8) && s.payload_type != Some(8u8) ==> codec_of(
            s,
        ).ie_tenths == 100 && codec_of(s).bpl_tenths == 100,
{
    if s.codec is None {
        let none = ""@;
        reveal_strlit("");
        reveal_strlit("PCMU");
        reveal_strlit("PCMA");
        reveal_strlit("G.711");
        reveal_strlit("G.729");
        reveal_strlit("G.723");
        reveal_strlit("G.722");
        reveal_strlit("OPUS");
        reveal_strlit("TELEPHONE");
        impairments_go_by_the_name(none, s.payload_type);
    }
}

} // verus!
