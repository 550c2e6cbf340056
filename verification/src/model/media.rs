//! Media stream summaries.
use crate::addr::Flow5Tuple;
use crate::double::Double;
use crate::model::sip::text_of;
use vstd::prelude::*;

verus! {

/// One periodic sample of a stream.
#[derive(Clone, Copy, PartialEq, Eq, Structural, Debug)]
pub struct RatePoint {
    /// Capture time in microseconds.
    pub ts_us: u64,
    /// Bytes since the sample before.
    pub bytes: u64,
    /// Packets since the sample before.
    pub packets: u64,
    /// Loss so far, in percent.
    pub loss_pct: Double,
    /// Jitter in milliseconds.
    pub jitter_ms: Option<Double>,
    /// Estimated opinion score.
    pub mos: Option<Double>,
}

/// What a stream amounts to.
pub struct StreamSummary {
    /// The call that it belongs to, where one is known.
    pub call_id: Option<String>,
    /// The synchronization source.
    pub ssrc: u32,
    /// The flow, where it is known.
    pub flow: Option<Flow5Tuple>,
    /// The codec's name.
    pub codec: Option<String>,
    /// The payload type.
    pub payload_type: Option<u8>,
    /// Packets seen.
    pub packets: u64,
    /// Packets lost.
    pub lost: u64,
    /// Packets seen or lost.
    pub expected: u64,
    /// Loss in percent.
    pub loss_pct: Double,
    /// Jitter in milliseconds.
    pub jitter_ms: Option<Double>,
    /// When its first packet was seen.
    pub first_ts_us: Option<u64>,
    /// When its last packet was seen.
    pub last_ts_us: Option<u64>,
    /// The least round-trip time in milliseconds.
    pub rtt_min_ms: Option<Double>,
    /// The mean round-trip time in milliseconds.
    pub rtt_avg_ms: Option<Double>,
    /// The greatest round-trip time in milliseconds.
    pub rtt_max_ms: Option<Double>,
    /// The one-way delay in milliseconds.
    pub oneway_ms: Option<Double>,
    /// The estimated opinion score.
    pub mos: Option<Double>,
    /// The direction that was negotiated.
    pub direction: Option<String>,
    /// The leg of a relayed flow that it is.
    pub leg: Option<String>,
    /// Whether it went through a relay.
    pub via_turn: bool,
    /// Bytes seen.
    pub bytes: u64,
    /// Periodic samples, the newest last.
    pub history: Vec<RatePoint>,
}

/// A [`StreamSummary`] in mathematical terms.
#[verifier::ext_equal]
pub ghost struct SummaryModel {
    pub call_id: Option<Seq<char>>,
    pub ssrc: u32,
    pub flow: Option<Flow5Tuple>,
    pub codec: Option<Seq<char>>,
    pub payload_type: Option<u8>,
    pub packets: u64,
    pub lost: u64,
    pub expected: u64,
    pub loss_pct: Double,
    pub jitter_ms: Option<Double>,
    pub first_ts_us: Option<u64>,
    pub last_ts_us: Option<u64>,
    pub rtt_min_ms: Option<Double>,
    pub rtt_avg_ms: Option<Double>,
    pub rtt_max_ms: Option<Double>,
    pub oneway_ms: Option<Double>,
    pub mos: Option<Double>,
    pub direction: Option<Seq<char>>,
    pub leg: Option<Seq<char>>,
    pub via_turn: bool,
    pub bytes: u64,
    pub history: Seq<RatePoint>,
}

impl View for StreamSummary {
    type V = SummaryModel;

    open spec fn view(&self) -> SummaryModel {
        SummaryModel {
            call_id: text_of(self.call_id),
            ssrc: self.ssrc,
            flow: self.flow,
            codec: text_of(self.codec),
            payload_type: self.payload_type,
            packets: self.packets,
            lost: self.lost,
            expected: self.expected,
            loss_pct: self.loss_pct,
            jitter_ms: self.jitter_ms,
            first_ts_us: self.first_ts_us,
            last_ts_us: self.last_ts_us,
            rtt_min_ms: self.rtt_min_ms,
            rtt_avg_ms: self.rtt_avg_ms,
            rtt_max_ms: self.rtt_max_ms,
            oneway_ms: self.oneway_ms,
            mos: self.mos,
            direction: text_of(self.direction),
            leg: text_of(self.leg),
            via_turn: self.via_turn,
            bytes: self.bytes,
            history: self.history@,
        }
    }
}

/// A stream of which nothing is known.
pub open spec fn no_stream() -> SummaryModel {
    SummaryModel {
        call_id: None,
        ssrc: 0,
        flow: None,
        codec: None,
        payload_type: None,
        packets: 0,
        lost: 0,
        expected: 0,
        loss_pct: Double::spec_zero(),
        jitter_ms: None,
        first_ts_us: None,
        last_ts_us: None,
        rtt_min_ms: None,
        rtt_avg_ms: None,
        rtt_max_ms: None,
        oneway_ms: None,
        mos: None,
        direction: None,
        leg: None,
        via_turn: false,
        bytes: 0,
        history: Seq::empty(),
    }
}

impl Default for StreamSummary {
    fn default() -> (r: StreamSummary)
        ensures
            r@ == no_stream(),
    {
        StreamSummary {
            call_id: None,
            ssrc: 0,
            flow: None,
            codec: None,
            payload_type: None,
            packets: 0,
            lost: 0,
            expected: 0,
            loss_pct: Double::zero(),
            jitter_ms: None,
            first_ts_us: None,
            last_ts_us: None,
            rtt_min_ms: None,
            rtt_avg_ms: None,
            rtt_max_ms: None,
            oneway_ms: None,
            mos: None,
            direction: None,
            leg: None,
            via_turn: false,
            bytes: 0,
            history: Vec::new(),
        }
    }
}

fn copy_points(v: &Vec<RatePoint>) -> (r: Vec<RatePoint>)
    ensures
        r@ == v@,
{
    let mut r: Vec<RatePoint> = Vec::new();
    let mut i: usize = 0;
    while i < v.len()
        invariant
            i <= v@.len(),
            r@ == v@.take(i as int),
        decreases v@.len() - i,
    {
        r.push(v[i]);
        i += 1;
    }
    r
}

impl Clone for StreamSummary {
    fn clone(&self) -> (r: StreamSummary)
        ensures
            r@ == self@,
    {
        StreamSummary {
            call_id: self.call_id.clone(),
            ssrc: self.ssrc,
            flow: self.flow,
            codec: self.codec.clone(),
            payload_type: self.payload_type,
            packets: self.packets,
            lost: self.lost,
            expected: self.expected,
            loss_pct: self.loss_pct,
            jitter_ms: self.jitter_ms,
            first_ts_us: self.first_ts_us,
            last_ts_us: self.last_ts_us,
            rtt_min_ms: self.rtt_min_ms,
            rtt_avg_ms: self.rtt_avg_ms,
            rtt_max_ms: self.rtt_max_ms,
            oneway_ms: self.oneway_ms,
            mos: self.mos,
            direction: self.direction.clone(),
            leg: self.leg.clone(),
            via_turn: self.via_turn,
            bytes: self.bytes,
            history: copy_points(&self.history),
        }
    }
}

/// The record of a stream in the event log: what it amounted to at a time,
/// without the samples.
pub struct StreamSnapEvt {
    /// Capture time in microseconds.
    pub ts_us: u64,
    /// The stream.
    pub stream: StreamSummary,
}

} // verus!
