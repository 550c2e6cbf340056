//! SIP messages and calls.
use crate::addr::{Flow5Tuple, IpAddr, SocketAddr};
use crate::octets::octets;
use bytes::Bytes;
use vstd::prelude::*;

verus! {

/// A SIP request method.
#[derive(Clone, Copy, PartialEq, Eq, Structural, Debug)]
pub enum Method {
    /// INVITE.
    Invite,
    /// ACK.
    Ack,
    /// BYE.
    Bye,
    /// CANCEL.
    Cancel,
    /// REGISTER.
    Register,
    /// OPTIONS.
    Options,
    /// PRACK.
    Prack,
    /// UPDATE.
    Update,
    /// SUBSCRIBE.
    Subscribe,
    /// NOTIFY.
    Notify,
    /// PUBLISH.
    Publish,
    /// INFO.
    Info,
    /// REFER.
    Refer,
    /// MESSAGE.
    Message,
}

/// Where a call stands.
#[derive(Clone, Copy, PartialEq, Eq, Structural, Debug)]
pub enum CallState {
    /// An INVITE was sent.
    Dialing,
    /// The callee is being alerted.
    Ringing,
    /// The call was answered.
    Active,
    /// An answered call has ended.
    Completed,
    /// The call ended without an answer.
    Failed,
    /// The caller gave up.
    Canceled,
}

/// How a call turned out.
#[derive(Clone, Copy, PartialEq, Eq, Structural, Debug)]
pub enum Outcome {
    /// Not known yet.
    Unknown,
    /// Answered.
    Answered,
    /// Refused with a 4xx response.
    Rejected,
    /// Refused with another final response.
    Failed,
    /// Given up by the caller.
    Canceled,
}

/// Who ended a call.
#[derive(Clone, Copy, PartialEq, Eq, Structural, Debug)]
pub enum HangupBy {
    /// The caller.
    Caller,
    /// The callee, in an answered call.
    Callee,
    /// The callee's side, which refused the call.
    Reject,
}

/// The text of an optional string.
pub open spec fn text_of(s: Option<String>) -> Option<Seq<char>> {
    match s {
        Some(t) => Some(t@),
        None => None,
    }
}

/// One SIP message, as far as the monitor reads it.
pub struct SipMsg {
    /// Capture time in microseconds.
    pub ts_us: u64,
    /// The flow that carried it.
    pub flow: Flow5Tuple,
    /// Whether it is a request.
    pub is_request: bool,
    /// The method of a request.
    pub method: Option<Method>,
    /// The status code of a response.
    pub status: Option<u16>,
    /// The Call-ID.
    pub call_id: String,
    /// The CSeq number.
    pub cseq: Option<u32>,
    /// The CSeq method.
    pub cseq_method: Option<String>,
    /// The branch of the top Via.
    pub branch: Option<String>,
    /// The From tag.
    pub from_tag: Option<String>,
    /// The To tag.
    pub to_tag: Option<String>,
    /// The From header value.
    pub from_uri: Option<String>,
    /// The To header value.
    pub to_uri: Option<String>,
    /// The message as captured, possibly cut short.
    pub raw: Bytes,
    /// The address and port that the Contact header names; none where it names a
    /// host otherwise, or no port.
    pub contact_addr: Option<SocketAddr>,
    /// How many Route headers it has.
    pub route_count: usize,
    /// How many Record-Route headers it has.
    pub record_route_count: usize,
    /// Whether it carries a session description.
    pub has_sdp: bool,
}

/// A [`SipMsg`] in mathematical terms.
pub ghost struct MsgModel {
    pub ts_us: int,
    pub flow: Flow5Tuple,
    pub is_request: bool,
    pub method: Option<Method>,
    pub status: Option<u16>,
    pub call_id: Seq<char>,
    pub cseq: Option<u32>,
    pub cseq_method: Option<Seq<char>>,
    pub branch: Option<Seq<char>>,
    pub from_tag: Option<Seq<char>>,
    pub to_tag: Option<Seq<char>>,
    pub from_uri: Option<Seq<char>>,
    pub to_uri: Option<Seq<char>>,
    pub raw: Seq<u8>,
    pub contact_addr: Option<SocketAddr>,
    pub route_count: nat,
    pub record_route_count: nat,
    pub has_sdp: bool,
}

impl View for SipMsg {
    type V = MsgModel;

    open spec fn view(&self) -> MsgModel {
        MsgModel {
            ts_us: self.ts_us as int,
            flow: self.flow,
            is_request: self.is_request,
            method: self.method,
            status: self.status,
            call_id: self.call_id@,
            cseq: self.cseq,
            cseq_method: text_of(self.cseq_method),
            branch: text_of(self.branch),
            from_tag: text_of(self.from_tag),
            to_tag: text_of(self.to_tag),
            from_uri: text_of(self.from_uri),
            to_uri: text_of(self.to_uri),
            raw: octets(self.raw),
            contact_addr: self.contact_addr,
            route_count: self.route_count as nat,
            record_route_count: self.record_route_count as nat,
            has_sdp: self.has_sdp,
        }
    }
}

impl Clone for SipMsg {
    fn clone(&self) -> (r: SipMsg)
        ensures
            r == *self,
    {
        SipMsg {
            ts_us: self.ts_us,
            flow: self.flow,
            is_request: self.is_request,
            method: self.method,
            status: self.status,
            call_id: self.call_id.clone(),
            cseq: self.cseq,
            cseq_method: self.cseq_method.clone(),
            branch: self.branch.clone(),
            from_tag: self.from_tag.clone(),
            to_tag: self.to_tag.clone(),
            from_uri: self.from_uri.clone(),
            to_uri: self.to_uri.clone(),
            raw: self.raw.clone(),
            contact_addr: self.contact_addr,
            route_count: self.route_count,
            record_route_count: self.record_route_count,
            has_sdp: self.has_sdp,
        }
    }
}

/// Why a call ended, as signalled.
pub struct Hangup {
    /// The final status code, or the cause of a Reason header.
    pub code: Option<u32>,
    /// The text of a Reason header.
    pub reason: Option<String>,
}

/// What the parties agreed on in their session descriptions.
pub struct Negotiated {
    /// The media endpoints.
    pub endpoints: Vec<SocketAddr>,
}

/// Evidence of a back-to-back user agent in a call.
#[derive(Clone, Copy, PartialEq, Eq, Structural, Debug)]
pub struct B2buaInfo {
    /// The one address that both legs share.
    pub addr: Option<IpAddr>,
    /// The number of legs.
    pub legs: u8,
}

/// One call, by Call-ID.
pub struct Call {
    /// The Call-ID.
    pub call_id: String,
    /// Where the call stands.
    pub state: CallState,
    /// How the call turned out.
    pub outcome: Outcome,
    /// The From header of the INVITE.
    pub from_uri: Option<String>,
    /// The To header of the INVITE.
    pub to_uri: Option<String>,
    /// The user part of `from_uri`.
    pub from_user: Option<String>,
    /// The user part of `to_uri`.
    pub to_user: Option<String>,
    /// When the first INVITE was seen.
    pub invite_ts: Option<u64>,
    /// When the first 1xx response that does not alert was seen.
    pub trying_ts: Option<u64>,
    /// When the first 18x response was seen.
    pub ringing_ts: Option<u64>,
    /// When the first 2xx response to the INVITE was seen.
    pub answer_ts: Option<u64>,
    /// When the first BYE was seen.
    pub bye_ts: Option<u64>,
    /// When the call ended.
    pub end_ts: Option<u64>,
    /// When a packet of the call was last seen.
    pub last_ts_us: u64,
    /// Milliseconds from the INVITE to the first 1xx response.
    pub pdd_ms: Option<u32>,
    /// Milliseconds from the INVITE to the answer.
    pub setup_ms: Option<u32>,
    /// Milliseconds from the first 18x response to the answer.
    pub ring_ms: Option<u32>,
    /// The first 18x status code.
    pub ring_code: Option<u16>,
    /// Whether a 183 response carried a session description.
    pub early_media: bool,
    /// Who ended the call.
    pub hangup_by: Option<HangupBy>,
    /// Why it ended.
    pub hangup: Hangup,
    /// The address that sent the INVITE.
    pub invite_key: Option<IpAddr>,
    /// The address and port that sent the INVITE.
    pub invite_src: Option<SocketAddr>,
    /// The two signalling addresses of the first INVITE.
    pub active_ips: Vec<IpAddr>,
    /// The signalling addresses of every initial INVITE.
    pub ips: Vec<IpAddr>,
    /// SIP messages of the call.
    pub pkts_sip: u64,
    /// RTP packets of the call.
    pub pkts_rtp: u64,
    /// Bytes of the call.
    pub bytes: u64,
    /// Warnings about the call.
    pub warn_count: u32,
    /// Critical findings about the call.
    pub critical_count: u32,
    /// Whether its media went through a relay.
    pub via_turn: bool,
    /// The SIP messages kept.
    pub messages: Vec<SipMsg>,
    /// What was negotiated.
    pub negotiated: Negotiated,
}

/// A [`Call`] in mathematical terms.
#[verifier::ext_equal]
pub ghost struct CallModel {
    pub call_id: Seq<char>,
    pub state: CallState,
    pub outcome: Outcome,
    pub from_uri: Option<Seq<char>>,
    pub to_uri: Option<Seq<char>>,
    pub from_user: Option<Seq<char>>,
    pub to_user: Option<Seq<char>>,
    pub invite_ts: Option<u64>,
    pub trying_ts: Option<u64>,
    pub ringing_ts: Option<u64>,
    pub answer_ts: Option<u64>,
    pub bye_ts: Option<u64>,
    pub end_ts: Option<u64>,
    pub last_ts_us: int,
    pub pdd_ms: Option<u32>,
    pub setup_ms: Option<u32>,
    pub ring_ms: Option<u32>,
    pub ring_code: Option<u16>,
    pub early_media: bool,
    pub hangup_by: Option<HangupBy>,
    pub hangup_code: Option<u32>,
    pub hangup_reason: Option<Seq<char>>,
    pub invite_key: Option<IpAddr>,
    pub invite_src: Option<SocketAddr>,
    pub active_ips: Seq<IpAddr>,
    pub ips: Seq<IpAddr>,
    pub pkts_sip: int,
    pub pkts_rtp: int,
    pub bytes: int,
    pub warn_count: int,
    pub critical_count: int,
    pub via_turn: bool,
    pub messages: Seq<SipMsg>,
    pub endpoints: Seq<SocketAddr>,
}

impl View for Call {
    type V = CallModel;

    open spec fn view(&self) -> CallModel {
        CallModel {
            call_id: self.call_id@,
            state: self.state,
            outcome: self.outcome,
            from_uri: text_of(self.from_uri),
            to_uri: text_of(self.to_uri),
            from_user: text_of(self.from_user),
            to_user: text_of(self.to_user),
            invite_ts: self.invite_ts,
            trying_ts: self.trying_ts,
            ringing_ts: self.ringing_ts,
            answer_ts: self.answer_ts,
            bye_ts: self.bye_ts,
            end_ts: self.end_ts,
            last_ts_us: self.last_ts_us as int,
            pdd_ms: self.pdd_ms,
            setup_ms: self.setup_ms,
            ring_ms: self.ring_ms,
            ring_code: self.ring_code,
            early_media: self.early_media,
            hangup_by: self.hangup_by,
            hangup_code: self.hangup.code,
            hangup_reason: text_of(self.hangup.reason),
            invite_key: self.invite_key,
            invite_src: self.invite_src,
            active_ips: self.active_ips@,
            ips: self.ips@,
            pkts_sip: self.pkts_sip as int,
            pkts_rtp: self.pkts_rtp as int,
            bytes: self.bytes as int,
            warn_count: self.warn_count as int,
            critical_count: self.critical_count as int,
            via_turn: self.via_turn,
            messages: self.messages@,
            endpoints: self.negotiated.endpoints@,
        }
    }
}

/// A call of which nothing has been seen.
pub open spec fn fresh_call(call_id: Seq<char>) -> CallModel {
    CallModel {
        call_id,
        state: CallState::Dialing,
        outcome: Outcome::Unknown,
        from_uri: None,
        to_uri: None,
        from_user: None,
        to_user: None,
        invite_ts: None,
        trying_ts: None,
        ringing_ts: None,
        answer_ts: None,
        bye_ts: None,
        end_ts: None,
        last_ts_us: 0,
        pdd_ms: None,
        setup_ms: None,
        ring_ms: None,
        ring_code: None,
        early_media: false,
        hangup_by: None,
        hangup_code: None,
        hangup_reason: None,
        invite_key: None,
        invite_src: None,
        active_ips: Seq::empty(),
        ips: Seq::empty(),
        pkts_sip: 0,
        pkts_rtp: 0,
        bytes: 0,
        warn_count: 0,
        critical_count: 0,
        via_turn: false,
        messages: Seq::empty(),
        endpoints: Seq::empty(),
    }
}

/// Whether a call in this state has ended.
pub open spec fn ended(state: CallState) -> bool {
    state == CallState::Completed || state == CallState::Failed || state == CallState::Canceled
}

impl CallState {
    /// Whether a call in this state has ended.
    pub fn is_terminal(self) -> (r: bool)
        ensures
            r == ended(self),
    {
        match self {
            CallState::Completed | CallState::Failed | CallState::Canceled => true,
            CallState::Dialing | CallState::Ringing | CallState::Active => false,
        }
    }
}

impl Call {
    /// A call of which nothing has been seen.
    pub fn new(call_id: String) -> (r: Call)
        ensures
            r@ == fresh_call(call_id@),
    {
        let r = Call {
            call_id,
            state: CallState::Dialing,
            outcome: Outcome::Unknown,
            from_uri: None,
            to_uri: None,
            from_user: None,
            to_user: None,
            invite_ts: None,
            trying_ts: None,
            ringing_ts: None,
            answer_ts: None,
            bye_ts: None,
            end_ts: None,
            last_ts_us: 0,
            pdd_ms: None,
            setup_ms: None,
            ring_ms: None,
            ring_code: None,
            early_media: false,
            hangup_by: None,
            hangup: Hangup { code: None, reason: None },
            invite_key: None,
            invite_src: None,
            active_ips: Vec::new(),
            ips: Vec::new(),
            pkts_sip: 0,
            pkts_rtp: 0,
            bytes: 0,
            warn_count: 0,
            critical_count: 0,
            via_turn: false,
            messages: Vec::new(),
            negotiated: Negotiated { endpoints: Vec::new() },
        };
        assert(r@ =~= fresh_call(call_id@));
        r
    }

    /// Milliseconds from the answer to the end of the call, once both are
    /// known.
    pub open spec fn spec_duration_ms(self) -> Option<u64> {
        match (self.answer_ts, self.end_ts) {
            (Some(a), Some(e)) => Some(
                if e >= a {
                    ((e - a) / 1000) as u64
                } else {
                    0
                },
            ),
            _ => None,
        }
    }

    /// Milliseconds from the answer to the end of the call, once both are
    /// known.
    pub fn duration_ms(&self) -> (r: Option<u64>)
        ensures
            r == self.spec_duration_ms(),
    {
        match (self.answer_ts, self.end_ts) {
            (Some(a), Some(e)) => Some(e.saturating_sub(a) / 1000),
            _ => None,
        }
    }
}

/// A call has ended exactly where it is neither dialing, nor ringing, nor active.
pub proof fn a_call_is_under_way_or_has_ended(state: CallState)
    ensures
        ended(state) <==> state != CallState::Dialing && state != CallState::Ringing && state
            != CallState::Active,
{
}

/// A new call is dialing, nothing is known of it, and it keeps its Call-ID.
pub proof fn a_new_call_is_blank(id: Seq<char>)
    ensures
        ({
            let c = fresh_call(id);
            &&& c.call_id == id
            &&& c.state == CallState::Dialing && c.outcome == Outcome::Unknown
            &&& c.from_user is None && c.to_user is None && c.from_uri is None && c.to_uri is None
            &&& c.invite_ts is None && c.trying_ts is None && c.ringing_ts is None
            &&& c.answer_ts is None && c.bye_ts is None && c.end_ts is None
            &&& c.pdd_ms is None && c.setup_ms is None && c.ring_ms is None && c.ring_code is None
            &&& c.hangup_by is None && c.hangup_code is None && c.hangup_reason is None
            &&& c.pkts_sip == 0 && c.pkts_rtp == 0 && c.bytes == 0 && c.last_ts_us == 0
            &&& c.warn_count == 0 && c.critical_count == 0 && !c.early_media && !c.via_turn
            &&& c.messages.len() == 0 && c.ips.len() == 0 && c.active_ips.len() == 0
        }),
{
}

/// The duration of a call is the time from its answer to its end, in whole
/// milliseconds, and nothing where one of them is not known.
pub proof fn a_call_lasts_from_its_answer_to_its_end(c: Call)
    ensures
        c.spec_duration_ms() is Some <==> c.answer_ts is Some && c.end_ts is Some,
        c.answer_ts is Some && c.end_ts is Some && c.answer_ts->0 <= c.end_ts->0
            ==> c.spec_duration_ms()->0 * 1000 <= c.end_ts->0 - c.answer_ts->0
            < c.spec_duration_ms()->0 * 1000 + 1000,
        c.answer_ts is Some && c.end_ts is Some && c.answer_ts->0 > c.end_ts->0
            ==> c.spec_duration_ms() == Some(0u64),
{
}

} // verus!
