//! The call state machine: what one SIP message does to a call.
use crate::lines::{reason_from_raw, reason_of};
use crate::model::sip::{
    fresh_call, text_of, Call, CallModel, CallState, HangupBy, Method, MsgModel, Outcome, SipMsg,
};
use crate::octets::{octet_slice, octets};
use crate::text::{fold_eq, same_fold};
use crate::uri::{user_in, user_of};
use vstd::prelude::*;

verus! {

/// What a message is to a call.
pub ghost enum Event {
    /// An INVITE that opens the dialog.
    Invite,
    /// A BYE request.
    Bye,
    /// A CANCEL request that comes in time.
    Cancel,
    /// A 1xx response while the call is being set up.
    Provisional(u16),
    /// A final response to a BYE.
    ByeDone(u16),
    /// A 2xx response to the INVITE, or to a request that it does not name.
    Success,
    /// Another final response that is not a 2xx.
    Refusal(u16),
    /// Anything else.
    Other,
}

/// Whether a CSeq method is `name`, in any case.
pub open spec fn cseq_is(m: MsgModel, name: Seq<char>) -> bool {
    m.cseq_method matches Some(t) && fold_eq(t, name)
}

/// Whether a response is one to the INVITE: its CSeq method says so, or it has
/// none.
pub open spec fn to_invite(m: MsgModel) -> bool {
    m.cseq_method is None || cseq_is(m, "INVITE"@)
}

/// Whether a call in this state is still being set up.
pub open spec fn setting_up(state: CallState) -> bool {
    state == CallState::Dialing || state == CallState::Ringing
}

/// What a message is to a call.
pub open spec fn event_of(c: CallModel, m: MsgModel) -> Event {
    if m.is_request {
        match m.method {
            Some(Method::Invite) if m.to_tag is None => Event::Invite,
            Some(Method::Bye) => Event::Bye,
            Some(Method::Cancel) if c.state != CallState::Completed && c.state
                != CallState::Failed => Event::Cancel,
            _ => Event::Other,
        }
    } else {
        match m.status {
            None => Event::Other,
            Some(code) => if 100 <= code < 200 && to_invite(m) && setting_up(c.state) {
                Event::Provisional(code)
            } else if code < 200 {
                Event::Other
            } else if cseq_is(m, "BYE"@) {
                Event::ByeDone(code)
            } else if code >= 300 {
                Event::Refusal(code)
            } else if to_invite(m) {
                Event::Success
            } else {
                Event::Other
            },
        }
    }
}

/// `known`, or `now` where nothing is known yet.
pub open spec fn first_of<T>(known: Option<T>, now: T) -> Option<T> {
    match known {
        Some(k) => Some(k),
        None => Some(now),
    }
}

/// The milliseconds from one time to a later one, in 32 bits.
pub open spec fn ms_between(from: int, to: int) -> u32 {
    (((to - from) / 1000) % 0x1_0000_0000) as u32
}

/// The user that an optional address header value names.
pub open spec fn user_of_opt(uri: Option<Seq<char>>) -> Option<Seq<char>> {
    match uri {
        Some(u) => user_in(u),
        None => None,
    }
}

/// What every message does: it is counted, and an INVITE names the parties
/// that are not known yet.
pub open spec fn counted(c: CallModel, m: MsgModel) -> CallModel {
    let names = m.method == Some(Method::Invite);
    let from = names && c.from_uri is None;
    let to = names && c.to_uri is None;
    CallModel {
        pkts_sip: c.pkts_sip + 1,
        bytes: c.bytes + m.raw.len(),
        last_ts_us: m.ts_us,
        from_uri: if from {
            m.from_uri
        } else {
            c.from_uri
        },
        from_user: if from {
            user_of_opt(m.from_uri)
        } else {
            c.from_user
        },
        to_uri: if to {
            m.to_uri
        } else {
            c.to_uri
        },
        to_user: if to {
            user_of_opt(m.to_uri)
        } else {
            c.to_user
        },
        ..c
    }
}

/// The state of a call that is over: completed if it was answered.
pub open spec fn over(c: CallModel) -> CallState {
    if c.answer_ts is Some {
        CallState::Completed
    } else {
        CallState::Failed
    }
}

/// An INVITE that opens the dialog.
pub open spec fn invited(c: CallModel, m: MsgModel) -> CallModel {
    let src = m.flow.src.ip;
    let dst = m.flow.dst.ip;
    CallModel {
        invite_ts: first_of(c.invite_ts, m.ts_us as u64),
        invite_key: first_of(c.invite_key, src),
        invite_src: first_of(c.invite_src, m.flow.src),
        active_ips: if c.active_ips.len() == 0 {
            seq![src, dst]
        } else {
            c.active_ips
        },
        ips: c.ips.push(src).push(dst),
        state: CallState::Dialing,
        ..c
    }
}

/// A BYE request: its sender hangs up, for the reason it states.
pub open spec fn bye_sent(c: CallModel, m: MsgModel) -> CallModel {
    let reason = reason_of(m.raw);
    CallModel {
        bye_ts: first_of(c.bye_ts, m.ts_us as u64),
        hangup_by: match (c.hangup_by, c.invite_key) {
            (Some(h), _) => Some(h),
            (None, Some(caller)) => Some(
                if caller == m.flow.src.ip {
                    HangupBy::Caller
                } else {
                    HangupBy::Callee
                },
            ),
            (None, None) => None,
        },
        hangup_code: match reason {
            Some(r) => Some(r.0),
            None => c.hangup_code,
        },
        hangup_reason: match reason {
            Some(r) if r.1.len() > 0 => Some(r.1),
            _ => c.hangup_reason,
        },
        ..c
    }
}

/// A CANCEL request.
pub open spec fn cancelled(c: CallModel, m: MsgModel) -> CallModel {
    CallModel {
        state: CallState::Canceled,
        end_ts: Some(m.ts_us as u64),
        hangup_by: first_of(c.hangup_by, HangupBy::Caller),
        ..c
    }
}

/// A 1xx response: the first one fixes the post-dial delay, and an 18x
/// response is the ringing.
pub open spec fn progressed(c: CallModel, m: MsgModel, code: u16) -> CallModel {
    let first = c.trying_ts is None && c.ringing_ts is None;
    let rings = 180 <= code < 190;
    CallModel {
        pdd_ms: if first {
            Some(
                match c.invite_ts {
                    Some(i) => ms_between(i as int, m.ts_us),
                    None => 0,
                },
            )
        } else {
            c.pdd_ms
        },
        ringing_ts: if rings {
            first_of(c.ringing_ts, m.ts_us as u64)
        } else {
            c.ringing_ts
        },
        ring_code: if rings {
            first_of(c.ring_code, code)
        } else {
            c.ring_code
        },
        early_media: c.early_media || (code == 183 && m.has_sdp),
        state: if rings {
            CallState::Ringing
        } else {
            c.state
        },
        trying_ts: if rings {
            c.trying_ts
        } else {
            first_of(c.trying_ts, m.ts_us as u64)
        },
        ..c
    }
}

/// A final response to a BYE.
pub open spec fn bye_done(c: CallModel, m: MsgModel, code: u16) -> CallModel {
    CallModel {
        hangup_code: if code >= 300 {
            Some(code as u32)
        } else {
            c.hangup_code
        },
        state: over(c),
        end_ts: first_of(c.end_ts, m.ts_us as u64),
        ..c
    }
}

/// A 2xx response to the INVITE: the first one is the answer.
pub open spec fn answered(c: CallModel, m: MsgModel) -> CallModel {
    if c.answer_ts is Some {
        c
    } else {
        CallModel {
            answer_ts: Some(m.ts_us as u64),
            setup_ms: match c.invite_ts {
                Some(i) => Some(ms_between(i as int, m.ts_us)),
                None => c.setup_ms,
            },
            ring_ms: match c.ringing_ts {
                Some(r) => Some(ms_between(r as int, m.ts_us)),
                None => c.ring_ms,
            },
            state: CallState::Active,
            outcome: Outcome::Answered,
            ..c
        }
    }
}

/// A final response other than 2xx to anything but a BYE.
pub open spec fn refused(c: CallModel, m: MsgModel, code: u16) -> CallModel {
    let c = CallModel { hangup_code: Some(code as u32), ..c };
    if code == 487 {
        CallModel {
            state: CallState::Canceled,
            outcome: Outcome::Canceled,
            hangup_by: first_of(c.hangup_by, HangupBy::Caller),
            ..c
        }
    } else if setting_up(c.state) {
        CallModel {
            state: CallState::Failed,
            outcome: if 400 <= code < 500 {
                Outcome::Rejected
            } else {
                Outcome::Failed
            },
            hangup_by: first_of(c.hangup_by, HangupBy::Reject),
            end_ts: first_of(c.end_ts, m.ts_us as u64),
            ..c
        }
    } else {
        CallModel { state: over(c), end_ts: first_of(c.end_ts, m.ts_us as u64), ..c }
    }
}

/// What one message does to a call.
pub open spec fn call_step(call: CallModel, m: MsgModel) -> CallModel {
    let c = counted(call, m);
    match event_of(call, m) {
        Event::Invite => invited(c, m),
        Event::Bye => bye_sent(c, m),
        Event::Cancel => cancelled(c, m),
        Event::Provisional(code) => progressed(c, m, code),
        Event::ByeDone(code) => bye_done(c, m, code),
        Event::Success => answered(c, m),
        Event::Refusal(code) => refused(c, m, code),
        Event::Other => c,
    }
}

/// Whether a message that fixes a delay comes no earlier than what the delay
/// is measured from.
pub open spec fn in_order(c: CallModel, m: MsgModel) -> bool {
    &&& event_of(c, m) is Provisional && c.trying_ts is None && c.ringing_ts is None
        ==> (c.invite_ts matches Some(i) ==> i <= m.ts_us)
    &&& event_of(c, m) is Success && c.answer_ts is None ==> {
        &&& c.invite_ts matches Some(i) ==> i <= m.ts_us
        &&& c.ringing_ts matches Some(r) ==> r <= m.ts_us
    }
}

fn elapsed_ms(from: u64, to: u64) -> (r: u32)
    requires
        from <= to,
    ensures
        r == ms_between(from as int, to as int),
{
    let ms: u64 = (to - from) / 1000;
    assert(ms as u32 == ms % 0x1_0000_0000) by (bit_vector);
    ms as u32
}

fn user_of_uri(uri: &Option<String>) -> (r: Option<String>)
    ensures
        text_of(r) == user_of_opt(text_of(*uri)),
{
    match uri {
        Some(u) => user_of(u.as_str()),
        None => None,
    }
}

/// Whether the CSeq method of a message is `name`, in any case.
fn answers(msg: &SipMsg, name: &str) -> (r: bool)
    ensures
        r == cseq_is(msg@, name@),
{
    match &msg.cseq_method {
        Some(t) => same_fold(t.as_str(), name),
        None => false,
    }
}

/// Whether a response is one to the INVITE.
fn answers_invite(msg: &SipMsg) -> (r: bool)
    ensures
        r == to_invite(msg@),
{
    msg.cseq_method.is_none() || answers(msg, "INVITE")
}

fn over_state(call: &Call) -> (r: CallState)
    ensures
        r == over(call@),
{
    if call.answer_ts.is_some() {
        CallState::Completed
    } else {
        CallState::Failed
    }
}

fn apply_invite(call: &mut Call, msg: &SipMsg)
    ensures
        final(call)@ == invited(old(call)@, msg@),
{
    let src = msg.flow.src.ip;
    let dst = msg.flow.dst.ip;
    if call.invite_ts.is_none() {
        call.invite_ts = Some(msg.ts_us);
    }
    if call.invite_key.is_none() {
        call.invite_key = Some(src);
    }
    if call.invite_src.is_none() {
        call.invite_src = Some(msg.flow.src);
    }
    if call.active_ips.len() == 0 {
        call.active_ips.push(src);
        call.active_ips.push(dst);
    }
    call.ips.push(src);
    call.ips.push(dst);
    call.state = CallState::Dialing;
    assert(call@ =~= invited(old(call)@, msg@));
}

fn apply_bye(call: &mut Call, msg: &SipMsg)
    ensures
        final(call)@ == bye_sent(old(call)@, msg@),
{
    if call.bye_ts.is_none() {
        call.bye_ts = Some(msg.ts_us);
    }
    if call.hangup_by.is_none() {
        call.hangup_by = match call.invite_key {
            Some(caller) => if caller == msg.flow.src.ip {
                Some(HangupBy::Caller)
            } else {
                Some(HangupBy::Callee)
            },
            None => None,
        };
    }
    if let Some((code, text)) = reason_from_raw(octet_slice(&msg.raw)) {
        call.hangup.code = Some(code);
        if text.chars().next().is_some() {
            call.hangup.reason = Some(text);
        }
    }
    assert(call@ =~= bye_sent(old(call)@, msg@));
}

fn apply_provisional(call: &mut Call, msg: &SipMsg, code: u16)
    requires
        old(call)@.trying_ts is None && old(call)@.ringing_ts is None ==> (
        old(call)@.invite_ts matches Some(i) ==> i <= msg@.ts_us),
    ensures
        final(call)@ == progressed(old(call)@, msg@, code),
{
    if call.trying_ts.is_none() && call.ringing_ts.is_none() {
        let from: u64 = match call.invite_ts {
            Some(i) => i,
            None => msg.ts_us,
        };
        call.pdd_ms = Some(elapsed_ms(from, msg.ts_us));
    }
    if 180 <= code && code < 190 {
        if call.ringing_ts.is_none() {
            call.ringing_ts = Some(msg.ts_us);
        }
        if call.ring_code.is_none() {
            call.ring_code = Some(code);
        }
        if code == 183 && msg.has_sdp {
            call.early_media = true;
        }
        call.state = CallState::Ringing;
    } else if call.trying_ts.is_none() {
        call.trying_ts = Some(msg.ts_us);
    }
    assert(call@ =~= progressed(old(call)@, msg@, code));
}

fn apply_bye_done(call: &mut Call, msg: &SipMsg, code: u16)
    ensures
        final(call)@ == bye_done(old(call)@, msg@, code),
{
    if code >= 300 {
        call.hangup.code = Some(code as u32);
    }
    call.state = over_state(call);
    if call.end_ts.is_none() {
        call.end_ts = Some(msg.ts_us);
    }
    assert(call@ =~= bye_done(old(call)@, msg@, code));
}

fn apply_success(call: &mut Call, msg: &SipMsg)
    requires
        old(call)@.answer_ts is None ==> {
            &&& old(call)@.invite_ts matches Some(i) ==> i <= msg@.ts_us
            &&& old(call)@.ringing_ts matches Some(r) ==> r <= msg@.ts_us
        },
    ensures
        final(call)@ == answered(old(call)@, msg@),
{
    if call.answer_ts.is_none() {
        call.answer_ts = Some(msg.ts_us);
        if let Some(i) = call.invite_ts {
            call.setup_ms = Some(elapsed_ms(i, msg.ts_us));
        }
        if let Some(r) = call.ringing_ts {
            call.ring_ms = Some(elapsed_ms(r, msg.ts_us));
        }
        call.state = CallState::Active;
        call.outcome = Outcome::Answered;
    }
    assert(call@ =~= answered(old(call)@, msg@));
}

fn apply_refusal(call: &mut Call, msg: &SipMsg, code: u16)
    ensures
        final(call)@ == refused(old(call)@, msg@, code),
{
    call.hangup.code = Some(code as u32);
    if code == 487 {
        call.state = CallState::Canceled;
        call.outcome = Outcome::Canceled;
        if call.hangup_by.is_none() {
            call.hangup_by = Some(HangupBy::Caller);
        }
    } else if call.state == CallState::Dialing || call.state == CallState::Ringing {
        call.state = CallState::Failed;
        call.outcome = if 400 <= code && code < 500 {
            Outcome::Rejected
        } else {
            Outcome::Failed
        };
        if call.hangup_by.is_none() {
            call.hangup_by = Some(HangupBy::Reject);
        }
        if call.end_ts.is_none() {
            call.end_ts = Some(msg.ts_us);
        }
    } else {
        call.state = over_state(call);
        if call.end_ts.is_none() {
            call.end_ts = Some(msg.ts_us);
        }
    }
    assert(call@ =~= refused(old(call)@, msg@, code));
}

fn count_message(call: &mut Call, msg: &SipMsg)
    requires
        old(call).pkts_sip < u64::MAX,
        old(call).bytes + octets(msg.raw).len() <= u64::MAX,
    ensures
        final(call)@ == counted(old(call)@, msg@),
{
    call.pkts_sip += 1;
    call.bytes += octet_slice(&msg.raw).len() as u64;
    call.last_ts_us = msg.ts_us;
    if msg.method == Some(Method::Invite) {
        if call.from_uri.is_none() {
            call.from_uri = msg.from_uri.clone();
            call.from_user = user_of_uri(&msg.from_uri);
        }
        if call.to_uri.is_none() {
            call.to_uri = msg.to_uri.clone();
            call.to_user = user_of_uri(&msg.to_uri);
        }
    }
    assert(call@ =~= counted(old(call)@, msg@));
}

/// Applies one SIP message to a call.
pub fn apply_sip(call: &mut Call, msg: &SipMsg)
    requires
        applicable(old(call)@, msg@),
    ensures
        final(call)@ == call_step(old(call)@, msg@),
{
    count_message(call, msg);
    if msg.is_request {
        match msg.method {
            Some(Method::Invite) => {
                if msg.to_tag.is_none() {
                    apply_invite(call, msg);
                }
            },
            Some(Method::Bye) => {
                apply_bye(call, msg);
            },
            Some(Method::Cancel) => {
                if call.state != CallState::Completed && call.state != CallState::Failed {
                    call.state = CallState::Canceled;
                    call.end_ts = Some(msg.ts_us);
                    if call.hangup_by.is_none() {
                        call.hangup_by = Some(HangupBy::Caller);
                    }
                    assert(call@ =~= cancelled(counted(old(call)@, msg@), msg@));
                }
            },
            _ => {},
        }
        return;
    }
    let code = match msg.status {
        Some(code) => code,
        None => {
            return;
        },
    };
    if 100 <= code && code < 200 && answers_invite(msg) && (call.state == CallState::Dialing
        || call.state == CallState::Ringing) {
        apply_provisional(call, msg, code);
    } else if code >= 200 {
        if answers(msg, "BYE") {
            apply_bye_done(call, msg, code);
        } else if code >= 300 {
            apply_refusal(call, msg, code);
        } else if answers_invite(msg) {
            apply_success(call, msg);
        }
    }
}

/// Whether a message can be applied to a call: its counters have room, and
/// the message does not come before what a delay is measured from.
pub open spec fn applicable(c: CallModel, m: MsgModel) -> bool {
    c.pkts_sip < u64::MAX && c.bytes + m.raw.len() <= u64::MAX && in_order(c, m)
}

fn not_after(from: Option<u64>, ts_us: u64) -> (r: bool)
    ensures
        r == (from matches Some(t) ==> t <= ts_us),
{
    match from {
        Some(t) => t <= ts_us,
        None => true,
    }
}

/// Whether a message can be applied to a call.
pub fn can_apply(call: &Call, msg: &SipMsg) -> (r: bool)
    ensures
        r == applicable(call@, msg@),
{
    let n: usize = octet_slice(&msg.raw).len();
    if call.pkts_sip == u64::MAX || n as u64 > u64::MAX - call.bytes {
        return false;
    }
    let code = match msg.status {
        Some(code) => code,
        None => {
            return true;
        },
    };
    if msg.is_request {
        return true;
    }
    if 100 <= code && code < 200 && answers_invite(msg) && (call.state == CallState::Dialing
        || call.state == CallState::Ringing) {
        call.trying_ts.is_some() || call.ringing_ts.is_some() || not_after(call.invite_ts, msg.ts_us)
    } else if 200 <= code && code < 300 && !answers(msg, "BYE") && answers_invite(msg) {
        call.answer_ts.is_some() || (not_after(call.invite_ts, msg.ts_us) && not_after(
            call.ringing_ts,
            msg.ts_us,
        ))
    } else {
        true
    }
}

/// What holds of a call at all times: milestones come with what is measured
/// at them, and what only an answer brings implies the answer.
pub open spec fn coherent(c: CallModel) -> bool {
    &&& c.invite_ts is Some <==> c.invite_key is Some
    &&& c.invite_ts is Some <==> c.invite_src is Some
    &&& c.invite_ts is Some <==> c.active_ips.len() > 0
    &&& c.ringing_ts is Some <==> c.ring_code is Some
    &&& c.pdd_ms is Some <==> c.trying_ts is Some || c.ringing_ts is Some
    &&& c.early_media ==> c.ringing_ts is Some
    &&& c.setup_ms is Some ==> c.answer_ts is Some
    &&& c.ring_ms is Some ==> c.answer_ts is Some && c.ringing_ts is Some
    &&& c.outcome == Outcome::Answered ==> c.answer_ts is Some
    &&& c.state == CallState::Active ==> c.answer_ts is Some
    &&& c.state == CallState::Completed ==> c.answer_ts is Some
    &&& c.ring_code matches Some(k) ==> 180 <= k < 190
}

/// A new call is coherent.
pub proof fn a_new_call_is_coherent(call_id: Seq<char>)
    ensures
        coherent(fresh_call(call_id)),
{
}

/// No message makes a call incoherent.
pub proof fn every_message_keeps_a_call_coherent(c: CallModel, m: MsgModel)
    requires
        coherent(c),
    ensures
        coherent(call_step(c, m)),
{
}

/// Whether a value, once known, is still the same.
pub open spec fn kept<T>(was: Option<T>, is: Option<T>) -> bool {
    was is Some ==> is == was
}

/// A milestone is set once: no later message moves it. The end alone can be
/// moved, and only by a CANCEL.
pub proof fn milestones_are_set_once(c: CallModel, m: MsgModel)
    ensures
        kept(c.invite_ts, call_step(c, m).invite_ts),
        kept(c.invite_key, call_step(c, m).invite_key),
        kept(c.invite_src, call_step(c, m).invite_src),
        kept(c.trying_ts, call_step(c, m).trying_ts),
        kept(c.ringing_ts, call_step(c, m).ringing_ts),
        kept(c.ring_code, call_step(c, m).ring_code),
        kept(c.answer_ts, call_step(c, m).answer_ts),
        kept(c.bye_ts, call_step(c, m).bye_ts),
        kept(c.hangup_by, call_step(c, m).hangup_by),
        event_of(c, m) !is Cancel ==> kept(c.end_ts, call_step(c, m).end_ts),
{
}

/// The post-dial delay is measured at the first provisional response and
/// never again.
pub proof fn post_dial_delay_is_measured_once(c: CallModel, m: MsgModel)
    requires
        c.trying_ts is Some || c.ringing_ts is Some,
    ensures
        call_step(c, m).pdd_ms == c.pdd_ms,
{
}

/// The times to the answer are measured at the first answer and never again.
pub proof fn setup_is_measured_once(c: CallModel, m: MsgModel)
    requires
        c.answer_ts is Some,
    ensures
        call_step(c, m).setup_ms == c.setup_ms,
        call_step(c, m).ring_ms == c.ring_ms,
{
}

/// Only a 2xx response to the INVITE answers a call, and sets what is measured
/// at the answer.
pub proof fn only_the_invite_is_answered(c: CallModel, m: MsgModel)
    requires
        !to_invite(m),
    ensures
        call_step(c, m).answer_ts == c.answer_ts,
        call_step(c, m).setup_ms == c.setup_ms,
        call_step(c, m).ring_ms == c.ring_ms,
        call_step(c, m).outcome == Outcome::Answered ==> c.outcome == Outcome::Answered,
        call_step(c, m).state == CallState::Active ==> c.state == CallState::Active,
{
}

/// Early media begins only with a 183 response that carries a session
/// description, and does not end.
pub proof fn early_media_needs_a_183_with_sdp(c: CallModel, m: MsgModel)
    ensures
        call_step(c, m).early_media == (c.early_media || (event_of(c, m) == Event::Provisional(183)
            && m.has_sdp)),
{
}

/// The final response to a BYE completes a call that was answered, and fails
/// one that was not.
pub proof fn a_bye_completes_only_answered_calls(c: CallModel, m: MsgModel)
    requires
        event_of(c, m) is ByeDone,
    ensures
        call_step(c, m).state == if c.answer_ts is Some {
            CallState::Completed
        } else {
            CallState::Failed
        },
        call_step(c, m).end_ts is Some,
{
}

/// Every message is counted, with its bytes, and is the latest activity; it
/// leaves the media counters, the findings and the kept messages alone.
pub proof fn every_message_is_counted(c: CallModel, m: MsgModel)
    ensures
        call_step(c, m).pkts_sip == c.pkts_sip + 1,
        call_step(c, m).bytes == c.bytes + m.raw.len(),
        call_step(c, m).last_ts_us == m.ts_us,
        call_step(c, m).call_id == c.call_id,
        call_step(c, m).pkts_rtp == c.pkts_rtp,
        call_step(c, m).messages == c.messages,
        call_step(c, m).warn_count == c.warn_count,
        call_step(c, m).critical_count == c.critical_count,
{
}

/// Whether a message leaves of a call everything but its counters, its latest
/// activity and the names of its parties.
pub open spec fn stands_still(was: CallModel, is: CallModel) -> bool {
    &&& is.state == was.state
    &&& is.outcome == was.outcome
    &&& is.invite_ts == was.invite_ts
    &&& is.trying_ts == was.trying_ts
    &&& is.ringing_ts == was.ringing_ts
    &&& is.answer_ts == was.answer_ts
    &&& is.bye_ts == was.bye_ts
    &&& is.end_ts == was.end_ts
    &&& is.pdd_ms == was.pdd_ms
    &&& is.setup_ms == was.setup_ms
    &&& is.ring_ms == was.ring_ms
    &&& is.ring_code == was.ring_code
    &&& is.early_media == was.early_media
    &&& is.hangup_by == was.hangup_by
    &&& is.hangup_code == was.hangup_code
    &&& is.hangup_reason == was.hangup_reason
    &&& is.invite_key == was.invite_key
    &&& is.invite_src == was.invite_src
    &&& is.active_ips == was.active_ips
    &&& is.ips == was.ips
    &&& is.via_turn == was.via_turn
    &&& is.endpoints == was.endpoints
}

/// An INVITE without a To tag puts a call into dialing and notes its sender and
/// its receiver. The first one is the one that is remembered.
pub proof fn an_opening_invite_dials(c: CallModel, m: MsgModel)
    requires
        m.is_request,
        m.method == Some(Method::Invite),
        m.to_tag is None,
        0 <= m.ts_us <= u64::MAX,
    ensures
        ({
            let d = call_step(c, m);
            let n = c.ips.len() as int;
            &&& d.state == CallState::Dialing
            &&& d.invite_ts is Some && d.invite_key is Some && d.invite_src is Some
            &&& c.invite_ts is None ==> d.invite_ts->0 as int == m.ts_us
            &&& c.invite_key is None ==> d.invite_key->0 == m.flow.src.ip
            &&& c.invite_src is None ==> d.invite_src->0 == m.flow.src
            &&& c.invite_ts is Some ==> d.invite_ts == c.invite_ts
            &&& c.active_ips.len() == 0 ==> d.active_ips.len() == 2 && d.active_ips[0]
                == m.flow.src.ip && d.active_ips[1] == m.flow.dst.ip
            &&& c.active_ips.len() > 0 ==> d.active_ips == c.active_ips
            &&& d.ips.len() == n + 2 && d.ips[n] == m.flow.src.ip && d.ips[n + 1] == m.flow.dst.ip
            &&& d.ips.take(n) == c.ips
            &&& d.outcome == c.outcome && d.answer_ts == c.answer_ts && d.end_ts == c.end_ts
            &&& d.pdd_ms == c.pdd_ms && d.setup_ms == c.setup_ms && d.hangup_by == c.hangup_by
        }),
{
    assert(call_step(c, m).ips.take(c.ips.len() as int) =~= c.ips);
}

/// Whoever sends the first BYE hangs up: the caller where the BYE comes from where
/// the INVITE came from, else the callee. The call ends only with the response.
pub proof fn a_bye_tells_who_hangs_up(c: CallModel, m: MsgModel)
    requires
        m.is_request,
        m.method == Some(Method::Bye),
        0 <= m.ts_us <= u64::MAX,
    ensures
        ({
            let d = call_step(c, m);
            &&& c.bye_ts is None ==> d.bye_ts is Some && d.bye_ts->0 as int == m.ts_us
            &&& c.bye_ts is Some ==> d.bye_ts == c.bye_ts
            &&& c.hangup_by is None && c.invite_key == Some(m.flow.src.ip) ==> d.hangup_by == Some(
                HangupBy::Caller,
            )
            &&& c.hangup_by is None && c.invite_key is Some && c.invite_key != Some(m.flow.src.ip)
                ==> d.hangup_by == Some(HangupBy::Callee)
            &&& c.hangup_by is None && c.invite_key is None ==> d.hangup_by is None
            &&& c.hangup_by is Some ==> d.hangup_by == c.hangup_by
            &&& d.state == c.state && d.outcome == c.outcome && d.end_ts == c.end_ts
            &&& d.answer_ts == c.answer_ts && d.invite_ts == c.invite_ts && d.ips == c.ips
            &&& reason_of(m.raw) is None ==> d.hangup_code == c.hangup_code && d.hangup_reason
                == c.hangup_reason
            &&& reason_of(m.raw) matches Some(r) ==> d.hangup_code == Some(r.0) && (r.1.len() > 0
                ==> d.hangup_reason == Some(r.1)) && (r.1.len() == 0 ==> d.hangup_reason
                == c.hangup_reason)
        }),
{
}

/// A CANCEL gives a call up, unless it has been completed or has failed: then it
/// changes nothing.
pub proof fn a_cancel_gives_up(c: CallModel, m: MsgModel)
    requires
        m.is_request,
        m.method == Some(Method::Cancel),
        0 <= m.ts_us <= u64::MAX,
    ensures
        ({
            let d = call_step(c, m);
            if c.state == CallState::Completed || c.state == CallState::Failed {
                stands_still(c, d)
            } else {
                &&& d.state == CallState::Canceled
                &&& d.end_ts is Some && d.end_ts->0 as int == m.ts_us
                &&& c.hangup_by is None ==> d.hangup_by == Some(HangupBy::Caller)
                &&& c.hangup_by is Some ==> d.hangup_by == c.hangup_by
                &&& d.outcome == c.outcome && d.hangup_code == c.hangup_code
                &&& d.answer_ts == c.answer_ts && d.bye_ts == c.bye_ts
            }
        }),
{
}

/// Requests other than an opening INVITE, a BYE and a CANCEL leave a call where it
/// stands, and so do responses without a status or with one below 100.
pub proof fn other_messages_leave_a_call_alone(c: CallModel, m: MsgModel)
    requires
        m.is_request ==> m.method != Some(Method::Bye) && m.method != Some(Method::Cancel) && (
        m.method == Some(Method::Invite) ==> m.to_tag is Some),
        !m.is_request ==> m.status is None || m.status->0 < 100,
    ensures
        stands_still(c, call_step(c, m)),
{
}

/// Whether a CSeq method names the INVITE, or nothing does.
proof fn lemma_cseq_named(m: MsgModel)
    ensures
        m.cseq_method is None || m.cseq_method == Some("INVITE"@) || m.cseq_method == Some("invite"@)
            ==> to_invite(m) && !cseq_is(m, "BYE"@),
        m.cseq_method == Some("BYE"@) || m.cseq_method == Some("bye"@) ==> cseq_is(m, "BYE"@)
            && !to_invite(m),
        m.cseq_method is Some && m.cseq_method->0.len() != 6 ==> !to_invite(m),
        m.cseq_method is None || m.cseq_method->0.len() != 3 ==> !cseq_is(m, "BYE"@),
{
    reveal_strlit("INVITE");
    reveal_strlit("invite");
    reveal_strlit("BYE");
    reveal_strlit("bye");
}

/// While a call is set up, a 18x response to the INVITE is the ringing, and any
/// other 1xx is a sign of life. The first of them fixes the post-dial delay, which
/// is the time since the INVITE in whole milliseconds.
pub proof fn a_provisional_response_rings_or_tries(c: CallModel, m: MsgModel, code: u16)
    requires
        !m.is_request,
        m.status == Some(code),
        100 <= code < 200,
        m.cseq_method is None || m.cseq_method == Some("INVITE"@) || m.cseq_method == Some(
            "invite"@,
        ),
        0 <= m.ts_us <= u64::MAX,
    ensures
        ({
            let d = call_step(c, m);
            let first = c.trying_ts is None && c.ringing_ts is None;
            if c.state == CallState::Dialing || c.state == CallState::Ringing {
                &&& 180 <= code < 190 ==> {
                    &&& d.state == CallState::Ringing
                    &&& c.ringing_ts is None ==> d.ringing_ts is Some && d.ringing_ts->0 as int
                        == m.ts_us
                    &&& c.ringing_ts is Some ==> d.ringing_ts == c.ringing_ts
                    &&& c.ring_code is None ==> d.ring_code == Some(code)
                    &&& c.ring_code is Some ==> d.ring_code == c.ring_code
                    &&& d.trying_ts == c.trying_ts
                }
                &&& code < 180 || code >= 190 ==> {
                    &&& d.state == c.state
                    &&& c.trying_ts is None ==> d.trying_ts is Some && d.trying_ts->0 as int
                        == m.ts_us
                    &&& c.trying_ts is Some ==> d.trying_ts == c.trying_ts
                    &&& d.ringing_ts == c.ringing_ts && d.ring_code == c.ring_code
                }
                &&& d.early_media == (c.early_media || (code == 183 && m.has_sdp))
                &&& first ==> d.pdd_ms is Some
                &&& first && c.invite_ts is None ==> d.pdd_ms == Some(0u32)
                &&& first && c.invite_ts is Some && 0 <= m.ts_us - c.invite_ts->0
                    < 1000 * 0x1_0000_0000 ==> d.pdd_ms->0 * 1000 <= m.ts_us - c.invite_ts->0
                    < d.pdd_ms->0 * 1000 + 1000
                &&& !first ==> d.pdd_ms == c.pdd_ms
                &&& d.outcome == c.outcome && d.answer_ts == c.answer_ts && d.end_ts == c.end_ts
                &&& d.hangup_by == c.hangup_by && d.hangup_code == c.hangup_code
            } else {
                stands_still(c, d)
            }
        }),
{
    lemma_cseq_named(m);
}

/// The first 2xx response to the INVITE answers a call: it is active from then on,
/// and the times since the INVITE and since the ringing are those in whole
/// milliseconds. A second one changes nothing.
pub proof fn an_answer_makes_a_call_active(c: CallModel, m: MsgModel, code: u16)
    requires
        !m.is_request,
        m.status == Some(code),
        200 <= code < 300,
        m.cseq_method is None || m.cseq_method == Some("INVITE"@) || m.cseq_method == Some(
            "invite"@,
        ),
        0 <= m.ts_us <= u64::MAX,
    ensures
        ({
            let d = call_step(c, m);
            if c.answer_ts is Some {
                stands_still(c, d)
            } else {
                &&& d.state == CallState::Active
                &&& d.outcome == Outcome::Answered
                &&& d.answer_ts is Some && d.answer_ts->0 as int == m.ts_us
                &&& c.invite_ts is Some ==> d.setup_ms is Some
                &&& c.invite_ts is Some && 0 <= m.ts_us - c.invite_ts->0 < 1000 * 0x1_0000_0000
                    ==> d.setup_ms->0 * 1000 <= m.ts_us - c.invite_ts->0 < d.setup_ms->0 * 1000 + 1000
                &&& c.ringing_ts is Some ==> d.ring_ms is Some
                &&& c.ringing_ts is Some && 0 <= m.ts_us - c.ringing_ts->0 < 1000 * 0x1_0000_0000
                    ==> d.ring_ms->0 * 1000 <= m.ts_us - c.ringing_ts->0 < d.ring_ms->0 * 1000 + 1000
                &&& c.invite_ts is None ==> d.setup_ms == c.setup_ms
                &&& c.ringing_ts is None ==> d.ring_ms == c.ring_ms
                &&& d.pdd_ms == c.pdd_ms && d.hangup_by == c.hangup_by && d.end_ts == c.end_ts
                &&& d.invite_ts == c.invite_ts && d.ringing_ts == c.ringing_ts && d.bye_ts == c.bye_ts
            }
        }),
{
    lemma_cseq_named(m);
}

/// A 2xx response to a request that is neither the INVITE nor a BYE leaves a call
/// where it stands, and so does a 1xx response to such a request.
pub proof fn a_success_of_another_request_is_no_answer(c: CallModel, m: MsgModel, code: u16)
    requires
        !m.is_request,
        m.status == Some(code),
        code < 300,
        m.cseq_method is Some,
        m.cseq_method->0.len() != 6,
        m.cseq_method->0.len() != 3,
    ensures
        stands_still(c, call_step(c, m)),
{
    lemma_cseq_named(m);
}

/// The final response to a BYE ends a call: it is completed where it was answered,
/// and has failed where it was not. How it turned out does not change.
pub proof fn the_response_to_a_bye_ends_a_call(c: CallModel, m: MsgModel, code: u16)
    requires
        !m.is_request,
        m.status == Some(code),
        code >= 200,
        m.cseq_method == Some("BYE"@) || m.cseq_method == Some("bye"@),
        0 <= m.ts_us <= u64::MAX,
    ensures
        ({
            let d = call_step(c, m);
            &&& c.answer_ts is Some ==> d.state == CallState::Completed
            &&& c.answer_ts is None ==> d.state == CallState::Failed
            &&& c.end_ts is None ==> d.end_ts is Some && d.end_ts->0 as int == m.ts_us
            &&& c.end_ts is Some ==> d.end_ts == c.end_ts
            &&& code < 300 ==> d.hangup_code == c.hangup_code
            &&& code >= 300 ==> d.hangup_code == Some(code as u32)
            &&& d.outcome == c.outcome && d.hangup_by == c.hangup_by
            &&& d.answer_ts == c.answer_ts && d.setup_ms == c.setup_ms && d.bye_ts == c.bye_ts
        }),
{
    lemma_cseq_named(m);
}

/// What a final response other than a 2xx does to a call, by its class. A 487 means
/// that the call was given up, whatever it stood at. Otherwise a call that is being
/// set up has failed: it was rejected by a 4xx, and failed by any other response,
/// on the callee's side. A call that is no longer set up is over.
pub proof fn a_refusal_ends_a_call_by_its_class(c: CallModel, m: MsgModel, code: u16)
    requires
        !m.is_request,
        m.status == Some(code),
        code >= 300,
        m.cseq_method is None || m.cseq_method->0.len() != 3,
        0 <= m.ts_us <= u64::MAX,
    ensures
        ({
            let d = call_step(c, m);
            let begun = c.state == CallState::Dialing || c.state == CallState::Ringing;
            &&& d.hangup_code == Some(code as u32)
            &&& code == 487 ==> {
                &&& d.state == CallState::Canceled
                &&& d.outcome == Outcome::Canceled
                &&& c.hangup_by is None ==> d.hangup_by == Some(HangupBy::Caller)
                &&& d.end_ts == c.end_ts
            }
            &&& code != 487 && begun ==> {
                &&& d.state == CallState::Failed
                &&& 400 <= code < 500 ==> d.outcome == Outcome::Rejected
                &&& code < 400 || code >= 500 ==> d.outcome == Outcome::Failed
                &&& c.hangup_by is None ==> d.hangup_by == Some(HangupBy::Reject)
            }
            &&& code != 487 && !begun ==> {
                &&& c.answer_ts is Some ==> d.state == CallState::Completed
                &&& c.answer_ts is None ==> d.state == CallState::Failed
                &&& d.outcome == c.outcome
                &&& d.hangup_by == c.hangup_by
            }
            &&& c.hangup_by is Some ==> d.hangup_by == c.hangup_by
            &&& code != 487 && c.end_ts is None ==> d.end_ts is Some && d.end_ts->0 as int
                == m.ts_us
            &&& code != 487 && c.end_ts is Some ==> d.end_ts == c.end_ts
            &&& d.answer_ts == c.answer_ts && d.setup_ms == c.setup_ms && d.invite_ts == c.invite_ts
            &&& d.hangup_reason == c.hangup_reason
        }),
{
    lemma_cseq_named(m);
}

/// A call that a CANCEL gives up is still given up, by the same party, after the
/// 487 that follows.
pub proof fn a_canceled_call_stays_canceled(c: CallModel, cancel: MsgModel, done: MsgModel)
    requires
        cancel.is_request,
        cancel.method == Some(Method::Cancel),
        c.state != CallState::Completed,
        c.state != CallState::Failed,
        !done.is_request,
        done.status == Some(487u16),
        done.cseq_method is None || done.cseq_method->0.len() != 3,
    ensures
        ({
            let d = call_step(call_step(c, cancel), done);
            &&& d.state == CallState::Canceled
            &&& d.outcome == Outcome::Canceled
            &&& d.hangup_by == call_step(c, cancel).hangup_by
            &&& d.end_ts == call_step(c, cancel).end_ts
        }),
{
    lemma_cseq_named(done);
}

/// The first INVITE that says who calls whom names the parties of a call, each by
/// its own header. Nothing else names or renames them.
pub proof fn an_invite_names_the_parties(c: CallModel, m: MsgModel)
    ensures
        ({
            let d = call_step(c, m);
            let names = m.method == Some(Method::Invite);
            &&& names && c.from_uri is None ==> d.from_uri == m.from_uri
            &&& names && c.from_uri is None && m.from_uri is Some ==> d.from_user == user_in(
                m.from_uri->0,
            )
            &&& names && c.to_uri is None ==> d.to_uri == m.to_uri
            &&& names && c.to_uri is None && m.to_uri is Some ==> d.to_user == user_in(m.to_uri->0)
            &&& !names || c.from_uri is Some ==> d.from_uri == c.from_uri && d.from_user
                == c.from_user
            &&& !names || c.to_uri is Some ==> d.to_uri == c.to_uri && d.to_user == c.to_user
        }),
{
}

/// A message can be applied while its call can count it, unless it is a first
/// response to the INVITE that comes before the INVITE, or an answer that comes
/// before the ringing.
pub proof fn a_message_can_be_applied_in_its_order(c: CallModel, m: MsgModel)
    ensures
        c.pkts_sip >= u64::MAX || c.bytes + m.raw.len() > u64::MAX ==> !applicable(c, m),
        c.pkts_sip < u64::MAX && c.bytes + m.raw.len() <= u64::MAX ==> {
            let after = (c.invite_ts is Some ==> c.invite_ts->0 <= m.ts_us) && (c.ringing_ts is Some
                ==> c.ringing_ts->0 <= m.ts_us);
            let for_invite = m.cseq_method is None || m.cseq_method == Some("INVITE"@);
            let begun = c.state == CallState::Dialing || c.state == CallState::Ringing;
            &&& m.is_request || after ==> applicable(c, m)
            &&& m.status is None || m.status->0 < 100 || m.status->0 >= 300 ==> applicable(c, m)
            &&& !m.is_request && m.status is Some && 100 <= m.status->0 < 200 && for_invite && begun
                && c.trying_ts is None && c.ringing_ts is None && c.invite_ts is Some
                && c.invite_ts->0 > m.ts_us ==> !applicable(c, m)
            &&& !m.is_request && m.status is Some && 200 <= m.status->0 < 300 && for_invite
                && c.answer_ts is None && !after ==> !applicable(c, m)
        },
{
    lemma_cseq_named(m);
}

} // verus!
