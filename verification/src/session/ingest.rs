//! SIP messages sorted into calls.
use crate::correlate::call::{applicable, apply_sip, call_step, can_apply};
use crate::model::sip::{fresh_call, Call, CallModel, SipMsg};
use crate::store::index::{a_call_keeps_agreement, agrees, lemma_same_parts};
use crate::store::registry::{rate_due, touched, with_call, RegModel, Registry};
use vstd::prelude::*;

verus! {

/// The call of a Call-ID; a new one where there is none.
pub open spec fn call_at(m: RegModel, id: Seq<char>) -> CallModel {
    if m.calls.contains_key(id) {
        m.calls[id]
    } else {
        fresh_call(id)
    }
}

/// A call with a message applied and kept.
pub open spec fn call_with(c: CallModel, msg: SipMsg) -> CallModel {
    let d = call_step(c, msg@);
    CallModel { messages: d.messages.push(msg), ..d }
}

/// What a message does to a registry: its time is noted, it is counted, and
/// it is applied to its call and kept there.
pub open spec fn with_message(m: RegModel, msg: SipMsg) -> RegModel {
    let id = msg.call_id@;
    with_call(
        RegModel { pkts_total: (m.pkts_total + 1) as u64, ..touched(m, msg.ts_us) },
        id,
        call_with(call_at(m, id), msg),
    )
}

/// Whether a registry can take a message in.
pub open spec fn message_fits(m: RegModel, msg: SipMsg) -> bool {
    &&& rate_due(m, msg.ts_us) || m.pkts_last_window < u64::MAX
    &&& m.pkts_total < u64::MAX
    &&& applicable(call_at(m, msg.call_id@), msg@)
}

/// Takes a message in, and says whether it could be.
pub fn ingest_sip(reg: &mut Registry, msg: SipMsg) -> (r: bool)
    requires
        old(reg).wf(),
    ensures
        r == message_fits(old(reg)@, msg),
        final(reg)@ == if r {
            with_message(old(reg)@, msg)
        } else {
            old(reg)@
        },
        final(reg).wf(),
{
    let ghost m = reg@;
    let due = match reg.window_start_us {
        Some(w) => msg.ts_us.saturating_sub(w) >= 1_000_000,
        None => false,
    };
    if (!due && reg.pkts_last_window == u64::MAX) || reg.pkts_total == u64::MAX {
        return false;
    }
    let fits = match reg.calls.get(&msg.call_id) {
        Some(c) => can_apply(c, &msg),
        None => can_apply(&Call::new(msg.call_id.clone()), &msg),
    };
    if !fits {
        return false;
    }
    reg.touch_time(msg.ts_us);
    reg.pkts_total += 1;
    let call = reg.get_or_create_call(msg.call_id.as_str());
    apply_sip(call, &msg);
    let ghost kept = call.messages@;
    call.messages.push(msg);
    proof {
        let d = call_step(call_at(m, msg.call_id@), msg@);
        assert(kept == d.messages);
    }
    true
}

/// Messages of different calls do not get in each other's way: in either
/// order they leave the same calls.
pub proof fn calls_do_not_interfere(m: RegModel, a: SipMsg, b: SipMsg)
    requires
        a.call_id@ != b.call_id@,
    ensures
        with_message(with_message(m, a), b).calls == with_message(with_message(m, b), a).calls,
{
    assert(with_message(with_message(m, a), b).calls =~= with_message(
        with_message(m, b),
        a,
    ).calls);
}

/// Every message is kept with its call, and leaves the others as they are.
pub proof fn a_message_reaches_its_call_alone(m: RegModel, msg: SipMsg, id: Seq<char>)
    requires
        m.calls.contains_key(id),
    ensures
        with_message(m, msg).calls[id] == if id == msg.call_id@ {
            call_with(m.calls[id], msg)
        } else {
            m.calls[id]
        },
        with_message(m, msg).calls[msg.call_id@].messages.last() == msg,
{
}

/// A message keeps a registry in agreement.
pub proof fn a_message_keeps_agreement(m: RegModel, msg: SipMsg)
    requires
        agrees(m),
    ensures
        agrees(with_message(m, msg)),
{
    let n = RegModel { pkts_total: (m.pkts_total + 1) as u64, ..touched(m, msg.ts_us) };
    lemma_same_parts(m, n);
    a_call_keeps_agreement(n, msg.call_id@, call_with(call_at(m, msg.call_id@), msg));
}

/// A message is counted, moves the clock, and goes into the call of its Call-ID,
/// which is made where there is none: the call takes the step that the message asks
/// for and keeps it as its last. Other calls stay as they are.
pub proof fn a_message_goes_into_its_call(m: RegModel, msg: SipMsg, other: Seq<char>)
    requires
        m.pkts_total < u64::MAX,
    ensures
        ({
            let n = with_message(m, msg);
            let id = msg.call_id@;
            let was = if m.calls.contains_key(id) {
                m.calls[id]
            } else {
                fresh_call(id)
            };
            let step = call_step(was, msg@);
            let is = n.calls[id];
            &&& n.pkts_total == m.pkts_total + 1
            &&& n.last_us == Some(msg.ts_us)
            &&& n.calls.contains_key(id)
            &&& is.messages.len() > 0 && is.messages.last() == msg && is.messages.drop_last()
                == step.messages
            &&& is.call_id == step.call_id && is.state == step.state && is.outcome == step.outcome
            &&& is.from_user == step.from_user && is.to_user == step.to_user
            &&& is.invite_ts == step.invite_ts && is.answer_ts == step.answer_ts
            &&& is.end_ts == step.end_ts && is.bye_ts == step.bye_ts && is.pdd_ms == step.pdd_ms
            &&& is.setup_ms == step.setup_ms && is.hangup_by == step.hangup_by
            &&& is.hangup_code == step.hangup_code && is.pkts_sip == step.pkts_sip
            &&& other != id ==> (n.calls.contains_key(other) <==> m.calls.contains_key(other))
            &&& other != id && m.calls.contains_key(other) ==> n.calls[other] == m.calls[other]
            &&& !m.calls.contains_key(id) ==> n.order.last() == id && n.order.drop_last() == m.order
            &&& m.calls.contains_key(id) ==> n.order == m.order
            &&& n.streams == m.streams && n.imported_streams == m.imported_streams
        }),
{
    let n = with_message(m, msg);
    let id = msg.call_id@;
    assert(n.calls[id].messages.drop_last() =~= call_step(call_at(m, id), msg@).messages);
    if !m.calls.contains_key(id) {
        assert(n.order.drop_last() =~= m.order);
    }
}

/// A message fits while the packets can be counted and its call can take it.
pub proof fn a_message_fits_while_it_can_be_counted(m: RegModel, msg: SipMsg)
    ensures
        message_fits(m, msg) <==> {
            &&& m.pkts_total < u64::MAX
            &&& m.pkts_last_window < u64::MAX || (m.window_start_us is Some && msg.ts_us
                >= m.window_start_us->0 + 1_000_000)
            &&& applicable(
                if m.calls.contains_key(msg.call_id@) {
                    m.calls[msg.call_id@]
                } else {
                    fresh_call(msg.call_id@)
                },
                msg@,
            )
        },
{
}

} // verus!
