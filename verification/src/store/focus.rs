//! Everything about the one call that is looked at.
use crate::addr::{IpAddr, SocketAddr};
use crate::analyze::media_stats::MediaStats;
use crate::analyze::mos::CodecParams;
use crate::correlate::stream::{snapshot_fits, summarizes, Quality};
use crate::double::Double;
use crate::lines::{header_of, sip_header};
use crate::model::diag::{DiagModel, Diagnostic};
use crate::model::media::{StreamSummary, SummaryModel};
use crate::model::sip::{text_of, B2buaInfo, Call, CallState, HangupBy, Method, SipMsg};
use crate::octets::{octet_slice, octets};
use crate::small::StreamId;
use crate::store::legs::{
    common_flow_ip, dialog_count, dialog_legs, interleaves, is_common_ip, leg_number, merge_leg_msgs,
    trim_msgs, MAX_SHOWN,
};
use crate::store::registry::{
    import_ids, list_at, FocusHint, HintModel, ImportId, RegModel, Registry, StreamKey,
};
use crate::store::ring::newest;
use crate::table::Key;
use crate::text::same_text;
use vstd::prelude::*;

verus! {

/// Everything about the call that is looked at.
pub struct Focus {
    /// The Call-ID.
    pub call_id: String,
    /// Where the call stands.
    pub state: Option<CallState>,
    /// The caller.
    pub from_user: Option<String>,
    /// The callee.
    pub to_user: Option<String>,
    /// The software of the caller: the User-Agent of the opening INVITE.
    pub caller_ua: Option<String>,
    /// The software of the callee: the Server, or else the User-Agent, of the
    /// first response.
    pub callee_ua: Option<String>,
    /// Who sent the opening INVITE.
    pub caller_addr: Option<SocketAddr>,
    /// The caller's address; known also where the INVITE is no longer shown.
    pub caller_ip: Option<IpAddr>,
    /// Who sent the first response.
    pub callee_addr: Option<SocketAddr>,
    /// The messages.
    pub messages: Vec<SipMsg>,
    /// The leg of each message.
    pub legs: Vec<u8>,
    /// Evidence of a back-to-back user agent.
    pub b2bua: Option<B2buaInfo>,
    /// The streams.
    pub streams: Vec<StreamSummary>,
    /// The findings.
    pub diagnostics: Vec<Diagnostic>,
    /// The media addresses that were negotiated.
    pub negotiated_endpoints: Vec<SocketAddr>,
    /// The post-dial delay in milliseconds.
    pub pdd_ms: Option<u32>,
    /// Milliseconds to the answer.
    pub setup_ms: Option<u32>,
    /// Milliseconds of ringing.
    pub ring_ms: Option<u32>,
    /// Whether there was early media.
    pub early_media: bool,
    /// When the first INVITE was seen.
    pub invite_ts: Option<u64>,
    /// When the first 1xx response that does not alert was seen.
    pub trying_ts: Option<u64>,
    /// When the first 18x response was seen.
    pub ringing_ts: Option<u64>,
    /// When the answer was seen.
    pub answer_ts: Option<u64>,
    /// When the first BYE was seen.
    pub bye_ts: Option<u64>,
    /// When the call ended.
    pub end_ts: Option<u64>,
    /// Who ended it.
    pub hangup_by: Option<HangupBy>,
    /// The final status code or cause.
    pub hangup_code: Option<u32>,
    /// The reason in words.
    pub hangup_reason: Option<String>,
}

/// A [`Focus`] in mathematical terms.
#[verifier::ext_equal]
pub ghost struct FocusModel {
    pub call_id: Seq<char>,
    pub state: Option<CallState>,
    pub from_user: Option<Seq<char>>,
    pub to_user: Option<Seq<char>>,
    pub caller_ua: Option<Seq<char>>,
    pub callee_ua: Option<Seq<char>>,
    pub caller_addr: Option<SocketAddr>,
    pub caller_ip: Option<IpAddr>,
    pub callee_addr: Option<SocketAddr>,
    pub messages: Seq<SipMsg>,
    pub legs: Seq<u8>,
    pub b2bua: Option<B2buaInfo>,
    pub streams: Seq<SummaryModel>,
    pub diagnostics: Seq<DiagModel>,
    pub negotiated_endpoints: Seq<SocketAddr>,
    pub pdd_ms: Option<u32>,
    pub setup_ms: Option<u32>,
    pub ring_ms: Option<u32>,
    pub early_media: bool,
    pub invite_ts: Option<u64>,
    pub trying_ts: Option<u64>,
    pub ringing_ts: Option<u64>,
    pub answer_ts: Option<u64>,
    pub bye_ts: Option<u64>,
    pub end_ts: Option<u64>,
    pub hangup_by: Option<HangupBy>,
    pub hangup_code: Option<u32>,
    pub hangup_reason: Option<Seq<char>>,
}

/// Stream summaries in mathematical terms.
pub open spec fn summaries(v: Seq<StreamSummary>) -> Seq<SummaryModel> {
    v.map_values(|s: StreamSummary| s@)
}

impl View for Focus {
    type V = FocusModel;

    open spec fn view(&self) -> FocusModel {
        FocusModel {
            call_id: self.call_id@,
            state: self.state,
            from_user: text_of(self.from_user),
            to_user: text_of(self.to_user),
            caller_ua: text_of(self.caller_ua),
            callee_ua: text_of(self.callee_ua),
            caller_addr: self.caller_addr,
            caller_ip: self.caller_ip,
            callee_addr: self.callee_addr,
            messages: self.messages@,
            legs: self.legs@,
            b2bua: self.b2bua,
            streams: summaries(self.streams@),
            diagnostics: self.diagnostics@.map_values(|d: Diagnostic| d@),
            negotiated_endpoints: self.negotiated_endpoints@,
            pdd_ms: self.pdd_ms,
            setup_ms: self.setup_ms,
            ring_ms: self.ring_ms,
            early_media: self.early_media,
            invite_ts: self.invite_ts,
            trying_ts: self.trying_ts,
            ringing_ts: self.ringing_ts,
            answer_ts: self.answer_ts,
            bye_ts: self.bye_ts,
            end_ts: self.end_ts,
            hangup_by: self.hangup_by,
            hangup_code: self.hangup_code,
            hangup_reason: text_of(self.hangup_reason),
        }
    }
}

/// Whether a message is an INVITE that opens a dialog.
pub open spec fn opens(m: SipMsg) -> bool {
    m.is_request && m.method == Some(Method::Invite) && m.to_tag is None
}

/// The first opening INVITE from position `i` on.
pub open spec fn opening(msgs: Seq<SipMsg>, i: int) -> Option<SipMsg>
    decreases msgs.len() - i,
{
    if i < 0 || i >= msgs.len() {
        None
    } else if opens(msgs[i]) {
        Some(msgs[i])
    } else {
        opening(msgs, i + 1)
    }
}

/// The first response from position `i` on.
pub open spec fn response(msgs: Seq<SipMsg>, i: int) -> Option<SipMsg>
    decreases msgs.len() - i,
{
    if i < 0 || i >= msgs.len() {
        None
    } else if !msgs[i].is_request {
        Some(msgs[i])
    } else {
        response(msgs, i + 1)
    }
}

/// The value of a header of an optional message.
pub open spec fn header_in(m: Option<SipMsg>, name: Seq<char>) -> Option<Seq<char>> {
    match m {
        Some(x) => header_of(octets(x.raw), name),
        None => None,
    }
}

/// The findings about a call.
pub open spec fn about(d: Seq<DiagModel>, id: Seq<char>) -> Seq<DiagModel> {
    d.filter(|x: DiagModel| x.call_id == id)
}

/// The messages of a call that are shown; none where there is no such call.
pub open spec fn shown(m: RegModel, id: Seq<char>) -> Seq<SipMsg> {
    if m.calls.contains_key(id) {
        newest(m.calls[id].messages, MAX_SHOWN as int)
    } else {
        Seq::empty()
    }
}

/// Whether `msgs` and `legs` are the messages of a look, with the leg of each:
/// those of the call by dialog, or those of two linked calls by time.
pub open spec fn is_flow(m: RegModel, h: HintModel, msgs: Seq<SipMsg>, legs: Seq<u8>) -> bool {
    match h.linked {
        Some(l) => interleaves(shown(m, h.primary), shown(m, l), msgs, legs),
        None => {
            &&& msgs == shown(m, h.primary)
            &&& legs == Seq::new(msgs.len(), |i: int| leg_number(msgs, i))
        },
    }
}

/// The number of legs of a look.
pub open spec fn leg_count(h: HintModel, msgs: Seq<SipMsg>) -> u8 {
    if h.linked is None {
        dialog_count(msgs)
    } else if msgs.len() == 0 {
        0
    } else {
        2
    }
}

/// Everything about a call, given its messages with their legs, the evidence
/// of a back-to-back user agent, and its streams.
pub open spec fn focus_of(
    m: RegModel,
    h: HintModel,
    msgs: Seq<SipMsg>,
    legs: Seq<u8>,
    b2bua: Option<B2buaInfo>,
    streams: Seq<SummaryModel>,
) -> FocusModel {
    let c = m.calls[h.primary];
    let invite = opening(msgs, 0);
    let answer = response(msgs, 0);
    FocusModel {
        call_id: h.primary,
        state: Some(c.state),
        from_user: c.from_user,
        to_user: c.to_user,
        caller_ua: header_in(invite, "User-Agent"@),
        callee_ua: match header_in(answer, "Server"@) {
            Some(s) => Some(s),
            None => header_in(answer, "User-Agent"@),
        },
        caller_addr: match invite {
            Some(i) => Some(i.flow.src),
            None => None,
        },
        caller_ip: match invite {
            Some(i) => Some(i.flow.src.ip),
            None => c.invite_key,
        },
        callee_addr: match answer {
            Some(a) => Some(a.flow.src),
            None => None,
        },
        messages: msgs,
        legs,
        b2bua,
        streams,
        diagnostics: about(m.diagnostics, h.primary),
        negotiated_endpoints: c.endpoints,
        pdd_ms: c.pdd_ms,
        setup_ms: c.setup_ms,
        ring_ms: c.ring_ms,
        early_media: c.early_media,
        invite_ts: c.invite_ts,
        trying_ts: c.trying_ts,
        ringing_ts: c.ringing_ts,
        answer_ts: c.answer_ts,
        bye_ts: c.bye_ts,
        end_ts: c.end_ts,
        hangup_by: c.hangup_by,
        hangup_code: c.hangup_code,
        hangup_reason: c.hangup_reason,
    }
}

/// Whether `b` is the evidence of a back-to-back user agent in a look: there
/// are two legs or more.
pub open spec fn is_evidence(
    h: HintModel,
    msgs: Seq<SipMsg>,
    legs: Seq<u8>,
    b: Option<B2buaInfo>,
) -> bool {
    match b {
        Some(x) => {
            &&& leg_count(h, msgs) >= 2
            &&& x.legs == leg_count(h, msgs)
            &&& is_common_ip(msgs, legs, x.addr)
        },
        None => leg_count(h, msgs) < 2,
    }
}

/// Whether a stream is known.
pub open spec fn known(m: RegModel) -> spec_fn(StreamKey) -> bool {
    |k: StreamKey| m.streams.contains_key(k.spec_id())
}

/// Whether an imported stream is known.
pub open spec fn imported(m: RegModel) -> spec_fn(ImportId) -> bool {
    |k: ImportId| m.imported_streams.contains_key(k)
}

/// The imported streams of a call.
pub open spec fn imported_of(m: RegModel, id: Seq<char>) -> Seq<SummaryModel> {
    list_at(m.imported_by_call, id).filter(imported(m)).map_values(
        |k: ImportId| m.imported_streams[k],
    )
}

/// Whether `live` are summaries of streams, in order, with qualities that
/// `gauge` works out for them.
pub open spec fn all_summarized<
    G: Fn(MediaStats, CodecParams, &Vec<Double>, &Vec<Double>) -> Quality,
>(r: Registry, keys: Seq<StreamKey>, gauge: &G, live: Seq<SummaryModel>) -> bool {
    &&& live.len() == keys.len()
    &&& forall|i: int|
        0 <= i < keys.len() ==> summarizes(r.streams@[keys[i].spec_id()], gauge, #[trigger] live[i])
}

/// Whether the streams of one call can be summarized.
pub open spec fn call_countable(m: RegModel, id: Seq<char>) -> bool {
    forall|k: StreamKey| #[trigger]
        list_at(m.stream_index, id).contains(k) && m.streams.contains_key(k.spec_id())
            ==> snapshot_fits(m.streams[k.spec_id()].acc)
}

/// Whether every stream can be summarized.
pub open spec fn all_countable(m: RegModel) -> bool {
    forall|id: StreamId| #[trigger]
        m.streams.contains_key(id) ==> snapshot_fits(m.streams[id].acc)
}

fn find_opening(msgs: &Vec<SipMsg>) -> (r: Option<&SipMsg>)
    ensures
        match r {
            Some(m) => opening(msgs@, 0) == Some(*m),
            None => opening(msgs@, 0) is None,
        },
{
    let mut i: usize = 0;
    while i < msgs.len()
        invariant
            i <= msgs@.len(),
            opening(msgs@, 0) == opening(msgs@, i as int),
        decreases msgs@.len() - i,
    {
        let m = &msgs[i];
        if m.is_request && m.method == Some(Method::Invite) && m.to_tag.is_none() {
            return Some(m);
        }
        i += 1;
    }
    None
}

fn find_response(msgs: &Vec<SipMsg>) -> (r: Option<&SipMsg>)
    ensures
        match r {
            Some(m) => response(msgs@, 0) == Some(*m),
            None => response(msgs@, 0) is None,
        },
{
    let mut i: usize = 0;
    while i < msgs.len()
        invariant
            i <= msgs@.len(),
            response(msgs@, 0) == response(msgs@, i as int),
        decreases msgs@.len() - i,
    {
        if !msgs[i].is_request {
            return Some(&msgs[i]);
        }
        i += 1;
    }
    None
}

fn header_text(m: Option<&SipMsg>, name: &str) -> (r: Option<String>)
    ensures
        text_of(r) == header_in(
            match m {
                Some(x) => Some(*x),
                None => None,
            },
            name@,
        ),
{
    match m {
        Some(x) => sip_header(octet_slice(&x.raw), name),
        None => None,
    }
}

fn copy_addrs(v: &Vec<SocketAddr>) -> (r: Vec<SocketAddr>)
    ensures
        r@ == v@,
{
    let mut r: Vec<SocketAddr> = Vec::new();
    let mut i: usize = 0;
    while i < v.len()
        invariant
            i <= v@.len(),
            r@ == v@.take(i as int),
        decreases v@.len() - i,
    {
        r.push(v[i]);
        i += 1;
    }
    r
}

impl Registry {
    fn findings_about(&self, id: &str) -> (r: Vec<Diagnostic>)
        ensures
            r@.map_values(|d: Diagnostic| d@) == about(self@.diagnostics, id@),
    {
        let ghost all = self@.diagnostics;
        let ghost view = |d: Diagnostic| d@;
        let ghost keep = |x: DiagModel| x.call_id == id@;
        let mut r: Vec<Diagnostic> = Vec::new();
        let mut i: usize = 0;
        proof {
            reveal(Seq::filter);
            assert(r@.map_values(view) =~= all.take(0).filter(keep));
        }
        while i < self.diagnostics.len()
            invariant
                i <= self.diagnostics@.len(),
                all == self@.diagnostics,
                view == (|d: Diagnostic| d@),
                keep == (|x: DiagModel| x.call_id == id@),
                r@.map_values(view) == all.take(i as int).filter(keep),
            decreases self.diagnostics@.len() - i,
        {
            let d = &self.diagnostics[i];
            let ghost was = r@;
            proof {
                reveal(Seq::filter);
                assert(all.take(i + 1).drop_last() =~= all.take(i as int));
                assert(all[i as int] == d@);
            }
            if same_text(d.call_id.as_str(), id) {
                r.push(d.clone());
                assert(r@.map_values(view) =~= was.map_values(view).push(d@));
            }
            i += 1;
        }
        assert(all.take(all.len() as int) =~= all);
        r
    }

    /// Summarizes the streams of a call that are known.
    fn live_of<G: Fn(MediaStats, CodecParams, &Vec<Double>, &Vec<Double>) -> Quality>(
        &self,
        id: &str,
        gauge: &G,
    ) -> (r: Vec<StreamSummary>)
        requires
            call_countable(self@, id@),
            forall|m: MediaStats, c: CodecParams, r: &Vec<Double>, o: &Vec<Double>|
                call_requires(gauge, (m, c, r, o)),
        ensures
            all_summarized(
                *self,
                list_at(self@.stream_index, id@).filter(known(self@)),
                gauge,
                summaries(r@),
            ),
    {
        let keys = self.call_stream_keys(id);
        let ghost keep = known(self@);
        let mut r: Vec<StreamSummary> = Vec::new();
        let mut i: usize = 0;
        proof {
            reveal(Seq::filter);
            assert(keys@.take(0).filter(keep) =~= Seq::empty());
        }
        while i < keys.len()
            invariant
                i <= keys@.len(),
                keep == known(self@),
                keys@ == list_at(self@.stream_index, id@),
                call_countable(self@, id@),
                forall|m: MediaStats, c: CodecParams, r: &Vec<Double>, o: &Vec<Double>|
                    call_requires(gauge, (m, c, r, o)),
                all_summarized(*self, keys@.take(i as int).filter(keep), gauge, summaries(r@)),
            decreases keys@.len() - i,
        {
            let k: StreamKey = keys[i];
            let ghost was = r@;
            let ghost before = keys@.take(i as int).filter(keep);
            proof {
                reveal(Seq::filter);
                assert(keys@.take(i + 1).drop_last() =~= keys@.take(i as int));
            }
            if let Some(s) = self.streams.get(&k.id()) {
                assert(self@.streams.contains_key(k.spec_id()));
                assert(keys@.contains(k));
                r.push(s.summary(gauge));
                proof {
                    let after = keys@.take(i + 1).filter(keep);
                    assert(after == before.push(k));
                    assert forall|j: int| 0 <= j < after.len() implies summarizes(
                        self.streams@[after[j].spec_id()],
                        gauge,
                        #[trigger] summaries(r@)[j],
                    ) by {
                        if j < before.len() {
                            assert(summaries(was)[j] == summaries(r@)[j]);
                        }
                    }
                }
            }
            i += 1;
        }
        assert(keys@.take(keys@.len() as int) =~= keys@);
        r
    }

    /// Copies the imported streams of a call.
    fn imported_for_call(&self, id: &str) -> (r: Vec<StreamSummary>)
        ensures
            summaries(r@) == imported_of(self@, id@),
    {
        let ghost m = self@;
        let ghost keep = imported(m);
        let ghost at = |k: ImportId| m.imported_streams[k];
        let mut r: Vec<StreamSummary> = Vec::new();
        let key: String = id.to_owned();
        let keys = match self.imported_by_call.get(&key) {
            Some(v) => v,
            None => {
                proof {
                    reveal(Seq::filter);
                    assert(summaries(r@) =~= imported_of(m, id@));
                }
                return r;
            },
        };
        let ghost all = import_ids(keys@);
        assert(all == list_at(m.imported_by_call, id@));
        let mut i: usize = 0;
        proof {
            reveal(Seq::filter);
            assert(summaries(r@) =~= all.take(0).filter(keep).map_values(at));
        }
        while i < keys.len()
            invariant
                i <= keys@.len(),
                m == self@,
                all == import_ids(keys@),
                keep == imported(m),
                at == (|k: ImportId| m.imported_streams[k]),
                summaries(r@) == all.take(i as int).filter(keep).map_values(at),
            decreases keys@.len() - i,
        {
            let k = &keys[i];
            let ghost was = r@;
            proof {
                reveal(Seq::filter);
                assert(all.take(i + 1).drop_last() =~= all.take(i as int));
                assert(all[i as int] == k.id());
            }
            if let Some(s) = self.imported_streams.get(k) {
                assert(m.imported_streams.contains_key(k.id()));
                r.push(s.clone());
                proof {
                    assert(summaries(r@) =~= summaries(was).push(at(k.id())));
                    assert(all.take(i + 1).filter(keep).map_values(at) =~= all.take(
                        i as int,
                    ).filter(keep).map_values(at).push(at(k.id())));
                }
            }
            i += 1;
        }
        assert(all.take(all.len() as int) =~= all);
        r
    }

    /// The messages of a look with the leg of each, and the number of legs.
    fn flow_of(&self, hint: &FocusHint, call: &Call) -> (r: (Vec<SipMsg>, Vec<u8>, u8))
        requires
            self@.calls.contains_key(hint.primary@),
            self@.calls[hint.primary@] == call@,
        ensures
            is_flow(self@, hint@, r.0@, r.1@),
            r.2 == leg_count(hint@, r.0@),
    {
        let own = trim_msgs(&call.messages);
        match &hint.linked {
            Some(l) => {
                let other = match self.calls.get(l) {
                    Some(c) => {
                        assert(self@.calls[l@] == c@);
                        trim_msgs(&c.messages)
                    },
                    None => Vec::new(),
                };
                assert(other@ =~= shown(self@, l@));
                merge_leg_msgs(own, other)
            },
            None => {
                let (legs, n) = dialog_legs(&own);
                (own, legs, n)
            },
        }
    }

    /// Everything about the call of a look, where there is such a call.
    /// `gauge` works out the quality of a stream.
    pub fn focus_detail<G: Fn(MediaStats, CodecParams, &Vec<Double>, &Vec<Double>) -> Quality>(
        &self,
        hint: &FocusHint,
        gauge: &G,
    ) -> (r: Option<Focus>)
        requires
            call_countable(self@, hint.primary@),
            forall|m: MediaStats, c: CodecParams, r: &Vec<Double>, o: &Vec<Double>|
                call_requires(gauge, (m, c, r, o)),
        ensures
            match r {
                Some(f) => details(*self, hint@, gauge, f@),
                None => !self@.calls.contains_key(hint.primary@),
            },
    {
        let call = match self.calls.get(&hint.primary) {
            Some(c) => c,
            None => {
                return None;
            },
        };
        assert(self@.calls[hint.primary@] == call@);
        let (msgs, legs, n) = self.flow_of(hint, call);
        let invite = find_opening(&msgs);
        let answer = find_response(&msgs);
        let caller_ua = header_text(invite, "User-Agent");
        let callee_ua = match header_text(answer, "Server") {
            Some(s) => Some(s),
            None => header_text(answer, "User-Agent"),
        };
        let (caller_addr, caller_ip) = match invite {
            Some(i) => (Some(i.flow.src), Some(i.flow.src.ip)),
            None => (None, call.invite_key),
        };
        let callee_addr = match answer {
            Some(a) => Some(a.flow.src),
            None => None,
        };
        let mut streams = self.live_of(hint.primary.as_str(), gauge);
        let ghost live = summaries(streams@);
        let mut more = self.imported_for_call(hint.primary.as_str());
        let ghost imp = summaries(more@);
        streams.append(&mut more);
        assert(summaries(streams@) =~= live + imp);
        let b2bua = if n >= 2 {
            Some(B2buaInfo { addr: common_flow_ip(&msgs, &legs), legs: n })
        } else {
            None
        };
        let f = Focus {
            call_id: hint.primary.clone(),
            state: Some(call.state),
            from_user: call.from_user.clone(),
            to_user: call.to_user.clone(),
            caller_ua,
            callee_ua,
            caller_addr,
            caller_ip,
            callee_addr,
            messages: msgs,
            legs,
            b2bua,
            streams,
            diagnostics: self.findings_about(hint.primary.as_str()),
            negotiated_endpoints: copy_addrs(&call.negotiated.endpoints),
            pdd_ms: call.pdd_ms,
            setup_ms: call.setup_ms,
            ring_ms: call.ring_ms,
            early_media: call.early_media,
            invite_ts: call.invite_ts,
            trying_ts: call.trying_ts,
            ringing_ts: call.ringing_ts,
            answer_ts: call.answer_ts,
            bye_ts: call.bye_ts,
            end_ts: call.end_ts,
            hangup_by: call.hangup_by,
            hangup_code: call.hangup.code,
            hangup_reason: call.hangup.reason.clone(),
        };
        assert(f@ =~= focus_of(self@, hint@, f@.messages, f@.legs, f@.b2bua, live + imp));
        Some(f)
    }
}

/// Whether `f` is everything about the call of a look.
pub open spec fn details<G: Fn(MediaStats, CodecParams, &Vec<Double>, &Vec<Double>) -> Quality>(
    r: Registry,
    h: HintModel,
    gauge: &G,
    f: FocusModel,
) -> bool {
    &&& r@.calls.contains_key(h.primary)
    &&& is_flow(r@, h, f.messages, f.legs)
    &&& is_evidence(h, f.messages, f.legs, f.b2bua)
    &&& exists|live: Seq<SummaryModel>| #[trigger]
        all_summarized(r, list_at(r@.stream_index, h.primary).filter(known(r@)), gauge, live) && f
            == focus_of(
            r@,
            h,
            f.messages,
            f.legs,
            f.b2bua,
            live + imported_of(r@, h.primary),
        )
}

/// A look shows the call it is at, each message with its leg, and exactly the
/// findings about that call, in order. Where no other call is linked, it shows the
/// newest messages of the call, in order, and it tells of a back-to-back user agent
/// exactly where there are two dialogs or more.
pub proof fn a_look_shows_its_call<
    G: Fn(MediaStats, CodecParams, &Vec<Double>, &Vec<Double>) -> Quality,
>(r: Registry, h: HintModel, gauge: &G, f: FocusModel)
    requires
        details(r, h, gauge, f),
    ensures
        r@.calls.contains_key(h.primary),
        f.call_id == h.primary,
        f.legs.len() == f.messages.len(),
        f.diagnostics == about(r@.diagnostics, h.primary),
        h.linked is None ==> {
            &&& f.messages == newest(r@.calls[h.primary].messages, MAX_SHOWN as int)
            &&& f.b2bua is Some <==> dialog_count(f.messages) >= 2
        },
{
}

/// Whether a message is the first that opens a call.
pub open spec fn first_invite(msgs: Seq<SipMsg>, i: int) -> bool {
    &&& 0 <= i < msgs.len()
    &&& msgs[i].is_request && msgs[i].method == Some(Method::Invite) && msgs[i].to_tag is None
    &&& forall|j: int|
        0 <= j < i ==> !((#[trigger] msgs[j]).is_request && msgs[j].method == Some(Method::Invite)
            && msgs[j].to_tag is None)
}

/// Whether a message is the first response.
pub open spec fn first_response(msgs: Seq<SipMsg>, i: int) -> bool {
    0 <= i < msgs.len() && !msgs[i].is_request && forall|j: int|
        0 <= j < i ==> (#[trigger] msgs[j]).is_request
}

proof fn lemma_opening(msgs: Seq<SipMsg>, from: int)
    requires
        0 <= from <= msgs.len(),
    ensures
        forall|i: int| from <= i && #[trigger] first_invite(msgs, i) ==> opening(msgs, from) == Some(msgs[i]),
        (forall|j: int| from <= j < msgs.len() ==> !opens(#[trigger] msgs[j])) ==> opening(msgs, from) is None,
    decreases msgs.len() - from,
{
    if from < msgs.len() && !opens(msgs[from]) {
        lemma_opening(msgs, from + 1);
    }
}

proof fn lemma_response(msgs: Seq<SipMsg>, from: int)
    requires
        0 <= from <= msgs.len(),
    ensures
        forall|i: int|
            from <= i && #[trigger] first_response(msgs, i) ==> response(msgs, from) == Some(msgs[i]),
        (forall|j: int| from <= j < msgs.len() ==> (#[trigger] msgs[j]).is_request) ==> response(
            msgs,
            from,
        ) is None,
    decreases msgs.len() - from,
{
    if from < msgs.len() && msgs[from].is_request {
        lemma_response(msgs, from + 1);
    }
}

/// A look tells of its call what the registry holds: the parties, the state, every
/// time and every delay, how it ended and what was negotiated. The caller is where
/// the first opening INVITE comes from, and the callee where the first response does;
/// each is named by a header of that message.
pub proof fn a_look_tells_of_its_call<
    G: Fn(MediaStats, CodecParams, &Vec<Double>, &Vec<Double>) -> Quality,
>(r: Registry, h: HintModel, gauge: &G, f: FocusModel)
    requires
        details(r, h, gauge, f),
    ensures
        r.calls@.contains_key(h.primary),
        ({
            let c = r.calls@[h.primary];
            &&& f.call_id == h.primary
            &&& f.state == Some(c.state)
            &&& f.from_user == text_of(c.from_user)
            &&& f.to_user == text_of(c.to_user)
            &&& f.pdd_ms == c.pdd_ms && f.setup_ms == c.setup_ms && f.ring_ms == c.ring_ms
            &&& f.early_media == c.early_media
            &&& f.invite_ts == c.invite_ts && f.trying_ts == c.trying_ts
            &&& f.ringing_ts == c.ringing_ts && f.answer_ts == c.answer_ts
            &&& f.bye_ts == c.bye_ts && f.end_ts == c.end_ts
            &&& f.hangup_by == c.hangup_by && f.hangup_code == c.hangup.code
            &&& f.hangup_reason == text_of(c.hangup.reason)
            &&& f.negotiated_endpoints == c.negotiated.endpoints@
            &&& f.diagnostics == r.diagnostics@.map_values(|d: Diagnostic| d@).filter(
                |d: DiagModel| d.call_id == h.primary,
            )
            &&& forall|i: int| #[trigger]
                first_invite(f.messages, i) ==> {
                    let m = f.messages[i];
                    &&& f.caller_addr == Some(m.flow.src) && f.caller_ip == Some(m.flow.src.ip)
                    &&& f.caller_ua == header_of(octets(m.raw), "User-Agent"@)
                }
            &&& (forall|j: int| 0 <= j < f.messages.len() ==> !first_invite(f.messages, j) && !opens(
                #[trigger] f.messages[j],
            )) ==> f.caller_addr is None && f.caller_ip == c.invite_key && f.caller_ua is None
            &&& forall|i: int| #[trigger]
                first_response(f.messages, i) ==> {
                    let m = f.messages[i];
                    &&& f.callee_addr == Some(m.flow.src)
                    &&& header_of(octets(m.raw), "Server"@) is Some ==> f.callee_ua == header_of(
                        octets(m.raw),
                        "Server"@,
                    )
                    &&& header_of(octets(m.raw), "Server"@) is None ==> f.callee_ua == header_of(
                        octets(m.raw),
                        "User-Agent"@,
                    )
                }
            &&& (forall|j: int| 0 <= j < f.messages.len() ==> (#[trigger] f.messages[j]).is_request)
                ==> f.callee_addr is None && f.callee_ua is None
        }),
{
    lemma_opening(f.messages, 0);
    lemma_response(f.messages, 0);
    assert(r@.calls.contains_key(h.primary));
    assert(r@.calls[h.primary] == r.calls@[h.primary]@);
}

/// The messages of a look are the newest thousand of the call. Where another call is
/// linked, those of both are shown as one flow; it tells of two legs then.
pub proof fn a_look_shows_the_newest_messages<
    G: Fn(MediaStats, CodecParams, &Vec<Double>, &Vec<Double>) -> Quality,
>(r: Registry, h: HintModel, gauge: &G, f: FocusModel)
    requires
        details(r, h, gauge, f),
    ensures
        h.linked is None ==> {
            let all = r.calls@[h.primary].messages@;
            &&& all.len() <= 1000 ==> f.messages == all
            &&& all.len() > 1000 ==> f.messages == all.skip(all.len() - 1000)
            &&& forall|i: int| 0 <= i < f.legs.len() ==> #[trigger] f.legs[i] == leg_number(f.messages, i)
            &&& f.b2bua matches Some(b) ==> b.legs == dialog_count(f.messages) && b.legs >= 2
        },
        h.linked matches Some(l) ==> r.calls@.contains_key(l) ==> {
            let a = r.calls@[h.primary].messages@;
            let b = r.calls@[l].messages@;
            &&& a.len() <= 1000 && b.len() <= 1000 ==> interleaves(a, b, f.messages, f.legs)
            &&& f.messages.len() > 0 ==> f.b2bua is Some && f.b2bua->0.legs == 2
            &&& f.messages.len() == 0 ==> f.b2bua is None
        },
        f.b2bua matches Some(b) ==> is_common_ip(f.messages, f.legs, b.addr),
{
    assert(r@.calls[h.primary] == r.calls@[h.primary]@);
    let all = r.calls@[h.primary].messages@;
    assert(all.skip(0) =~= all);
    if let Some(l) = h.linked {
        if r.calls@.contains_key(l) {
            assert(r@.calls.contains_key(l));
            assert(r@.calls[l] == r.calls@[l]@);
            let b = r.calls@[l].messages@;
            assert(b.skip(0) =~= b);
        }
    }
}

/// The streams of a look are those of its call: first a summary of each live one that
/// the index names, in its order, then the imported ones in theirs.
pub proof fn a_look_shows_the_streams_of_its_call<
    G: Fn(MediaStats, CodecParams, &Vec<Double>, &Vec<Double>) -> Quality,
>(r: Registry, h: HintModel, gauge: &G, f: FocusModel)
    requires
        details(r, h, gauge, f),
    ensures
        ({
            let keys = list_at(r@.stream_index, h.primary).filter(
                |k: StreamKey| r.streams@.contains_key(k.spec_id()),
            );
            let ids = list_at(r@.imported_by_call, h.primary).filter(
                |k: ImportId| r.imported_streams@.contains_key(k),
            );
            let n = keys.len() as int;
            &&& f.streams.len() == n + ids.len()
            &&& forall|i: int|
                0 <= i < n ==> summarizes(
                    r.streams@[keys[i].spec_id()],
                    gauge,
                    #[trigger] f.streams[i],
                )
            &&& forall|i: int|
                n <= i < f.streams.len() ==> #[trigger] f.streams[i] == r.imported_streams@[ids[i - n]]@
        }),
{
    let p = |k: StreamKey| r.streams@.contains_key(k.spec_id());
    let q = |k: ImportId| r.imported_streams@.contains_key(k);
    assert(known(r@) =~= p);
    assert(imported(r@) =~= q);
    let keys = list_at(r@.stream_index, h.primary).filter(p);
    let ids = list_at(r@.imported_by_call, h.primary).filter(q);
    let live = choose|live: Seq<SummaryModel>| #[trigger]
        all_summarized(r, list_at(r@.stream_index, h.primary).filter(known(r@)), gauge, live) && f
            == focus_of(
            r@,
            h,
            f.messages,
            f.legs,
            f.b2bua,
            live + imported_of(r@, h.primary),
        );
    let n = keys.len() as int;
    let more = imported_of(r@, h.primary);
    assert(more.len() == ids.len());
    assert forall|i: int| 0 <= i < n implies summarizes(
        r.streams@[keys[i].spec_id()],
        gauge,
        #[trigger] f.streams[i],
    ) by {
        assert(f.streams[i] == live[i]);
    }
    assert forall|i: int| n <= i < f.streams.len() implies #[trigger] f.streams[i]
        == r.imported_streams@[ids[i - n]]@ by {
        let k = ids[i - n];
        assert(f.streams[i] == more[i - n]);
        list_at(r@.imported_by_call, h.primary).lemma_filter_contains_rev(q, k);
        assert(q(k));
    }
}

} // verus!
