//! The state of the monitor at one moment, for display and export.
use crate::addr::{IpAddr, SocketAddr};
use crate::analyze::media_stats::MediaStats;
use crate::analyze::mos::CodecParams;
use crate::correlate::stream::{summarizes, Quality};
use crate::double::{least, Double};
use crate::model::diag::Diagnostic;
use crate::model::media::{StreamSummary, SummaryModel};
use crate::model::ratio::Ratio;
use crate::model::sip::{text_of, Call, CallModel, CallState, HangupBy, Outcome};
use crate::model::stats::{MetricSet, Sum};
use crate::order::{comes_first, lemma_order_covers, listed, sorts, stable_order, Rank};
use crate::small::StreamId;
use crate::store::evict::invited_at;
use crate::store::focus::{all_countable, details, summaries, Focus};
use crate::store::heatmap::lists_cells;
use crate::store::index::{lemma_pushed, order_agrees};
use crate::store::ipstats::{lists_by_ip, IpStats};
use crate::store::registry::{import_id, texts, ImportId, RegModel, Registry, SEARCH_PIN_MAX};
use crate::store::ring::newest;
use crate::table::{lemma_listed_len, lists, Key, Table};
use vstd::prelude::*;

verus! {

/// One call in a list.
pub struct CallSummary {
    /// The Call-ID.
    pub call_id: String,
    /// The caller.
    pub from_user: Option<String>,
    /// The callee.
    pub to_user: Option<String>,
    /// The address that sent the INVITE.
    pub caller_ip: Option<IpAddr>,
    /// The address and port that sent the INVITE.
    pub caller_src: Option<SocketAddr>,
    /// Where the call stands.
    pub state: CallState,
    /// How it turned out.
    pub outcome: Outcome,
    /// When the INVITE was seen.
    pub invite_ts: Option<u64>,
    /// Milliseconds from the answer to the end.
    pub duration_ms: Option<u64>,
    /// The post-dial delay in milliseconds.
    pub pdd_ms: Option<u32>,
    /// Milliseconds to the answer.
    pub setup_ms: Option<u32>,
    /// Milliseconds of ringing.
    pub ring_ms: Option<u32>,
    /// The status code that started the ringing.
    pub ring_code: Option<u16>,
    /// Whether there was early media.
    pub early_media: bool,
    /// Who ended the call.
    pub hangup_by: Option<HangupBy>,
    /// The final status code or cause.
    pub hangup_code: Option<u32>,
    /// SIP messages.
    pub pkts_sip: u64,
    /// RTP packets, those of imported streams among them.
    pub pkts_rtp: u64,
    /// The lowest opinion score of its streams.
    pub best_mos: Option<Double>,
    /// Warnings.
    pub warn_count: u32,
    /// Critical findings.
    pub critical_count: u32,
    /// The number of its streams.
    pub stream_count: usize,
    /// Whether its media went through a relay.
    pub via_turn: bool,
    /// The addresses of its INVITEs, each once.
    pub ips: Vec<IpAddr>,
}

/// A [`CallSummary`] in mathematical terms.
#[verifier::ext_equal]
pub ghost struct RowModel {
    pub call_id: Seq<char>,
    pub from_user: Option<Seq<char>>,
    pub to_user: Option<Seq<char>>,
    pub caller_ip: Option<IpAddr>,
    pub caller_src: Option<SocketAddr>,
    pub state: CallState,
    pub outcome: Outcome,
    pub invite_ts: Option<u64>,
    pub duration_ms: Option<u64>,
    pub pdd_ms: Option<u32>,
    pub setup_ms: Option<u32>,
    pub ring_ms: Option<u32>,
    pub ring_code: Option<u16>,
    pub early_media: bool,
    pub hangup_by: Option<HangupBy>,
    pub hangup_code: Option<u32>,
    pub pkts_sip: int,
    pub pkts_rtp: int,
    pub best_mos: Option<Double>,
    pub warn_count: int,
    pub critical_count: int,
    pub stream_count: int,
    pub via_turn: bool,
    pub ips: Seq<IpAddr>,
}

impl View for CallSummary {
    type V = RowModel;

    open spec fn view(&self) -> RowModel {
        RowModel {
            call_id: self.call_id@,
            from_user: text_of(self.from_user),
            to_user: text_of(self.to_user),
            caller_ip: self.caller_ip,
            caller_src: self.caller_src,
            state: self.state,
            outcome: self.outcome,
            invite_ts: self.invite_ts,
            duration_ms: self.duration_ms,
            pdd_ms: self.pdd_ms,
            setup_ms: self.setup_ms,
            ring_ms: self.ring_ms,
            ring_code: self.ring_code,
            early_media: self.early_media,
            hangup_by: self.hangup_by,
            hangup_code: self.hangup_code,
            pkts_sip: self.pkts_sip as int,
            pkts_rtp: self.pkts_rtp as int,
            best_mos: self.best_mos,
            warn_count: self.warn_count as int,
            critical_count: self.critical_count as int,
            stream_count: self.stream_count as int,
            via_turn: self.via_turn,
            ips: self.ips@,
        }
    }
}

/// A sum of whole numbers, with their number.
#[derive(Clone, Copy, PartialEq, Eq, Structural, Debug)]
pub struct Total {
    /// The sum.
    pub sum: u128,
    /// How many numbers went into it.
    pub n: u64,
}

/// The state of the monitor at one moment. Averages are given as sums with
/// the number of values.
pub struct Snapshot {
    /// Where the packets come from.
    pub source: String,
    /// Microseconds from the first packet to the last.
    pub elapsed_us: Option<u64>,
    /// When the first packet was seen.
    pub start_us: Option<u64>,
    /// The offset from UTC, in seconds, of the clock that made the recording.
    pub tz_offset_secs: Option<i32>,
    /// The packet rate: packets in a number of microseconds.
    pub pps: Ratio,
    /// Packets seen.
    pub pkts_total: u64,
    /// Packets that the capture itself dropped.
    pub pkts_dropped: u64,
    /// Calls seen.
    pub calls_total: u64,
    /// Calls of the list that are in progress.
    pub active: usize,
    /// Calls of the list that were completed.
    pub completed: usize,
    /// Calls of the list that failed or were given up.
    pub failed: usize,
    /// Post-dial delays in milliseconds.
    pub pdd_ms: Total,
    /// Setup times in milliseconds.
    pub setup_ms: Total,
    /// Jitter in milliseconds.
    pub jitter_ms: Sum,
    /// Loss in percent.
    pub loss_pct: Sum,
    /// Mean round-trip times in milliseconds.
    pub rtt_ms: Sum,
    /// Opinion scores.
    pub mos: Sum,
    /// The answer-seizure ratio: completed calls of all calls.
    pub asr: Ratio,
    /// The calls, the newest first.
    pub calls: Vec<CallSummary>,
    /// The streams.
    pub streams: Vec<StreamSummary>,
    /// Event lines.
    pub events: Vec<String>,
    /// Findings.
    pub diagnostics: Vec<Diagnostic>,
    /// Statistics by address.
    pub ip_stats: Vec<IpStats>,
    /// Heatmap cells.
    pub buckets: Vec<(u64, String, MetricSet)>,
    /// The call that is looked at.
    pub focus: Option<Focus>,
    /// Whether the display stands still.
    pub paused: bool,
}

impl Default for Snapshot {
    fn default() -> (r: Snapshot)
        ensures
            r.source@.len() == 0,
            r.elapsed_us is None,
            r.start_us is None,
            r.tz_offset_secs is None,
            r.pps == (Ratio { part: 0, whole: 1_000_000 }),
            r.pkts_total == 0,
            r.pkts_dropped == 0,
            r.calls_total == 0,
            r.active == 0,
            r.completed == 0,
            r.failed == 0,
            r.pdd_ms == (Total { sum: 0, n: 0 }),
            r.setup_ms == (Total { sum: 0, n: 0 }),
            r.jitter_ms == Sum::spec_none(),
            r.loss_pct == Sum::spec_none(),
            r.rtt_ms == Sum::spec_none(),
            r.mos == Sum::spec_none(),
            r.asr == (Ratio { part: 0, whole: 0 }),
            r.calls@.len() == 0,
            r.streams@.len() == 0,
            r.events@.len() == 0,
            r.diagnostics@.len() == 0,
            r.ip_stats@.len() == 0,
            r.buckets@.len() == 0,
            r.focus is None,
            !r.paused,
    {
        Snapshot {
            source: String::new(),
            elapsed_us: None,
            start_us: None,
            tz_offset_secs: None,
            pps: Ratio { part: 0, whole: 1_000_000 },
            pkts_total: 0,
            pkts_dropped: 0,
            calls_total: 0,
            active: 0,
            completed: 0,
            failed: 0,
            pdd_ms: Total { sum: 0, n: 0 },
            setup_ms: Total { sum: 0, n: 0 },
            jitter_ms: Sum::none(),
            loss_pct: Sum::none(),
            rtt_ms: Sum::none(),
            mos: Sum::none(),
            asr: Ratio { part: 0, whole: 0 },
            calls: Vec::new(),
            streams: Vec::new(),
            events: Vec::new(),
            diagnostics: Vec::new(),
            ip_stats: Vec::new(),
            buckets: Vec::new(),
            focus: None,
            paused: false,
        }
    }
}

/// Whether a stream belongs to a call. An imported stream without a call
/// belongs to the call with the empty Call-ID.
pub open spec fn belongs(s: SummaryModel, id: Seq<char>) -> bool {
    import_id(s).0 == id
}

/// The opinion scores of the streams of a call.
pub open spec fn scores(list: Seq<SummaryModel>, id: Seq<char>) -> Seq<Double>
    decreases list.len(),
{
    if list.len() == 0 {
        Seq::empty()
    } else {
        let before = scores(list.drop_last(), id);
        match list.last().mos {
            Some(m) if belongs(list.last(), id) => before.push(m),
            _ => before,
        }
    }
}

/// The number of streams of a call.
pub open spec fn streams_of(list: Seq<SummaryModel>, id: Seq<char>) -> int
    decreases list.len(),
{
    if list.len() == 0 {
        0
    } else {
        streams_of(list.drop_last(), id) + if belongs(list.last(), id) {
            1int
        } else {
            0int
        }
    }
}

/// The packets of the streams of a call.
pub open spec fn packets_of(list: Seq<SummaryModel>, id: Seq<char>) -> int
    decreases list.len(),
{
    if list.len() == 0 {
        0
    } else {
        packets_of(list.drop_last(), id) + if belongs(list.last(), id) {
            list.last().packets as int
        } else {
            0
        }
    }
}

/// The members of a sequence, each where it first occurs.
pub open spec fn distinct<T>(s: Seq<T>) -> Seq<T>
    decreases s.len(),
{
    if s.len() == 0 {
        Seq::empty()
    } else {
        let before = distinct(s.drop_last());
        if before.contains(s.last()) {
            before
        } else {
            before.push(s.last())
        }
    }
}

/// The row of a call, given the streams seen and those imported.
pub open spec fn row_of(c: CallModel, live: Seq<SummaryModel>, imported: Seq<SummaryModel>) -> RowModel {
    RowModel {
        call_id: c.call_id,
        from_user: c.from_user,
        to_user: c.to_user,
        caller_ip: c.invite_key,
        caller_src: c.invite_src,
        state: c.state,
        outcome: c.outcome,
        invite_ts: c.invite_ts,
        duration_ms: match (c.answer_ts, c.end_ts) {
            (Some(a), Some(e)) => Some(
                if e >= a {
                    ((e - a) / 1000) as u64
                } else {
                    0
                },
            ),
            _ => None,
        },
        pdd_ms: c.pdd_ms,
        setup_ms: c.setup_ms,
        ring_ms: c.ring_ms,
        ring_code: c.ring_code,
        early_media: c.early_media,
        hangup_by: c.hangup_by,
        hangup_code: c.hangup_code,
        pkts_sip: c.pkts_sip,
        pkts_rtp: c.pkts_rtp + packets_of(imported, c.call_id),
        best_mos: least(scores(live + imported, c.call_id)),
        warn_count: c.warn_count,
        critical_count: c.critical_count,
        stream_count: streams_of(live + imported, c.call_id),
        via_turn: c.via_turn,
        ips: distinct(c.ips),
    }
}

/// What the streams of one call come to.
pub struct StreamTally {
    /// The lowest opinion score.
    pub best_mos: Option<Double>,
    /// How many there are.
    pub count: usize,
    /// The packets of the imported ones.
    pub packets: u128,
}

/// Whether a tally table holds what the streams of every call come to.
spec fn tallies(
    t: Map<Seq<char>, StreamTally>,
    live: Seq<SummaryModel>,
    imported: Seq<SummaryModel>,
) -> bool {
    forall|id: Seq<char>|
        {
            let n = streams_of(live + imported, id);
            &&& (#[trigger] t.contains_key(id) <==> n > 0)
            &&& t.contains_key(id) ==> {
                &&& t[id].count == n
                &&& t[id].packets == packets_of(imported, id)
                &&& t[id].best_mos == least(scores(live + imported, id))
            }
        }
}

proof fn lemma_tally_facts(live: Seq<SummaryModel>, imported: Seq<SummaryModel>, id: Seq<char>)
    ensures
        0 <= streams_of(live, id) <= live.len(),
        streams_of(live + imported, id) == streams_of(live, id) + streams_of(imported, id),
        0 <= streams_of(imported, id) <= imported.len(),
        0 <= packets_of(imported, id) <= imported.len() * u64::MAX,
        streams_of(imported, id) == 0 ==> packets_of(imported, id) == 0,
        streams_of(live + imported, id) == 0 ==> scores(live + imported, id).len() == 0,
    decreases live.len() + imported.len(),
{
    let all = live + imported;
    if imported.len() > 0 {
        assert(all.drop_last() =~= live + imported.drop_last());
        assert(all.last() == imported.last());
        lemma_tally_facts(live, imported.drop_last(), id);
        assert((imported.len() - 1) * u64::MAX + u64::MAX == imported.len() * u64::MAX)
            by (nonlinear_arith);
    } else {
        assert(all =~= live);
        if live.len() > 0 {
            lemma_tally_facts(live.drop_last(), imported, id);
            assert(live.drop_last() + imported =~= live.drop_last());
        }
    }
}

/// Enters one stream in the tally of its call.
fn tally_stream(
    t: &mut Table<String, StreamTally>,
    s: &StreamSummary,
    is_import: bool,
    Ghost(live): Ghost<Seq<SummaryModel>>,
    Ghost(imported): Ghost<Seq<SummaryModel>>,
)
    requires
        tallies(old(t)@, live, imported),
        live.len() + imported.len() < usize::MAX,
        !is_import ==> imported.len() == 0,
        imported.len() < 0x1_0000_0000_0000_0000,
    ensures
        is_import ==> tallies(final(t)@, live, imported.push(s@)),
        !is_import ==> tallies(final(t)@, live.push(s@), imported),
{
    let id: String = match &s.call_id {
        Some(c) => c.clone(),
        None => String::new(),
    };
    let ghost key = import_id(s@).0;
    assert(id@ =~= key);
    let ghost was = t@;
    let ghost all = live + imported;
    let ghost next = all.push(s@);
    let ghost imports = if is_import {
        imported.push(s@)
    } else {
        imported
    };
    proof {
        lemma_tally_facts(live, imported, key);
        assert(imported.len() * u64::MAX <= 0xffff_ffff_ffff_ffff * 0xffff_ffff_ffff_ffff)
            by (nonlinear_arith)
            requires
                imported.len() <= 0xffff_ffff_ffff_ffff,
        ;
    }
    let old_tally = match t.get(&id) {
        Some(x) => StreamTally { best_mos: x.best_mos, count: x.count, packets: x.packets },
        None => StreamTally { best_mos: None, count: 0, packets: 0 },
    };
    let best_mos = match s.mos {
        Some(m) => match old_tally.best_mos {
            Some(b) => Some(b.min(m)),
            None => Some(m),
        },
        None => old_tally.best_mos,
    };
    let more: u128 = if is_import {
        s.packets as u128
    } else {
        0
    };
    let x = StreamTally {
        best_mos,
        count: old_tally.count + 1,
        packets: old_tally.packets + more,
    };
    t.insert(id, x);
    proof {
        assert(next.drop_last() =~= all);
        if is_import {
            assert(live + imports =~= next);
            assert(imports.drop_last() =~= imported);
        } else {
            assert(live.push(s@) + imported =~= next);
        }
        assert forall|k: Seq<char>| {
            let n = streams_of(next, k);
            &&& (#[trigger] t@.contains_key(k) <==> n > 0)
            &&& t@.contains_key(k) ==> {
                &&& t@[k].count == n
                &&& t@[k].packets == packets_of(imports, k)
                &&& t@[k].best_mos == least(scores(next, k))
            }
        } by {
            lemma_tally_facts(live, imported, k);
            assert(was.contains_key(k) <==> streams_of(all, k) > 0);
            if k == key {
                if let Some(m) = s@.mos {
                    assert(scores(next, k).drop_last() =~= scores(all, k));
                    assert(scores(next, k).last() == m);
                }
            }
        }
    }
}

/// Whether a list holds the members of a set, each once.
pub open spec fn each_once<I>(ids: Seq<I>, all: Set<I>) -> bool {
    &&& forall|i: int| 0 <= i < ids.len() ==> all.contains(#[trigger] ids[i])
    &&& forall|x: I| #[trigger] all.contains(x) ==> ids.contains(x)
    &&& ids.no_duplicates()
}

proof fn lemma_each_once<K: Key, V>(keys: Seq<K>, m: Map<K::Id, V>)
    requires
        lists(keys, m),
    ensures
        each_once(Seq::new(keys.len(), |i: int| keys[i].id()), m.dom()),
{
    let ids = Seq::new(keys.len(), |i: int| keys[i].id());
    assert forall|x: K::Id| #[trigger] m.dom().contains(x) implies ids.contains(x) by {
        assert(m.contains_key(x));
        let i = choose|i: int| 0 <= i < keys.len() && #[trigger] keys[i].id() == x;
        assert(ids[i] == x);
    }
    assert forall|i: int| 0 <= i < ids.len() implies m.dom().contains(#[trigger] ids[i]) by {
        assert(m.contains_key(keys[i].id()));
    }
    assert forall|i: int, j: int| 0 <= i < ids.len() && 0 <= j < ids.len() && i != j implies ids[i]
        != ids[j] by {
        if i < j {
            assert(keys[i].id() != keys[j].id());
        } else {
            assert(keys[j].id() != keys[i].id());
        }
    }
}

/// Whether `list` holds a summary of every stream, with qualities that `gauge`
/// works out.
pub open spec fn lists_live<G: Fn(MediaStats, CodecParams, &Vec<Double>, &Vec<Double>) -> Quality>(
    r: Registry,
    gauge: &G,
    list: Seq<SummaryModel>,
) -> bool {
    exists|ids: Seq<StreamId>|
        {
            &&& #[trigger] each_once(ids, r.streams@.dom())
            &&& list.len() == ids.len()
            &&& forall|i: int|
                0 <= i < ids.len() ==> summarizes(r.streams@[ids[i]], gauge, #[trigger] list[i])
        }
}

/// Whether `list` holds every imported stream.
pub open spec fn lists_imported(m: RegModel, list: Seq<SummaryModel>) -> bool {
    exists|ids: Seq<ImportId>| #[trigger]
        each_once(ids, m.imported_streams.dom()) && list == ids.map_values(
            |k: ImportId| m.imported_streams[k],
        )
}

/// Borrowed stream summaries in mathematical terms.
pub open spec fn borrowed(v: Seq<&StreamSummary>) -> Seq<SummaryModel> {
    v.map_values(|s: &StreamSummary| s@)
}

/// The values that a list gives.
pub open spec fn given(list: Seq<SummaryModel>, f: spec_fn(SummaryModel) -> Option<Double>) -> Seq<
    Double,
>
    decreases list.len(),
{
    if list.len() == 0 {
        Seq::empty()
    } else {
        let before = given(list.drop_last(), f);
        match f(list.last()) {
            Some(x) => before.push(x),
            None => before,
        }
    }
}

/// Whether `p` are the partial sums that `plus` makes of values, from zero on.
pub open spec fn partial_sums<F: Fn(Double, Double) -> Double>(
    plus: &F,
    values: Seq<Double>,
    p: Seq<Double>,
) -> bool {
    &&& p.len() == values.len() + 1
    &&& p[0] == Double::spec_zero()
    &&& forall|i: int|
        0 <= i < values.len() ==> call_ensures(plus, (p[i], #[trigger] values[i]), p[i + 1])
}

/// Whether `total` is what `plus` makes of values, added one after the other
/// to zero.
pub open spec fn chain<F: Fn(Double, Double) -> Double>(
    plus: &F,
    values: Seq<Double>,
    total: Double,
) -> bool {
    exists|p: Seq<Double>| #[trigger] partial_sums(plus, values, p) && p.last() == total
}

/// Whether `s` is the sum of values.
pub open spec fn sums<F: Fn(Double, Double) -> Double>(plus: &F, values: Seq<Double>, s: Sum) -> bool {
    s.n == values.len() && chain(plus, values, s.total)
}

/// The jitter of a stream.
pub open spec fn jitter_given() -> spec_fn(SummaryModel) -> Option<Double> {
    |s: SummaryModel| s.jitter_ms
}

/// The loss of a stream.
pub open spec fn loss_given() -> spec_fn(SummaryModel) -> Option<Double> {
    |s: SummaryModel| Some(s.loss_pct)
}

/// The round-trip time of a stream.
pub open spec fn rtt_given() -> spec_fn(SummaryModel) -> Option<Double> {
    |s: SummaryModel| s.rtt_avg_ms
}

/// The opinion score of a stream.
pub open spec fn mos_given() -> spec_fn(SummaryModel) -> Option<Double> {
    |s: SummaryModel| s.mos
}

proof fn lemma_given_len(list: Seq<SummaryModel>, f: spec_fn(SummaryModel) -> Option<Double>)
    ensures
        given(list, f).len() <= list.len(),
    decreases list.len(),
{
    if list.len() > 0 {
        lemma_given_len(list.drop_last(), f);
    }
}

/// Adds what one stream gives to a sum.
fn add_given<F: Fn(Double, Double) -> Double>(
    s: &mut Sum,
    x: Option<Double>,
    plus: &F,
    Ghost(list): Ghost<Seq<SummaryModel>>,
    Ghost(one): Ghost<SummaryModel>,
    Ghost(f): Ghost<spec_fn(SummaryModel) -> Option<Double>>,
)
    requires
        sums(plus, given(list, f), *old(s)),
        x == f(one),
        list.len() < u64::MAX,
        forall|a: Double, b: Double| call_requires(plus, (a, b)),
    ensures
        sums(plus, given(list.push(one), f), *final(s)),
{
    proof {
        lemma_given_len(list, f);
        assert(list.push(one).drop_last() =~= list);
    }
    let ghost was = *s;
    s.take(x, plus);
    proof {
        if let Some(v) = x {
            let vals = given(list.push(one), f);
            let old_vals = given(list, f);
            assert(vals == old_vals.push(v));
            let p = choose|p: Seq<Double>| #[trigger]
                partial_sums(plus, old_vals, p) && p.last() == was.total;
            let q = p.push(s.total);
            assert forall|i: int| 0 <= i < vals.len() implies call_ensures(
                plus,
                (q[i], #[trigger] vals[i]),
                q[i + 1],
            ) by {
                if i < old_vals.len() {
                    assert(vals[i] == old_vals[i]);
                }
            }
            assert(partial_sums(plus, vals, q));
        }
    }
}

/// The sums over all streams.
pub struct StreamSums {
    /// Jitter in milliseconds.
    pub jitter_ms: Sum,
    /// Loss in percent.
    pub loss_pct: Sum,
    /// Mean round-trip times in milliseconds.
    pub rtt_ms: Sum,
    /// Opinion scores.
    pub mos: Sum,
}

/// Whether the sums are those of a list.
pub open spec fn sums_of<F: Fn(Double, Double) -> Double>(
    plus: &F,
    list: Seq<SummaryModel>,
    s: StreamSums,
) -> bool {
    &&& sums(plus, given(list, jitter_given()), s.jitter_ms)
    &&& sums(plus, given(list, loss_given()), s.loss_pct)
    &&& sums(plus, given(list, rtt_given()), s.rtt_ms)
    &&& sums(plus, given(list, mos_given()), s.mos)
}

fn add_stream_to<F: Fn(Double, Double) -> Double>(
    t: &mut StreamSums,
    s: &StreamSummary,
    plus: &F,
    Ghost(list): Ghost<Seq<SummaryModel>>,
)
    requires
        sums_of(plus, list, *old(t)),
        list.len() < u64::MAX,
        forall|a: Double, b: Double| call_requires(plus, (a, b)),
    ensures
        sums_of(plus, list.push(s@), *final(t)),
{
    add_given(&mut t.jitter_ms, s.jitter_ms, plus, Ghost(list), Ghost(s@), Ghost(jitter_given()));
    add_given(&mut t.loss_pct, Some(s.loss_pct), plus, Ghost(list), Ghost(s@), Ghost(loss_given()));
    add_given(&mut t.rtt_ms, s.rtt_avg_ms, plus, Ghost(list), Ghost(s@), Ghost(rtt_given()));
    add_given(&mut t.mos, s.mos, plus, Ghost(list), Ghost(s@), Ghost(mos_given()));
}

/// The sums over a list of streams and one of imported streams.
fn sum_streams<F: Fn(Double, Double) -> Double>(
    live: &Vec<StreamSummary>,
    imported: &Vec<&StreamSummary>,
    plus: &F,
) -> (r: StreamSums)
    requires
        live@.len() + imported@.len() <= usize::MAX,
        forall|a: Double, b: Double| call_requires(plus, (a, b)),
    ensures
        sums_of(plus, summaries(live@) + borrowed(imported@), r),
{
    let mut t = StreamSums {
        jitter_ms: Sum::none(),
        loss_pct: Sum::none(),
        rtt_ms: Sum::none(),
        mos: Sum::none(),
    };
    let ghost a = summaries(live@);
    let ghost b = borrowed(imported@);
    assert(a.take(0) =~= Seq::empty());
    assert(partial_sums(plus, Seq::empty(), seq![Double::spec_zero()]));
    let mut i: usize = 0;
    while i < live.len()
        invariant
            i <= live@.len() <= usize::MAX,
            a == summaries(live@),
            forall|a: Double, b: Double| call_requires(plus, (a, b)),
            sums_of(plus, a.take(i as int), t),
        decreases live@.len() - i,
    {
        add_stream_to(&mut t, &live[i], plus, Ghost(a.take(i as int)));
        assert(a.take(i + 1) =~= a.take(i as int).push(a[i as int]));
        i += 1;
    }
    assert(a.take(a.len() as int) + b.take(0) =~= a.take(a.len() as int));
    let mut j: usize = 0;
    while j < imported.len()
        invariant
            j <= imported@.len(),
            live@.len() + imported@.len() <= usize::MAX,
            a == summaries(live@),
            b == borrowed(imported@),
            forall|a: Double, b: Double| call_requires(plus, (a, b)),
            sums_of(plus, a.take(a.len() as int) + b.take(j as int), t),
        decreases imported@.len() - j,
    {
        add_stream_to(
            &mut t,
            imported[j],
            plus,
            Ghost(a.take(a.len() as int) + b.take(j as int)),
        );
        assert(a.take(a.len() as int) + b.take(j + 1) =~= (a.take(a.len() as int) + b.take(
            j as int,
        )).push(b[j as int]));
        j += 1;
    }
    assert(a.take(a.len() as int) + b.take(b.len() as int) =~= a + b);
    t
}

/// The number of milliseconds that the calls of a list give.
pub open spec fn total_of(
    m: RegModel,
    ids: Seq<Seq<char>>,
    f: spec_fn(CallModel) -> Option<u32>,
) -> (int, int)
    decreases ids.len(),
{
    if ids.len() == 0 {
        (0, 0)
    } else {
        let before = total_of(m, ids.drop_last(), f);
        match f(m.calls[ids.last()]) {
            Some(x) => (before.0 + x, before.1 + 1),
            None => before,
        }
    }
}

/// The post-dial delay of a call.
pub open spec fn pdd_given() -> spec_fn(CallModel) -> Option<u32> {
    |c: CallModel| c.pdd_ms
}

/// The setup time of a call.
pub open spec fn setup_given() -> spec_fn(CallModel) -> Option<u32> {
    |c: CallModel| c.setup_ms
}

/// Whether two totals are those of all calls.
pub open spec fn totals_of(m: RegModel, pdd: Total, setup: Total) -> bool {
    exists|ids: Seq<Seq<char>>|
        {
            &&& #[trigger] each_once(ids, m.calls.dom())
            &&& (pdd.sum as int, pdd.n as int) == total_of(m, ids, pdd_given())
            &&& (setup.sum as int, setup.n as int) == total_of(m, ids, setup_given())
        }
}

fn add_ms(t: &mut Total, x: Option<u32>)
    requires
        old(t).n < u64::MAX,
        old(t).sum <= old(t).n * u32::MAX,
    ensures
        match x {
            Some(v) => final(t).sum == old(t).sum + v && final(t).n == old(t).n + 1,
            None => *final(t) == *old(t),
        },
        final(t).sum <= final(t).n * u32::MAX,
{
    if let Some(v) = x {
        t.sum = t.sum + v as u128;
        t.n = t.n + 1;
    }
}

/// Whether a call is in progress.
pub open spec fn in_progress(c: CallModel) -> bool {
    c.state == CallState::Dialing || c.state == CallState::Ringing || c.state == CallState::Active
}

/// Whether a call was completed.
pub open spec fn done(c: CallModel) -> bool {
    c.state == CallState::Completed
}

/// Whether a call failed or was given up.
pub open spec fn lost(c: CallModel) -> bool {
    c.state == CallState::Failed || c.state == CallState::Canceled
}

/// How many calls of a list have a property.
pub open spec fn count_calls(m: RegModel, ids: Seq<Seq<char>>, p: spec_fn(CallModel) -> bool) -> int
    decreases ids.len(),
{
    if ids.len() == 0 {
        0
    } else {
        count_calls(m, ids.drop_last(), p) + if p(m.calls[ids.last()]) {
            1int
        } else {
            0int
        }
    }
}

/// The calls that stand in the order from `lo` up to `hi`, the last first.
pub open spec fn recent(m: RegModel, lo: int, hi: int) -> Seq<Seq<char>>
    decreases hi - lo,
{
    if lo >= hi {
        Seq::empty()
    } else {
        let before = recent(m, lo + 1, hi);
        if m.calls.contains_key(m.order[lo]) {
            before.push(m.order[lo])
        } else {
            before
        }
    }
}

/// The calls that came last, at most `limit` of the order.
pub open spec fn window(m: RegModel, limit: usize) -> Seq<Seq<char>> {
    let n = m.order.len() as int;
    recent(
        m,
        if n > limit {
            n - limit
        } else {
            0
        },
        n,
    )
}

/// How many calls a list of `limit` can grow to by pinned calls.
pub open spec fn row_cap(limit: usize) -> int {
    if limit + SEARCH_PIN_MAX > usize::MAX {
        usize::MAX as int
    } else {
        limit + SEARCH_PIN_MAX
    }
}

/// The calls of a window, and after them those of the first `n` pinned calls
/// that are not in it.
pub open spec fn with_pins(m: RegModel, base: Seq<Seq<char>>, cap: int, n: int) -> Seq<Seq<char>>
    decreases n,
{
    if n <= 0 {
        base
    } else {
        let before = with_pins(m, base, cap, n - 1);
        let id = m.search_matches[n - 1];
        if before.len() < cap && !base.contains(id) && m.calls.contains_key(id) {
            before.push(id)
        } else {
            before
        }
    }
}

/// The calls of a snapshot: those that came last, and the pinned ones. A full
/// snapshot has all calls anyway.
pub open spec fn listed_calls(m: RegModel, limit: usize) -> Seq<Seq<char>> {
    if limit == usize::MAX {
        window(m, limit)
    } else {
        with_pins(m, window(m, limit), row_cap(limit), m.search_matches.len() as int)
    }
}

/// What calls are sorted by: the newest first.
pub open spec fn age_ranks(m: RegModel, ids: Seq<Seq<char>>) -> Seq<Rank> {
    Seq::new(ids.len(), |i: int| (false, (u64::MAX - invited_at(m, ids[i])) as u128))
}

/// Whether `rows` are the rows of calls, the newest first.
pub open spec fn rows_of(
    m: RegModel,
    ids: Seq<Seq<char>>,
    live: Seq<SummaryModel>,
    imported: Seq<SummaryModel>,
    rows: Seq<CallSummary>,
) -> bool {
    exists|order: Seq<usize>|
        {
            &&& #[trigger] sorts(order, age_ranks(m, ids))
            &&& rows.len() == ids.len()
            &&& forall|i: int|
                0 <= i < rows.len() ==> (#[trigger] rows[i])@ == row_of(
                    m.calls[ids[order[i] as int]],
                    live,
                    imported,
                )
        }
}

proof fn lemma_recent(m: RegModel, lo: int, hi: int)
    requires
        0 <= lo,
        hi <= m.order.len(),
    ensures
        recent(m, lo, hi).len() <= if lo < hi {
            hi - lo
        } else {
            0
        },
        forall|i: int|
            0 <= i < recent(m, lo, hi).len() ==> m.calls.contains_key(#[trigger] recent(m, lo, hi)[i]),
    decreases hi - lo,
{
    if lo < hi {
        lemma_recent(m, lo + 1, hi);
    }
}

proof fn lemma_with_pins(m: RegModel, base: Seq<Seq<char>>, cap: int, n: int)
    requires
        0 <= n <= m.search_matches.len(),
        forall|i: int| 0 <= i < base.len() ==> m.calls.contains_key(#[trigger] base[i]),
    ensures
        base.len() <= with_pins(m, base, cap, n).len() <= base.len() + n,
        forall|i: int|
            0 <= i < with_pins(m, base, cap, n).len() ==> m.calls.contains_key(
                #[trigger] with_pins(m, base, cap, n)[i],
            ),
    decreases n,
{
    if n > 0 {
        lemma_with_pins(m, base, cap, n - 1);
    }
}

/// Whether the packets of every call fit, those of imported streams counted.
pub open spec fn packets_fit(m: RegModel) -> bool {
    forall|list: Seq<SummaryModel>, id: Seq<char>| #[trigger]
        lists_imported(m, list) && #[trigger] m.calls.contains_key(id) ==> m.calls[id].pkts_rtp
            + packets_of(list, id) <= u64::MAX
}

/// Whether there are few enough streams and calls to be counted.
pub open spec fn countable(m: RegModel) -> bool {
    &&& m.streams.dom().len() + m.imported_streams.dom().len() < usize::MAX
    &&& m.completed + m.failed + m.order.len() + m.search_matches.len() <= u64::MAX
    &&& m.order.len() + m.search_matches.len() <= usize::MAX
    &&& m.calls.dom().len() < u64::MAX
}

fn holds_ip(v: &Vec<IpAddr>, ip: IpAddr) -> (r: bool)
    ensures
        r == v@.contains(ip),
{
    let mut i: usize = 0;
    while i < v.len()
        invariant
            i <= v@.len(),
            forall|j: int| 0 <= j < i ==> v@[j] != ip,
        decreases v@.len() - i,
    {
        if v[i] == ip {
            assert(v@[i as int] == ip);
            return true;
        }
        i += 1;
    }
    false
}

fn distinct_ips(v: &Vec<IpAddr>) -> (r: Vec<IpAddr>)
    ensures
        r@ == distinct(v@),
{
    let mut r: Vec<IpAddr> = Vec::new();
    let mut i: usize = 0;
    while i < v.len()
        invariant
            i <= v@.len(),
            r@ == distinct(v@.take(i as int)),
        decreases v@.len() - i,
    {
        assert(v@.take(i + 1).drop_last() =~= v@.take(i as int));
        if !holds_ip(&r, v[i]) {
            r.push(v[i]);
        }
        i += 1;
    }
    assert(v@.take(v@.len() as int) =~= v@);
    r
}

impl Registry {
    /// Summarizes every stream.
    fn live_summaries<G: Fn(MediaStats, CodecParams, &Vec<Double>, &Vec<Double>) -> Quality>(
        &self,
        gauge: &G,
    ) -> (r: Vec<StreamSummary>)
        requires
            all_countable(self@),
            forall|m: MediaStats, c: CodecParams, r: &Vec<Double>, o: &Vec<Double>|
                call_requires(gauge, (m, c, r, o)),
        ensures
            lists_live(*self, gauge, summaries(r@)),
            r@.len() == self@.streams.dom().len(),
    {
        let keys = self.streams.keys();
        let mut r: Vec<StreamSummary> = Vec::new();
        let mut i: usize = 0;
        while i < keys.len()
            invariant
                i <= keys@.len(),
                r@.len() == i,
                lists(keys@, self.streams@),
                all_countable(self@),
                forall|m: MediaStats, c: CodecParams, r: &Vec<Double>, o: &Vec<Double>|
                    call_requires(gauge, (m, c, r, o)),
                forall|j: int|
                    0 <= j < i ==> summarizes(
                        self.streams@[keys@[j]],
                        gauge,
                        #[trigger] summaries(r@)[j],
                    ),
            decreases keys@.len() - i,
        {
            assert(self.streams@.contains_key(keys@[i as int].id()));
            let ghost was = r@;
            let s = self.streams.get(&keys[i]).unwrap();
            assert(self@.streams.contains_key(keys@[i as int]) && self@.streams[keys@[i as int]] == s@);
            r.push(s.summary(gauge));
            assert forall|j: int| 0 <= j < i + 1 implies summarizes(
                self.streams@[keys@[j]],
                gauge,
                #[trigger] summaries(r@)[j],
            ) by {
                if j < i {
                    assert(summaries(was)[j] == summaries(r@)[j]);
                }
            }
            i += 1;
        }
        proof {
            lemma_each_once(keys@, self.streams@);
            lemma_listed_len(keys@, self.streams@);
            let ids = Seq::new(keys@.len(), |i: int| keys@[i].id());
            assert(ids =~= keys@);
            assert(self@.streams.dom() =~= self.streams@.dom());
            assert(each_once(ids, self.streams@.dom()));
        }
        r
    }

    /// Borrows every imported stream.
    fn imported_summaries(&self) -> (r: Vec<&StreamSummary>)
        ensures
            lists_imported(self@, borrowed(r@)),
            r@.len() == self@.imported_streams.dom().len(),
    {
        let keys = self.imported_streams.keys();
        let ghost ids = Seq::new(keys@.len(), |i: int| keys@[i].id());
        let mut r: Vec<&StreamSummary> = Vec::new();
        let mut i: usize = 0;
        while i < keys.len()
            invariant
                i <= keys@.len(),
                r@.len() == i,
                lists(keys@, self.imported_streams@),
                forall|j: int|
                    0 <= j < i ==> (#[trigger] r@[j])@ == self@.imported_streams[keys@[j].id()],
            decreases keys@.len() - i,
        {
            assert(self.imported_streams@.contains_key(keys@[i as int].id()));
            let s = self.imported_streams.get(&keys[i]).unwrap();
            assert(self@.imported_streams[keys@[i as int].id()] == s@);
            r.push(s);
            i += 1;
        }
        proof {
            let m = self@;
            lemma_each_once(keys@, self.imported_streams@);
            lemma_listed_len(keys@, self.imported_streams@);
            assert(m.imported_streams.dom() =~= self.imported_streams@.dom());
            assert(borrowed(r@) =~= ids.map_values(|k: ImportId| m.imported_streams[k]));
            assert(each_once(ids, m.imported_streams.dom()));
        }
        r
    }

    /// The milliseconds that the calls give, added up.
    fn call_totals(&self) -> (r: (Total, Total))
        requires
            self@.calls.dom().len() < u64::MAX,
        ensures
            totals_of(self@, r.0, r.1),
    {
        let keys = self.calls.keys();
        let ghost m = self@;
        let ghost ids = Seq::new(keys@.len(), |i: int| keys@[i].id());
        proof {
            lemma_each_once(keys@, self.calls@);
            lemma_listed_len(keys@, self.calls@);
            assert(m.calls.dom() =~= self.calls@.dom());
        }
        let mut pdd = Total { sum: 0, n: 0 };
        let mut setup = Total { sum: 0, n: 0 };
        let mut i: usize = 0;
        while i < keys.len()
            invariant
                i <= keys@.len() < u64::MAX,
                m == self@,
                lists(keys@, self.calls@),
                ids == Seq::new(keys@.len(), |i: int| keys@[i].id()),
                pdd.n <= i,
                setup.n <= i,
                pdd.sum <= pdd.n * u32::MAX,
                setup.sum <= setup.n * u32::MAX,
                (pdd.sum as int, pdd.n as int) == total_of(m, ids.take(i as int), pdd_given()),
                (setup.sum as int, setup.n as int) == total_of(
                    m,
                    ids.take(i as int),
                    setup_given(),
                ),
            decreases keys@.len() - i,
        {
            assert(self.calls@.contains_key(keys@[i as int].id()));
            let c = self.calls.get(&keys[i]).unwrap();
            assert(m.calls[ids[i as int]] == c@);
            assert(ids.take(i + 1).drop_last() =~= ids.take(i as int));
            add_ms(&mut pdd, c.pdd_ms);
            add_ms(&mut setup, c.setup_ms);
            i += 1;
        }
        assert(ids.take(ids.len() as int) =~= ids);
        assert(each_once(ids, m.calls.dom()));
        (pdd, setup)
    }

    /// The row of a call.
    fn summarize(
        &self,
        c: &Call,
        t: &Table<String, StreamTally>,
        Ghost(live): Ghost<Seq<SummaryModel>>,
        Ghost(imported): Ghost<Seq<SummaryModel>>,
    ) -> (r: CallSummary)
        requires
            tallies(t@, live, imported),
            c.pkts_rtp + packets_of(imported, c.call_id@) <= u64::MAX,
        ensures
            r@ == row_of(c@, live, imported),
    {
        proof {
            lemma_tally_facts(live, imported, c.call_id@);
            assert(t@.contains_key(c.call_id@) <==> streams_of(live + imported, c.call_id@) > 0);
        }
        let (best_mos, stream_count, packets) = match t.get(&c.call_id) {
            Some(x) => (x.best_mos, x.count, x.packets),
            None => (None, 0, 0),
        };
        let r = CallSummary {
            call_id: c.call_id.clone(),
            from_user: c.from_user.clone(),
            to_user: c.to_user.clone(),
            caller_ip: c.invite_key,
            caller_src: c.invite_src,
            state: c.state,
            outcome: c.outcome,
            invite_ts: c.invite_ts,
            duration_ms: c.duration_ms(),
            pdd_ms: c.pdd_ms,
            setup_ms: c.setup_ms,
            ring_ms: c.ring_ms,
            ring_code: c.ring_code,
            early_media: c.early_media,
            hangup_by: c.hangup_by,
            hangup_code: c.hangup.code,
            pkts_sip: c.pkts_sip,
            pkts_rtp: c.pkts_rtp + packets as u64,
            best_mos,
            warn_count: c.warn_count,
            critical_count: c.critical_count,
            stream_count,
            via_turn: c.via_turn,
            ips: distinct_ips(&c.ips),
        };
        assert(r@ =~= row_of(c@, live, imported));
        r
    }

    /// The calls that came last.
    fn window_ids(&self, limit: usize) -> (r: Vec<String>)
        ensures
            texts(r@) == window(self@, limit),
    {
        let n = self.order.len();
        let lo: usize = if n > limit {
            n - limit
        } else {
            0
        };
        let mut r: Vec<String> = Vec::new();
        let mut i: usize = n;
        assert(texts(r@) =~= Seq::empty());
        while i > lo
            invariant
                lo <= i <= n == self.order@.len(),
                texts(r@) == recent(self@, i as int, n as int),
            decreases i,
        {
            i -= 1;
            let ghost was = r@;
            let id = &self.order[i];
            assert(self@.order[i as int] == id@);
            if self.calls.contains_key(id) {
                r.push(id.clone());
                assert(texts(r@) =~= texts(was).push(id@));
            }
        }
        r
    }

    /// The calls of a snapshot.
    fn listed_ids(&self, limit: usize) -> (r: Vec<String>)
        ensures
            texts(r@) == listed_calls(self@, limit),
    {
        let mut r = self.window_ids(limit);
        if limit == usize::MAX || self.search_matches.len() == 0 {
            return r;
        }
        let cap: usize = limit.saturating_add(SEARCH_PIN_MAX);
        let ghost m = self@;
        let ghost base = texts(r@);
        let mut seen: Table<String, ()> = Table::new();
        let mut i: usize = 0;
        while i < r.len()
            invariant
                i <= r@.len(),
                base == texts(r@),
                forall|id: Seq<char>| #[trigger]
                    seen@.contains_key(id) <==> base.take(i as int).contains(id),
            decreases r@.len() - i,
        {
            let ghost was = seen@;
            seen.insert(r[i].clone(), ());
            proof {
                let before = base.take(i as int);
                let now = base.take(i + 1);
                assert(now =~= before.push(base[i as int]));
                assert forall|id: Seq<char>| #[trigger] seen@.contains_key(id) <==> now.contains(
                    id,
                ) by {
                    if before.contains(id) {
                        assert(now[before.index_of(id)] == id);
                    }
                    if id == base[i as int] {
                        assert(now[i as int] == id);
                    }
                    if now.contains(id) && id != base[i as int] {
                        assert(before[now.index_of(id)] == id);
                    }
                }
            }
            i += 1;
        }
        assert(base.take(base.len() as int) =~= base);
        let mut j: usize = 0;
        while j < self.search_matches.len()
            invariant
                j <= self.search_matches@.len(),
                m == self@,
                forall|id: Seq<char>| #[trigger] seen@.contains_key(id) <==> base.contains(id),
                texts(r@) == with_pins(m, base, cap as int, j as int),
            decreases self.search_matches@.len() - j,
        {
            let id = &self.search_matches[j];
            assert(m.search_matches[j as int] == id@);
            let ghost was = r@;
            if r.len() < cap && !seen.contains_key(id) && self.calls.contains_key(id) {
                r.push(id.clone());
                assert(texts(r@) =~= texts(was).push(id@));
            }
            j += 1;
        }
        r
    }

    /// How many calls of a list are in progress, were completed, and failed.
    fn state_counts(&self, ids: &Vec<String>) -> (r: (usize, usize, usize))
        requires
            forall|i: int|
                0 <= i < ids@.len() ==> self@.calls.contains_key((#[trigger] ids@[i])@),
        ensures
            r.0 == count_calls(self@, texts(ids@), |c: CallModel| in_progress(c)),
            r.1 == count_calls(self@, texts(ids@), |c: CallModel| done(c)),
            r.2 == count_calls(self@, texts(ids@), |c: CallModel| lost(c)),
            r.0 + r.1 + r.2 == ids@.len(),
    {
        let ghost m = self@;
        let ghost all = texts(ids@);
        let mut a: usize = 0;
        let mut d: usize = 0;
        let mut f: usize = 0;
        let mut i: usize = 0;
        while i < ids.len()
            invariant
                i <= ids@.len(),
                m == self@,
                all == texts(ids@),
                forall|i: int| 0 <= i < ids@.len() ==> m.calls.contains_key((#[trigger] ids@[i])@),
                a + d + f == i,
                a == count_calls(m, all.take(i as int), |c: CallModel| in_progress(c)),
                d == count_calls(m, all.take(i as int), |c: CallModel| done(c)),
                f == count_calls(m, all.take(i as int), |c: CallModel| lost(c)),
            decreases ids@.len() - i,
        {
            assert(m.calls.contains_key(ids@[i as int]@));
            let c = self.calls.get(&ids[i]).unwrap();
            assert(m.calls[all[i as int]] == c@);
            assert(all.take(i + 1).drop_last() =~= all.take(i as int));
            match c.state {
                CallState::Dialing | CallState::Ringing | CallState::Active => {
                    a += 1;
                },
                CallState::Completed => {
                    d += 1;
                },
                CallState::Failed | CallState::Canceled => {
                    f += 1;
                },
            }
            i += 1;
        }
        assert(all.take(all.len() as int) =~= all);
        (a, d, f)
    }

    /// The rows of calls, the newest first.
    fn rows(
        &self,
        ids: &Vec<String>,
        t: &Table<String, StreamTally>,
        Ghost(live): Ghost<Seq<SummaryModel>>,
        Ghost(imported): Ghost<Seq<SummaryModel>>,
    ) -> (r: Vec<CallSummary>)
        requires
            self.wf(),
            tallies(t@, live, imported),
            forall|i: int|
                0 <= i < ids@.len() ==> self@.calls.contains_key((#[trigger] ids@[i])@),
            forall|id: Seq<char>| #[trigger]
                self@.calls.contains_key(id) ==> self@.calls[id].pkts_rtp + packets_of(imported, id)
                    <= u64::MAX,
        ensures
            rows_of(self@, texts(ids@), live, imported, r@),
    {
        let ghost m = self@;
        let ghost all = texts(ids@);
        let mut ranks: Vec<Rank> = Vec::new();
        let mut i: usize = 0;
        while i < ids.len()
            invariant
                i <= ids@.len(),
                m == self@,
                all == texts(ids@),
                forall|i: int| 0 <= i < ids@.len() ==> m.calls.contains_key((#[trigger] ids@[i])@),
                ranks@ == age_ranks(m, all).take(i as int),
            decreases ids@.len() - i,
        {
            assert(m.calls.contains_key(ids@[i as int]@));
            let c = self.calls.get(&ids[i]).unwrap();
            assert(m.calls[all[i as int]] == c@);
            let at: u64 = match c.invite_ts {
                Some(x) => x,
                None => 0,
            };
            ranks.push((false, (u64::MAX - at) as u128));
            i += 1;
            assert(ranks@ =~= age_ranks(m, all).take(i as int));
        }
        assert(ranks@ =~= age_ranks(m, all));
        let order = stable_order(&ranks);
        let mut r: Vec<CallSummary> = Vec::new();
        let mut j: usize = 0;
        while j < order.len()
            invariant
                j <= order@.len(),
                m == self@,
                self.wf(),
                all == texts(ids@),
                ranks@ == age_ranks(m, all),
                sorts(order@, ranks@),
                tallies(t@, live, imported),
                forall|i: int| 0 <= i < ids@.len() ==> m.calls.contains_key((#[trigger] ids@[i])@),
                forall|id: Seq<char>| #[trigger]
                    m.calls.contains_key(id) ==> m.calls[id].pkts_rtp + packets_of(imported, id)
                        <= u64::MAX,
                r@.len() == j,
                forall|x: int|
                    0 <= x < j ==> (#[trigger] r@[x])@ == row_of(
                        m.calls[all[order@[x] as int]],
                        live,
                        imported,
                    ),
            decreases order@.len() - j,
        {
            let p: usize = order[j];
            assert(p < ids@.len());
            assert(m.calls.contains_key(ids@[p as int]@));
            let c = self.calls.get(&ids[p]).unwrap();
            assert(m.calls[all[p as int]] == c@);
            let row = self.summarize(c, t, Ghost(live), Ghost(imported));
            r.push(row);
            j += 1;
        }
        r
    }
}

/// The first `n` members of a sequence, or all of it.
pub open spec fn first<T>(s: Seq<T>, n: int) -> Seq<T> {
    if s.len() > n {
        s.take(n)
    } else {
        s
    }
}

/// Whether the calls, streams and sums of a snapshot are those of a registry,
/// where `live` and `imported` list its streams.
pub open spec fn shows_streams<F: Fn(Double, Double) -> Double>(
    m: RegModel,
    limit: usize,
    stream_limit: usize,
    plus: &F,
    live: Seq<SummaryModel>,
    imported: Seq<SummaryModel>,
    s: Snapshot,
) -> bool {
    &&& rows_of(m, listed_calls(m, limit), live, imported, s.calls@)
    &&& summaries(s.streams@) == first(live + imported, stream_limit as int)
    &&& sums_of(
        plus,
        live + imported,
        StreamSums { jitter_ms: s.jitter_ms, loss_pct: s.loss_pct, rtt_ms: s.rtt_ms, mos: s.mos },
    )
}

/// Whether a snapshot shows a registry: at most `limit` calls besides pinned
/// ones, and at most `stream_limit` streams. The order in which the streams
/// are listed is not said.
pub open spec fn shows<
    G: Fn(MediaStats, CodecParams, &Vec<Double>, &Vec<Double>) -> Quality,
    F: Fn(Double, Double) -> Double,
>(r: Registry, limit: usize, stream_limit: usize, gauge: &G, plus: &F, s: Snapshot) -> bool {
    let m = r@;
    let ids = listed_calls(m, limit);
    let all = m.completed + m.failed + count_calls(m, ids, |c: CallModel| in_progress(c));
    &&& s.source@ == m.source
    &&& s.elapsed_us == match (m.start_us, m.last_us) {
        (Some(a), Some(b)) => Some(
            if b >= a {
                (b - a) as u64
            } else {
                0
            },
        ),
        _ => None,
    }
    &&& s.start_us == m.start_us
    &&& s.tz_offset_secs == m.tz_offset_secs
    &&& s.pps == m.pps
    &&& s.pkts_total == m.pkts_total
    &&& s.pkts_dropped == m.pkts_dropped
    &&& s.calls_total == if all >= m.calls.dom().len() {
        all
    } else {
        m.calls.dom().len() as int
    }
    &&& s.active == count_calls(m, ids, |c: CallModel| in_progress(c))
    &&& s.completed == count_calls(m, ids, |c: CallModel| done(c))
    &&& s.failed == count_calls(m, ids, |c: CallModel| lost(c))
    &&& totals_of(m, s.pdd_ms, s.setup_ms)
    &&& s.asr == (Ratio { part: m.completed as u128, whole: all as u128 })
    &&& exists|live: Seq<SummaryModel>, imported: Seq<SummaryModel>|
        {
            &&& #[trigger] lists_live(r, gauge, live)
            &&& #[trigger] lists_imported(m, imported)
            &&& shows_streams(m, limit, stream_limit, plus, live, imported, s)
        }
    &&& texts(s.events@) == m.events
    &&& s.diagnostics@.map_values(|d: Diagnostic| d@) == m.diagnostics
    &&& lists_by_ip(s.ip_stats@, m.ipstats)
    &&& lists_cells(s.buckets@, m.cells)
    &&& match s.focus {
        Some(f) => m.focus_hint matches Some(h) && details(r, h, gauge, f@),
        None => m.focus_hint matches Some(h) ==> !m.calls.contains_key(h.primary),
    }
    &&& !s.paused
}

impl Registry {
    fn copy_events(&self) -> (r: Vec<String>)
        ensures
            texts(r@) == self@.events,
    {
        let mut r: Vec<String> = Vec::new();
        let mut i: usize = 0;
        assert(texts(r@) =~= self@.events.take(0));
        while i < self.events.len()
            invariant
                i <= self.events@.len(),
                texts(r@) == self@.events.take(i as int),
            decreases self.events@.len() - i,
        {
            let ghost was = r@;
            r.push(self.events[i].clone());
            assert(texts(r@) =~= texts(was).push(self@.events[i as int]));
            i += 1;
            assert(texts(r@) =~= self@.events.take(i as int));
        }
        assert(self@.events.take(self@.events.len() as int) =~= self@.events);
        r
    }

    fn copy_findings(&self) -> (r: Vec<Diagnostic>)
        ensures
            r@.map_values(|d: Diagnostic| d@) == self@.diagnostics,
    {
        let ghost f = |d: Diagnostic| d@;
        let mut r: Vec<Diagnostic> = Vec::new();
        let mut i: usize = 0;
        assert(r@.map_values(f) =~= self@.diagnostics.take(0));
        while i < self.diagnostics.len()
            invariant
                i <= self.diagnostics@.len(),
                f == (|d: Diagnostic| d@),
                r@.map_values(f) == self@.diagnostics.take(i as int),
            decreases self.diagnostics@.len() - i,
        {
            let ghost was = r@;
            r.push(self.diagnostics[i].clone());
            assert(r@.map_values(f) =~= was.map_values(f).push(self@.diagnostics[i as int]));
            i += 1;
            assert(r@.map_values(f) =~= self@.diagnostics.take(i as int));
        }
        assert(self@.diagnostics.take(self@.diagnostics.len() as int) =~= self@.diagnostics);
        r
    }

    /// What the state of the monitor is. At most `limit` calls are listed
    /// besides pinned ones, and at most `stream_limit` streams. `gauge` works
    /// out the quality of a stream, and `plus` adds two values.
    pub fn snapshot_with<
        G: Fn(MediaStats, CodecParams, &Vec<Double>, &Vec<Double>) -> Quality,
        F: Fn(Double, Double) -> Double,
    >(&self, limit: usize, stream_limit: usize, gauge: &G, plus: &F) -> (s: Snapshot)
        requires
            self.wf(),
            all_countable(self@),
            packets_fit(self@),
            countable(self@),
            forall|m: MediaStats, c: CodecParams, r: &Vec<Double>, o: &Vec<Double>|
                call_requires(gauge, (m, c, r, o)),
            forall|a: Double, b: Double| call_requires(plus, (a, b)),
        ensures
            shows(*self, limit, stream_limit, gauge, plus, s),
    {
        let ghost m = self@;
        let live = self.live_summaries(gauge);
        let imported = self.imported_summaries();
        let ghost lm = summaries(live@);
        let ghost im = borrowed(imported@);
        let tally = tally_streams(&live, &imported);
        let sums = sum_streams(&live, &imported, plus);
        let ids = self.listed_ids(limit);
        proof {
            lemma_recent(
                m,
                if m.order.len() > limit {
                    m.order.len() - limit
                } else {
                    0
                },
                m.order.len() as int,
            );
            lemma_with_pins(m, window(m, limit), row_cap(limit), m.search_matches.len() as int);
            assert forall|i: int| 0 <= i < ids@.len() implies m.calls.contains_key(
                (#[trigger] ids@[i])@,
            ) by {
                assert(texts(ids@)[i] == ids@[i]@);
            }
            assert forall|id: Seq<char>| #[trigger] m.calls.contains_key(id) implies m.calls[id].pkts_rtp
                + packets_of(im, id) <= u64::MAX by {
                assert(lists_imported(m, im));
            }
        }
        let (active, completed, failed) = self.state_counts(&ids);
        let calls = self.rows(&ids, &tally, Ghost(lm), Ghost(im));
        let n = self.calls.len();
        assert(m.calls.dom() =~= self.calls@.dom());
        let (pdd_ms, setup_ms) = self.call_totals();
        let all: u64 = self.completed + self.failed + active as u64;
        let streams = take_streams(live, &imported, stream_limit);
        let focus = match &self.focus_hint {
            Some(h) => self.focus_detail(h, gauge),
            None => None,
        };
        let s = Snapshot {
            source: self.source.clone(),
            elapsed_us: match (self.start_us, self.last_us) {
                (Some(a), Some(b)) => Some(b.saturating_sub(a)),
                _ => None,
            },
            start_us: self.start_us,
            tz_offset_secs: self.tz_offset_secs,
            pps: self.pps,
            pkts_total: self.pkts_total,
            pkts_dropped: self.pkts_dropped,
            calls_total: if all >= n as u64 {
                all
            } else {
                n as u64
            },
            active,
            completed,
            failed,
            pdd_ms,
            setup_ms,
            jitter_ms: sums.jitter_ms,
            loss_pct: sums.loss_pct,
            rtt_ms: sums.rtt_ms,
            mos: sums.mos,
            asr: Ratio { part: self.completed as u128, whole: all as u128 },
            calls,
            streams,
            events: self.copy_events(),
            diagnostics: self.copy_findings(),
            ip_stats: self.ipstats.snapshot(),
            buckets: self.heatmap.flat(),
            focus,
            paused: false,
        };
        assert(lists_live(*self, gauge, lm) && lists_imported(m, im));
        assert(shows_streams(m, limit, stream_limit, plus, lm, im, s));
        s
    }

    /// A snapshot for display: at most `limit` calls besides pinned ones, and
    /// at most a thousand streams.
    pub fn snapshot<
        G: Fn(MediaStats, CodecParams, &Vec<Double>, &Vec<Double>) -> Quality,
        F: Fn(Double, Double) -> Double,
    >(&self, limit: usize, gauge: &G, plus: &F) -> (s: Snapshot)
        requires
            self.wf(),
            all_countable(self@),
            packets_fit(self@),
            countable(self@),
            forall|m: MediaStats, c: CodecParams, r: &Vec<Double>, o: &Vec<Double>|
                call_requires(gauge, (m, c, r, o)),
            forall|a: Double, b: Double| call_requires(plus, (a, b)),
        ensures
            shows(*self, limit, 1000, gauge, plus, s),
    {
        self.snapshot_with(limit, 1000, gauge, plus)
    }

    /// A snapshot for export: every call and every stream.
    pub fn snapshot_full<
        G: Fn(MediaStats, CodecParams, &Vec<Double>, &Vec<Double>) -> Quality,
        F: Fn(Double, Double) -> Double,
    >(&self, gauge: &G, plus: &F) -> (s: Snapshot)
        requires
            self.wf(),
            all_countable(self@),
            packets_fit(self@),
            countable(self@),
            forall|m: MediaStats, c: CodecParams, r: &Vec<Double>, o: &Vec<Double>|
                call_requires(gauge, (m, c, r, o)),
            forall|a: Double, b: Double| call_requires(plus, (a, b)),
        ensures
            shows(*self, usize::MAX, usize::MAX, gauge, plus, s),
    {
        self.snapshot_with(usize::MAX, usize::MAX, gauge, plus)
    }
}

/// What the streams of every call come to.
fn tally_streams(live: &Vec<StreamSummary>, imported: &Vec<&StreamSummary>) -> (r: Table<
    String,
    StreamTally,
>)
    requires
        live@.len() + imported@.len() < usize::MAX,
    ensures
        tallies(r@, summaries(live@), borrowed(imported@)),
{
    let mut t: Table<String, StreamTally> = Table::new();
    let ghost a = summaries(live@);
    let ghost b = borrowed(imported@);
    let ghost none = Seq::<SummaryModel>::empty();
    proof {
        assert(a.take(0) =~= none);
        assert(none + none =~= none);
        assert(tallies(t@, none, none));
    }
    let mut i: usize = 0;
    while i < live.len()
        invariant
            i <= live@.len() < usize::MAX,
            a == summaries(live@),
            none == Seq::<SummaryModel>::empty(),
            tallies(t@, a.take(i as int), none),
        decreases live@.len() - i,
    {
        tally_stream(&mut t, &live[i], false, Ghost(a.take(i as int)), Ghost(none));
        assert(a.take(i + 1) =~= a.take(i as int).push(a[i as int]));
        i += 1;
    }
    assert(a.take(a.len() as int) =~= a);
    assert(b.take(0) =~= none);
    let mut j: usize = 0;
    while j < imported.len()
        invariant
            j <= imported@.len(),
            live@.len() + imported@.len() < usize::MAX,
            a == summaries(live@),
            b == borrowed(imported@),
            tallies(t@, a, b.take(j as int)),
        decreases imported@.len() - j,
    {
        tally_stream(&mut t, imported[j], true, Ghost(a), Ghost(b.take(j as int)));
        assert(b.take(j + 1) =~= b.take(j as int).push(b[j as int]));
        j += 1;
    }
    assert(b.take(b.len() as int) =~= b);
    t
}

/// The first `limit` of the streams seen and those imported.
fn take_streams(
    live: Vec<StreamSummary>,
    imported: &Vec<&StreamSummary>,
    limit: usize,
) -> (r: Vec<StreamSummary>)
    ensures
        summaries(r@) == first(summaries(live@) + borrowed(imported@), limit as int),
{
    let ghost a = summaries(live@);
    let ghost b = borrowed(imported@);
    let mut r = live;
    if r.len() > limit {
        r.truncate(limit);
        assert(summaries(r@) =~= first(a + b, limit as int));
        return r;
    }
    let mut j: usize = 0;
    assert(summaries(r@) =~= a + b.take(0));
    while j < imported.len() && r.len() < limit
        invariant
            j <= imported@.len(),
            a == summaries(live@),
            b == borrowed(imported@),
            r@.len() == a.len() + j,
            r@.len() <= limit,
            summaries(r@) == a + b.take(j as int),
        decreases imported@.len() - j,
    {
        let ghost was = r@;
        r.push(imported[j].clone());
        assert(summaries(r@) =~= summaries(was).push(b[j as int]));
        j += 1;
        assert(summaries(r@) =~= a + b.take(j as int));
    }
    assert(summaries(r@) =~= first(a + b, limit as int));
    r
}

/// The row of a call lists every address of the call, each once.
pub proof fn a_row_lists_each_address_once(
    c: CallModel,
    live: Seq<SummaryModel>,
    imported: Seq<SummaryModel>,
)
    ensures
        row_of(c, live, imported).ips.no_duplicates(),
        row_of(c, live, imported).ips.to_set() == c.ips.to_set(),
{
    lemma_distinct(c.ips);
}

proof fn lemma_distinct<T>(s: Seq<T>)
    ensures
        distinct(s).no_duplicates(),
        distinct(s).to_set() == s.to_set(),
    decreases s.len(),
{
    if s.len() > 0 {
        let t = s.drop_last();
        let d = distinct(t);
        lemma_distinct(t);
        assert(s =~= t.push(s.last()));
        t.lemma_push_to_set_commute(s.last());
        d.lemma_push_to_set_commute(s.last());
        assert(d.contains(s.last()) == d.to_set().contains(s.last()));
        assert(distinct(s).to_set() =~= s.to_set());
    } else {
        assert(distinct(s).to_set() =~= s.to_set());
    }
}

/// Every listed call is in progress, completed or failed, and only one of
/// these.
pub proof fn the_three_counts_make_the_list(m: RegModel, ids: Seq<Seq<char>>)
    ensures
        count_calls(m, ids, |c: CallModel| in_progress(c)) + count_calls(
            m,
            ids,
            |c: CallModel| done(c),
        ) + count_calls(m, ids, |c: CallModel| lost(c)) == ids.len(),
    decreases ids.len(),
{
    if ids.len() > 0 {
        the_three_counts_make_the_list(m, ids.drop_last());
    }
}

/// A pinned call is listed, also where it is not among the calls that came
/// last.
pub proof fn a_pinned_call_is_listed(m: RegModel, limit: usize, id: Seq<char>)
    requires
        limit + SEARCH_PIN_MAX <= usize::MAX,
        m.search_matches.len() <= SEARCH_PIN_MAX,
        m.search_matches.contains(id),
        m.calls.contains_key(id),
    ensures
        listed_calls(m, limit).contains(id),
{
    let base = window(m, limit);
    let n = m.order.len() as int;
    lemma_recent(
        m,
        if n > limit {
            n - limit
        } else {
            0
        },
        n,
    );
    let i = m.search_matches.index_of(id);
    lemma_pins_listed(m, base, row_cap(limit), i, m.search_matches.len() as int);
}

proof fn lemma_pins_listed(m: RegModel, base: Seq<Seq<char>>, cap: int, i: int, n: int)
    requires
        0 <= i < n <= m.search_matches.len(),
        m.calls.contains_key(m.search_matches[i]),
        base.len() + n <= cap,
    ensures
        with_pins(m, base, cap, n).contains(m.search_matches[i]),
        with_pins(m, base, cap, n).len() <= base.len() + n,
        base.is_prefix_of(with_pins(m, base, cap, n)),
    decreases n,
{
    let id = m.search_matches[i];
    let before = with_pins(m, base, cap, n - 1);
    let now = with_pins(m, base, cap, n);
    lemma_pins_keep(m, base, cap, n - 1);
    lemma_pins_keep(m, base, cap, n);
    if i < n - 1 {
        lemma_pins_listed(m, base, cap, i, n - 1);
        assert(now[before.index_of(id)] == id);
    } else if base.contains(id) {
        let j = base.index_of(id);
        assert(now[j] == base[j]);
    } else {
        assert(now.last() == id);
    }
}

proof fn lemma_pins_keep(m: RegModel, base: Seq<Seq<char>>, cap: int, n: int)
    requires
        0 <= n <= m.search_matches.len(),
    ensures
        base.len() <= with_pins(m, base, cap, n).len() <= base.len() + n,
        base.is_prefix_of(with_pins(m, base, cap, n)),
    decreases n,
{
    if n > 0 {
        lemma_pins_keep(m, base, cap, n - 1);
    }
}

/// The list is no longer than the limit and the pinned calls allow.
pub proof fn the_list_keeps_its_limit(m: RegModel, limit: usize)
    ensures
        listed_calls(m, limit).len() <= limit + m.search_matches.len(),
{
    let n = m.order.len() as int;
    lemma_recent(
        m,
        if n > limit {
            n - limit
        } else {
            0
        },
        n,
    );
    lemma_pins_keep(m, window(m, limit), row_cap(limit), m.search_matches.len() as int);
}

/// The time by which a row is sorted: that of its INVITE.
pub open spec fn row_time(row: CallSummary) -> u64 {
    match row.invite_ts {
        Some(t) => t,
        None => 0,
    }
}

/// Listed calls come with the newest first.
pub proof fn newer_calls_come_first(
    m: RegModel,
    ids: Seq<Seq<char>>,
    live: Seq<SummaryModel>,
    imported: Seq<SummaryModel>,
    rows: Seq<CallSummary>,
    i: int,
    j: int,
)
    requires
        rows_of(m, ids, live, imported, rows),
        0 <= i < j < rows.len(),
    ensures
        row_time(rows[i]) >= row_time(rows[j]),
{
    let order = choose|order: Seq<usize>|
        {
            &&& #[trigger] sorts(order, age_ranks(m, ids))
            &&& rows.len() == ids.len()
            &&& forall|i: int|
                0 <= i < rows.len() ==> (#[trigger] rows[i])@ == row_of(
                    m.calls[ids[order[i] as int]],
                    live,
                    imported,
                )
        };
    let ranks = age_ranks(m, ids);
    assert(rows[i]@.invite_ts == m.calls[ids[order[i] as int]].invite_ts);
    assert(rows[j]@.invite_ts == m.calls[ids[order[j] as int]].invite_ts);
    assert(comes_first(ranks, order[i] as int, order[j] as int));
    assert(ranks[order[i] as int].1 <= ranks[order[j] as int].1);
}

/// The calls that came last, the last first, where all of them are there.
proof fn lemma_recent_is(m: RegModel, lo: int, hi: int)
    requires
        0 <= lo <= hi <= m.order.len(),
        order_agrees(m),
    ensures
        recent(m, lo, hi).len() == hi - lo,
        forall|i: int| 0 <= i < hi - lo ==> #[trigger] recent(m, lo, hi)[i] == m.order[hi - 1 - i],
    decreases hi - lo,
{
    if lo < hi {
        lemma_recent_is(m, lo + 1, hi);
        assert(m.order.contains(m.order[lo]));
    }
}

/// Which calls a list holds with the first `n` pinned calls, where there is room
/// for them.
proof fn lemma_pins_are(m: RegModel, base: Seq<Seq<char>>, cap: int, n: int)
    requires
        0 <= n <= m.search_matches.len(),
        base.len() + n <= cap || m.order.len() <= cap,
        order_agrees(m),
        forall|id: Seq<char>| #[trigger] base.contains(id) ==> m.calls.contains_key(id),
        base.no_duplicates(),
        m.search_matches.no_duplicates(),
    ensures
        with_pins(m, base, cap, n).no_duplicates(),
        forall|id: Seq<char>| #[trigger]
            with_pins(m, base, cap, n).contains(id) <==> base.contains(id) || (
            m.search_matches.take(n).contains(id) && m.calls.contains_key(id)),
    decreases n,
{
    if n > 0 {
        lemma_pins_are(m, base, cap, n - 1);
        lemma_pins_keep(m, base, cap, n - 1);
        let before = with_pins(m, base, cap, n - 1);
        let now = with_pins(m, base, cap, n);
        let pin = m.search_matches[n - 1];
        assert(m.search_matches.take(n) =~= m.search_matches.take(n - 1).push(pin));
        lemma_pushed(m.search_matches.take(n - 1), pin);
        lemma_pushed(before, pin);
        assert(!m.search_matches.take(n - 1).contains(pin)) by {
            if m.search_matches.take(n - 1).contains(pin) {
                let j = m.search_matches.take(n - 1).index_of(pin);
                assert(m.search_matches[j] == m.search_matches[n - 1]);
            }
        }
        if before.len() >= cap && m.calls.contains_key(pin) {
            let all = m.order.to_set();
            let listed = before.to_set();
            assert forall|id: Seq<char>| #[trigger] listed.contains(id) implies all.contains(id) by {
                assert(before.contains(id));
                assert(m.order.contains(id) <==> m.calls.contains_key(id));
            }
            before.unique_seq_to_set();
            m.order.unique_seq_to_set();
            vstd::set_lib::lemma_len_subset(listed, all);
            vstd::set_lib::lemma_subset_equality(listed, all);
            assert(m.order.contains(pin) <==> m.calls.contains_key(pin));
            assert(all.contains(pin));
            assert(before.contains(pin));
        }
    } else {
        assert(m.search_matches.take(0) =~= Seq::empty());
    }
}

/// A list holds the calls that came last, at most `limit` of them, and those that
/// a search has pinned, each once.
pub proof fn the_list_is_of_recent_and_pinned_calls(m: RegModel, limit: usize)
    requires
        order_agrees(m),
        m.search_matches.no_duplicates(),
        m.search_matches.len() <= SEARCH_PIN_MAX,
        m.order.len() <= usize::MAX,
    ensures
        listed_calls(m, limit).no_duplicates(),
        forall|id: Seq<char>| #[trigger]
            listed_calls(m, limit).contains(id) <==> newest(m.order, limit as int).contains(id) || (
            m.search_matches.contains(id) && m.calls.contains_key(id)),
{
    let n = m.order.len() as int;
    let lo = if n > limit {
        n - limit
    } else {
        0
    };
    let base = window(m, limit);
    let last = newest(m.order, limit as int);
    lemma_recent_is(m, lo, n);
    assert(last =~= m.order.skip(lo));
    assert forall|i: int, j: int| 0 <= i < base.len() && 0 <= j < base.len() && i != j implies base[i]
        != base[j] by {
        assert(m.order[n - 1 - i] != m.order[n - 1 - j]);
    }
    assert forall|id: Seq<char>| #[trigger] base.contains(id) <==> last.contains(id) by {
        if base.contains(id) {
            let i = base.index_of(id);
            assert(last[n - 1 - i - lo] == id);
        }
        if last.contains(id) {
            let i = last.index_of(id);
            assert(base[n - 1 - lo - i] == id);
        }
    }
    let k = m.search_matches.len() as int;
    assert(m.search_matches.take(k) =~= m.search_matches);
    assert forall|id: Seq<char>| #[trigger] base.contains(id) implies m.calls.contains_key(id) by {
        let i = last.index_of(id);
        assert(m.order[lo + i] == id);
        assert(m.order.contains(id) <==> m.calls.contains_key(id));
    }
    if limit < usize::MAX {
        lemma_pins_are(m, base, row_cap(limit), k);
    } else {
        assert forall|id: Seq<char>| m.calls.contains_key(id) implies #[trigger] base.contains(id) by {
            assert(m.order.contains(id));
            assert(last =~= m.order);
        }
    }
}

/// A snapshot has one row for each of the calls that came last, at most `limit` of
/// them, and for each pinned call. The rows come with the newest first, and the
/// streams keep their limit.
pub proof fn a_snapshot_has_recent_and_pinned_calls<
    G: Fn(MediaStats, CodecParams, &Vec<Double>, &Vec<Double>) -> Quality,
    F: Fn(Double, Double) -> Double,
>(r: Registry, limit: usize, stream_limit: usize, gauge: &G, plus: &F, s: Snapshot)
    requires
        r.wf(),
        order_agrees(r@),
        r@.search_matches.no_duplicates(),
        r@.search_matches.len() <= SEARCH_PIN_MAX,
        shows(r, limit, stream_limit, gauge, plus, s),
    ensures
        forall|i: int, j: int|
            0 <= i < j < s.calls@.len() ==> (#[trigger] s.calls@[i]).call_id@ != (
            #[trigger] s.calls@[j]).call_id@,
        forall|i: int, j: int|
            0 <= i < j < s.calls@.len() ==> row_time(#[trigger] s.calls@[i]) >= row_time(
                #[trigger] s.calls@[j],
            ),
        forall|id: Seq<char>|
            (exists|i: int| 0 <= i < s.calls@.len() && (#[trigger] s.calls@[i]).call_id@ == id) <==> (
            #[trigger] newest(r@.order, limit as int).contains(id) || (r@.search_matches.contains(
                id,
            ) && r@.calls.contains_key(id))),
        s.streams@.len() <= stream_limit,
{
    let m = r@;
    let ids = listed_calls(m, limit);
    assert(m.order.len() == r.order.len());
    the_list_is_of_recent_and_pinned_calls(m, limit);
    let (live, imported) = choose|live: Seq<SummaryModel>, imported: Seq<SummaryModel>|
        {
            &&& #[trigger] lists_live(r, gauge, live)
            &&& #[trigger] lists_imported(m, imported)
            &&& shows_streams(m, limit, stream_limit, plus, live, imported, s)
        };
    let rows = s.calls@;
    assert(summaries(s.streams@).len() == s.streams@.len());
    let order = choose|order: Seq<usize>|
        {
            &&& #[trigger] sorts(order, age_ranks(m, ids))
            &&& rows.len() == ids.len()
            &&& forall|i: int|
                0 <= i < rows.len() ==> (#[trigger] rows[i])@ == row_of(
                    m.calls[ids[order[i] as int]],
                    live,
                    imported,
                )
        };
    let ranks = age_ranks(m, ids);
    lemma_order_covers(order, ranks);
    assert forall|i: int| 0 <= i < rows.len() implies (#[trigger] rows[i]).call_id@
        == ids[order[i] as int] by {
        let id = ids[order[i] as int];
        assert(ids.contains(id));
        assert(m.order.contains(id) <==> m.calls.contains_key(id));
        if newest(m.order, limit as int).contains(id) {
            let last = newest(m.order, limit as int);
            let k = last.index_of(id);
            assert(m.order[m.order.len() - last.len() + k] == id);
        }
        assert(m.calls.contains_key(id));
        assert(rows[i]@.call_id == m.calls[id].call_id);
    }
    assert forall|i: int, j: int| 0 <= i < j < rows.len() implies (#[trigger] rows[i]).call_id@ != (
    #[trigger] rows[j]).call_id@ by {
        assert(comes_first(ranks, order[i] as int, order[j] as int));
        assert(order[i] != order[j]);
    }
    assert forall|i: int, j: int| 0 <= i < j < rows.len() implies row_time(#[trigger] rows[i])
        >= row_time(#[trigger] rows[j]) by {
        newer_calls_come_first(m, ids, live, imported, rows, i, j);
    }
    assert forall|id: Seq<char>|
        (exists|i: int| 0 <= i < rows.len() && (#[trigger] rows[i]).call_id@ == id) <==> (
        #[trigger] newest(m.order, limit as int).contains(id) || (m.search_matches.contains(id)
            && m.calls.contains_key(id))) by {
        assert(ids.contains(id) <==> newest(m.order, limit as int).contains(id) || (
        m.search_matches.contains(id) && m.calls.contains_key(id)));
        if ids.contains(id) {
            let p = ids.index_of(id);
            assert(listed(order, p));
            let i = choose|i: int| 0 <= i < order.len() && #[trigger] order[i] == p;
            assert(rows[i].call_id@ == id);
        }
        if exists|i: int| 0 <= i < rows.len() && (#[trigger] rows[i]).call_id@ == id {
            let i = choose|i: int| 0 <= i < rows.len() && (#[trigger] rows[i]).call_id@ == id;
            assert(ids[order[i] as int] == id);
        }
    }
}

/// What a row tells of its call, field by field.
pub open spec fn row_tells(row: CallSummary, c: Call) -> bool {
    &&& row.call_id@ == c.call_id@
    &&& text_of(row.from_user) == text_of(c.from_user)
    &&& text_of(row.to_user) == text_of(c.to_user)
    &&& row.caller_ip == c.invite_key
    &&& row.caller_src == c.invite_src
    &&& row.state == c.state
    &&& row.outcome == c.outcome
    &&& row.invite_ts == c.invite_ts
    &&& row.duration_ms is Some <==> c.answer_ts is Some && c.end_ts is Some
    &&& c.answer_ts is Some && c.end_ts is Some && c.answer_ts->0 <= c.end_ts->0
        ==> row.duration_ms->0 * 1000 <= c.end_ts->0 - c.answer_ts->0 < row.duration_ms->0 * 1000
        + 1000
    &&& c.answer_ts is Some && c.end_ts is Some && c.answer_ts->0 > c.end_ts->0 ==> row.duration_ms
        == Some(0u64)
    &&& row.pdd_ms == c.pdd_ms
    &&& row.setup_ms == c.setup_ms
    &&& row.ring_ms == c.ring_ms
    &&& row.ring_code == c.ring_code
    &&& row.early_media == c.early_media
    &&& row.hangup_by == c.hangup_by
    &&& row.hangup_code == c.hangup.code
    &&& row.pkts_sip == c.pkts_sip
    &&& row.pkts_rtp >= c.pkts_rtp
    &&& row.warn_count == c.warn_count
    &&& row.critical_count == c.critical_count
    &&& row.via_turn == c.via_turn
    &&& row.ips@.no_duplicates()
    &&& forall|ip: IpAddr| #[trigger] row.ips@.contains(ip) <==> c.ips@.contains(ip)
}

/// Whether a stream is of a call.
pub open spec fn is_of_call(s: SummaryModel, id: Seq<char>) -> bool {
    s.call_id == Some(id) || (s.call_id is None && id.len() == 0)
}

/// What a row tells of the streams of its call: how many there are, that the packets
/// of the imported ones are added, and the lowest of their scores.
pub open spec fn row_tells_streams(
    row: CallSummary,
    c: Call,
    live: Seq<SummaryModel>,
    imported: Seq<SummaryModel>,
) -> bool {
    let mine = (live + imported).filter(|s: SummaryModel| is_of_call(s, row.call_id@));
    &&& row.stream_count == mine.len()
    &&& row.pkts_rtp == c.pkts_rtp + imported.filter(
        |s: SummaryModel| is_of_call(s, row.call_id@),
    ).map_values(|s: SummaryModel| s.packets as int).fold_left(0int, |a: int, b: int| a + b)
    &&& row.best_mos == least(
        mine.filter(|s: SummaryModel| s.mos is Some).map_values(|s: SummaryModel| s.mos->0),
    )
}

proof fn lemma_streams_of_call(list: Seq<SummaryModel>, id: Seq<char>)
    ensures
        ({
            let mine = list.filter(|s: SummaryModel| is_of_call(s, id));
            &&& streams_of(list, id) == mine.len()
            &&& packets_of(list, id) == mine.map_values(
                |s: SummaryModel| s.packets as int,
            ).fold_left(0int, |a: int, b: int| a + b)
            &&& scores(list, id) == mine.filter(|s: SummaryModel| s.mos is Some).map_values(
                |s: SummaryModel| s.mos->0,
            )
        }),
    decreases list.len(),
{
    reveal(Seq::filter);
    let is_mine = |s: SummaryModel| is_of_call(s, id);
    let scored = |s: SummaryModel| s.mos is Some;
    let score = |s: SummaryModel| s.mos->0;
    let packets = |s: SummaryModel| s.packets as int;
    let plus = |a: int, b: int| a + b;
    let mine = list.filter(is_mine);
    if list.len() > 0 {
        let rest = list.drop_last();
        let last = list.last();
        lemma_streams_of_call(rest, id);
        let old = rest.filter(is_mine);
        assert(Seq::<char>::empty() =~= id || id.len() > 0);
        assert(belongs(last, id) <==> is_of_call(last, id));
        if is_of_call(last, id) {
            assert(mine == old.push(last));
            let a = mine.map_values(packets);
            assert(a.drop_last() =~= old.map_values(packets));
            assert(mine.drop_last() =~= old);
            assert(mine.filter(scored) == if last.mos is Some {
                old.filter(scored).push(last)
            } else {
                old.filter(scored)
            });
            if last.mos is Some {
                assert(old.filter(scored).push(last).map_values(score) =~= old.filter(
                    scored,
                ).map_values(score).push(last.mos->0));
            }
        } else {
            assert(mine == old);
        }
        assert(scores(list, id) == mine.filter(scored).map_values(score));
    } else {
        assert(mine =~= Seq::empty());
        assert(mine.filter(scored) =~= Seq::empty());
        assert(mine.filter(scored).map_values(score) =~= Seq::<Double>::empty());
        assert(mine.map_values(packets) =~= Seq::<int>::empty());
    }
}

/// The listed calls are calls of the registry.
proof fn lemma_listed_are_calls(m: RegModel, limit: usize)
    ensures
        forall|i: int|
            0 <= i < listed_calls(m, limit).len() ==> m.calls.contains_key(
                #[trigger] listed_calls(m, limit)[i],
            ),
{
    let n = m.order.len() as int;
    lemma_recent(
        m,
        if n > limit {
            n - limit
        } else {
            0
        },
        n,
    );
    lemma_with_pins(m, window(m, limit), row_cap(limit), m.search_matches.len() as int);
}

/// Each row of a snapshot tells of its call what the registry holds: the parties, the
/// state and the outcome, the times, the codes and the counts, and of its streams
/// their number, their packets and the lowest score.
pub proof fn a_row_tells_of_its_call<
    G: Fn(MediaStats, CodecParams, &Vec<Double>, &Vec<Double>) -> Quality,
    F: Fn(Double, Double) -> Double,
>(r: Registry, limit: usize, stream_limit: usize, gauge: &G, plus: &F, s: Snapshot)
    requires
        r.wf(),
        shows(r, limit, stream_limit, gauge, plus, s),
    ensures
        forall|i: int|
            0 <= i < s.calls@.len() ==> {
                let row = #[trigger] s.calls@[i];
                &&& r.calls@.contains_key(row.call_id@)
                &&& row_tells(row, r.calls@[row.call_id@])
            },
        exists|live: Seq<SummaryModel>, imported: Seq<SummaryModel>|
            {
                &&& #[trigger] lists_live(r, gauge, live)
                &&& #[trigger] lists_imported(r@, imported)
                &&& forall|i: int|
                    0 <= i < s.calls@.len() ==> row_tells_streams(
                        #[trigger] s.calls@[i],
                        r.calls@[s.calls@[i].call_id@],
                        live,
                        imported,
                    )
            },
{
    let m = r@;
    let ids = listed_calls(m, limit);
    lemma_listed_are_calls(m, limit);
    let (live, imported) = choose|live: Seq<SummaryModel>, imported: Seq<SummaryModel>|
        {
            &&& #[trigger] lists_live(r, gauge, live)
            &&& #[trigger] lists_imported(m, imported)
            &&& shows_streams(m, limit, stream_limit, plus, live, imported, s)
        };
    let rows = s.calls@;
    let order = choose|order: Seq<usize>|
        {
            &&& #[trigger] sorts(order, age_ranks(m, ids))
            &&& rows.len() == ids.len()
            &&& forall|i: int|
                0 <= i < rows.len() ==> (#[trigger] rows[i])@ == row_of(
                    m.calls[ids[order[i] as int]],
                    live,
                    imported,
                )
        };
    assert forall|i: int| 0 <= i < rows.len() implies ({
        let row = #[trigger] rows[i];
        &&& r.calls@.contains_key(row.call_id@)
        &&& row_tells(row, r.calls@[row.call_id@])
        &&& row_tells_streams(row, r.calls@[row.call_id@], live, imported)
    }) by {
        let id = ids[order[i] as int];
        assert(m.calls.contains_key(id));
        let row = rows[i];
        let c = r.calls@[id];
        assert(m.calls[id] == c@);
        assert(row@ == row_of(c@, live, imported));
        assert(c@.call_id == id);
        lemma_distinct(c@.ips);
        assert forall|ip: IpAddr| #[trigger] row.ips@.contains(ip) <==> c.ips@.contains(ip) by {
            assert(row.ips@.to_set().contains(ip) <==> c.ips@.to_set().contains(ip));
        }
        lemma_streams_of_call(live + imported, id);
        lemma_streams_of_call(imported, id);
        lemma_packets_nonneg(imported, id);
    }
    assert(lists_live(r, gauge, live) && lists_imported(r@, imported));
}

proof fn lemma_packets_nonneg(list: Seq<SummaryModel>, id: Seq<char>)
    ensures
        packets_of(list, id) >= 0,
    decreases list.len(),
{
    if list.len() > 0 {
        lemma_packets_nonneg(list.drop_last(), id);
    }
}

proof fn lemma_counted(m: RegModel, ids: Seq<Seq<char>>, p: spec_fn(CallModel) -> bool)
    ensures
        count_calls(m, ids, p) == ids.filter(|id: Seq<char>| p(m.calls[id])).len(),
    decreases ids.len(),
{
    reveal(Seq::filter);
    if ids.len() > 0 {
        lemma_counted(m, ids.drop_last(), p);
    }
}

/// The listed calls that stand at one of some states.
pub open spec fn listed_at(r: Registry, limit: usize, states: Set<CallState>) -> Seq<Seq<char>> {
    listed_calls(r@, limit).filter(|id: Seq<char>| states.contains(r.calls@[id].state))
}

proof fn lemma_counted_at(
    r: Registry,
    limit: usize,
    states: Set<CallState>,
    p: spec_fn(CallModel) -> bool,
)
    requires
        forall|c: CallModel| #[trigger] p(c) <==> states.contains(c.state),
    ensures
        count_calls(r@, listed_calls(r@, limit), p) == listed_at(r, limit, states).len(),
{
    let ids = listed_calls(r@, limit);
    lemma_listed_are_calls(r@, limit);
    lemma_counted(r@, ids, p);
    lemma_same_filter(
        ids,
        |id: Seq<char>| p(r@.calls[id]),
        |id: Seq<char>| states.contains(r.calls@[id].state),
    );
}

proof fn lemma_same_filter<T>(s: Seq<T>, p: spec_fn(T) -> bool, q: spec_fn(T) -> bool)
    requires
        forall|i: int| 0 <= i < s.len() ==> p(#[trigger] s[i]) == q(s[i]),
    ensures
        s.filter(p) == s.filter(q),
    decreases s.len(),
{
    reveal(Seq::filter);
    if s.len() > 0 {
        let t = s.drop_last();
        assert forall|i: int| 0 <= i < t.len() implies p(#[trigger] t[i]) == q(t[i]) by {
            assert(t[i] == s[i]);
        }
        lemma_same_filter(t, p, q);
        assert(p(s[s.len() - 1]) == q(s[s.len() - 1]));
    }
}

/// A snapshot tells what the registry counts, how many of the listed calls are in
/// progress, completed and failed, and the share of completed calls among those and
/// the ones that are over.
pub proof fn a_snapshot_tells_what_is_counted<
    G: Fn(MediaStats, CodecParams, &Vec<Double>, &Vec<Double>) -> Quality,
    F: Fn(Double, Double) -> Double,
>(r: Registry, limit: usize, stream_limit: usize, gauge: &G, plus: &F, s: Snapshot)
    requires
        shows(r, limit, stream_limit, gauge, plus, s),
    ensures
        s.source@ == r.source@,
        s.start_us == r.start_us,
        s.tz_offset_secs == r.tz_offset_secs,
        s.pps == r.pps,
        s.pkts_total == r.pkts_total,
        s.pkts_dropped == r.pkts_dropped,
        s.elapsed_us is Some <==> r.start_us is Some && r.last_us is Some,
        s.elapsed_us is Some && r.start_us->0 <= r.last_us->0 ==> r.start_us->0 + s.elapsed_us->0
            == r.last_us->0,
        s.elapsed_us is Some && r.start_us->0 > r.last_us->0 ==> s.elapsed_us->0 == 0,
        s.active == listed_at(
            r,
            limit,
            set![CallState::Dialing, CallState::Ringing, CallState::Active],
        ).len(),
        s.completed == listed_at(r, limit, set![CallState::Completed]).len(),
        s.failed == listed_at(r, limit, set![CallState::Failed, CallState::Canceled]).len(),
        r.completed + r.failed + s.active <= u64::MAX ==> s.asr.part == r.completed && s.asr.whole
            == r.completed + r.failed + s.active,
        s.calls_total >= r.completed + r.failed + s.active,
        s.calls_total >= r@.calls.dom().len(),
        s.calls_total == r.completed + r.failed + s.active || s.calls_total == r@.calls.dom().len(),
        texts(s.events@) == texts(r.events@),
        s.diagnostics@.map_values(|d: Diagnostic| d@) == r.diagnostics@.map_values(
            |d: Diagnostic| d@,
        ),
        !s.paused,
{
    lemma_counted_at(
        r,
        limit,
        set![CallState::Dialing, CallState::Ringing, CallState::Active],
        |c: CallModel| in_progress(c),
    );
    lemma_counted_at(r, limit, set![CallState::Completed], |c: CallModel| done(c));
    lemma_counted_at(
        r,
        limit,
        set![CallState::Failed, CallState::Canceled],
        |c: CallModel| lost(c),
    );
}

proof fn lemma_total(m: RegModel, ids: Seq<Seq<char>>, f: spec_fn(CallModel) -> Option<u32>)
    ensures
        total_of(m, ids, f).0 == ids.map_values(
            |id: Seq<char>| if f(m.calls[id]) is Some {
                f(m.calls[id])->0 as int
            } else {
                0
            },
        ).fold_left(0int, |a: int, b: int| a + b),
        total_of(m, ids, f).1 == ids.filter(|id: Seq<char>| f(m.calls[id]) is Some).len(),
    decreases ids.len(),
{
    reveal(Seq::filter);
    let g = |id: Seq<char>| if f(m.calls[id]) is Some {
        f(m.calls[id])->0 as int
    } else {
        0
    };
    if ids.len() > 0 {
        lemma_total(m, ids.drop_last(), f);
        assert(ids.map_values(g).drop_last() =~= ids.drop_last().map_values(g));
    } else {
        assert(ids.map_values(g) =~= Seq::<int>::empty());
    }
}

/// The post-dial delays and the setup times are added up over all calls, each call
/// once, and only those count that have one.
pub proof fn delays_are_added_up_over_all_calls(m: RegModel, pdd: Total, setup: Total)
    requires
        totals_of(m, pdd, setup),
    ensures
        exists|ids: Seq<Seq<char>>|
            {
                &&& #[trigger] each_once(ids, m.calls.dom())
                &&& pdd.n == ids.filter(|id: Seq<char>| m.calls[id].pdd_ms is Some).len()
                &&& setup.n == ids.filter(|id: Seq<char>| m.calls[id].setup_ms is Some).len()
                &&& pdd.sum == ids.map_values(
                    |id: Seq<char>| if m.calls[id].pdd_ms is Some {
                        m.calls[id].pdd_ms->0 as int
                    } else {
                        0
                    },
                ).fold_left(0int, |a: int, b: int| a + b)
                &&& setup.sum == ids.map_values(
                    |id: Seq<char>| if m.calls[id].setup_ms is Some {
                        m.calls[id].setup_ms->0 as int
                    } else {
                        0
                    },
                ).fold_left(0int, |a: int, b: int| a + b)
            },
{
    let ids = choose|ids: Seq<Seq<char>>|
        {
            &&& #[trigger] each_once(ids, m.calls.dom())
            &&& (pdd.sum as int, pdd.n as int) == total_of(m, ids, pdd_given())
            &&& (setup.sum as int, setup.n as int) == total_of(m, ids, setup_given())
        };
    lemma_total(m, ids, pdd_given());
    lemma_total(m, ids, setup_given());
    let f = pdd_given();
    let g = setup_given();
    lemma_same_filter(
        ids,
        |id: Seq<char>| f(m.calls[id]) is Some,
        |id: Seq<char>| m.calls[id].pdd_ms is Some,
    );
    lemma_same_filter(
        ids,
        |id: Seq<char>| g(m.calls[id]) is Some,
        |id: Seq<char>| m.calls[id].setup_ms is Some,
    );
    assert(ids.map_values(
        |id: Seq<char>| if f(m.calls[id]) is Some {
            f(m.calls[id])->0 as int
        } else {
            0
        },
    ) =~= ids.map_values(
        |id: Seq<char>| if m.calls[id].pdd_ms is Some {
            m.calls[id].pdd_ms->0 as int
        } else {
            0
        },
    ));
    assert(ids.map_values(
        |id: Seq<char>| if g(m.calls[id]) is Some {
            g(m.calls[id])->0 as int
        } else {
            0
        },
    ) =~= ids.map_values(
        |id: Seq<char>| if m.calls[id].setup_ms is Some {
            m.calls[id].setup_ms->0 as int
        } else {
            0
        },
    ));
    assert(each_once(ids, m.calls.dom()));
}

proof fn lemma_given(list: Seq<SummaryModel>, f: spec_fn(SummaryModel) -> Option<Double>)
    ensures
        given(list, f) == list.filter(|s: SummaryModel| f(s) is Some).map_values(
            |s: SummaryModel| f(s)->0,
        ),
    decreases list.len(),
{
    reveal(Seq::filter);
    let p = |s: SummaryModel| f(s) is Some;
    let v = |s: SummaryModel| f(s)->0;
    if list.len() > 0 {
        lemma_given(list.drop_last(), f);
        let old = list.drop_last().filter(p);
        if p(list.last()) {
            assert(list.filter(p) == old.push(list.last()));
            assert(old.push(list.last()).map_values(v) =~= old.map_values(v).push(v(list.last())));
        }
    } else {
        assert(list.filter(p).map_values(v) =~= Seq::<Double>::empty());
    }
}

/// Whether a sum is of the values that some streams have, in their order.
pub open spec fn adds_up<F: Fn(Double, Double) -> Double>(
    plus: &F,
    streams: Seq<SummaryModel>,
    value: spec_fn(SummaryModel) -> Double,
    s: Sum,
) -> bool {
    s.n == streams.len() && chain(plus, streams.map_values(value), s.total)
}

/// The jitter, the loss, the round-trip times and the scores are added up over all
/// streams that have one, each from its own field.
pub proof fn stream_values_are_added_up<F: Fn(Double, Double) -> Double>(
    plus: &F,
    list: Seq<SummaryModel>,
    s: StreamSums,
)
    requires
        sums_of(plus, list, s),
    ensures
        adds_up(
            plus,
            list.filter(|x: SummaryModel| x.jitter_ms is Some),
            |x: SummaryModel| x.jitter_ms->0,
            s.jitter_ms,
        ),
        adds_up(plus, list, |x: SummaryModel| x.loss_pct, s.loss_pct),
        adds_up(
            plus,
            list.filter(|x: SummaryModel| x.rtt_avg_ms is Some),
            |x: SummaryModel| x.rtt_avg_ms->0,
            s.rtt_ms,
        ),
        adds_up(
            plus,
            list.filter(|x: SummaryModel| x.mos is Some),
            |x: SummaryModel| x.mos->0,
            s.mos,
        ),
{
    lemma_given_as(list, jitter_given(), |x: SummaryModel| x.jitter_ms is Some, |x: SummaryModel| x.jitter_ms->0);
    lemma_given_as(list, loss_given(), |x: SummaryModel| true, |x: SummaryModel| x.loss_pct);
    lemma_given_as(list, rtt_given(), |x: SummaryModel| x.rtt_avg_ms is Some, |x: SummaryModel| x.rtt_avg_ms->0);
    lemma_given_as(list, mos_given(), |x: SummaryModel| x.mos is Some, |x: SummaryModel| x.mos->0);
    lemma_filter_all(list, |x: SummaryModel| true);
}

proof fn lemma_given_as(
    list: Seq<SummaryModel>,
    f: spec_fn(SummaryModel) -> Option<Double>,
    p: spec_fn(SummaryModel) -> bool,
    v: spec_fn(SummaryModel) -> Double,
)
    requires
        forall|x: SummaryModel| #[trigger] p(x) <==> f(x) is Some,
        forall|x: SummaryModel| p(x) ==> #[trigger] v(x) == f(x)->0,
    ensures
        given(list, f) == list.filter(p).map_values(v),
{
    lemma_given(list, f);
    let q = |x: SummaryModel| f(x) is Some;
    lemma_same_filter(list, q, p);
    let some = list.filter(p);
    lemma_filter_holds(list, p);
    assert(some.map_values(|x: SummaryModel| f(x)->0) =~= some.map_values(v));
}

proof fn lemma_filter_holds<T>(s: Seq<T>, p: spec_fn(T) -> bool)
    ensures
        forall|i: int| 0 <= i < s.filter(p).len() ==> p(#[trigger] s.filter(p)[i]),
    decreases s.len(),
{
    reveal(Seq::filter);
    if s.len() > 0 {
        lemma_filter_holds(s.drop_last(), p);
    }
}

proof fn lemma_filter_all<T>(s: Seq<T>, p: spec_fn(T) -> bool)
    requires
        forall|x: T| #[trigger] p(x),
    ensures
        s.filter(p) == s,
    decreases s.len(),
{
    reveal(Seq::filter);
    if s.len() > 0 {
        lemma_filter_all(s.drop_last(), p);
        assert(p(s.last()));
        assert(s.drop_last().push(s.last()) =~= s);
    } else {
        assert(s.filter(p) =~= s);
    }
}

/// A snapshot shows the streams, first the live ones and then the imported ones, as
/// many of them as it may, and adds the values of all of them up.
pub proof fn a_snapshot_shows_live_streams_first<
    G: Fn(MediaStats, CodecParams, &Vec<Double>, &Vec<Double>) -> Quality,
    F: Fn(Double, Double) -> Double,
>(r: Registry, limit: usize, stream_limit: usize, gauge: &G, plus: &F, s: Snapshot)
    requires
        shows(r, limit, stream_limit, gauge, plus, s),
    ensures
        exists|live: Seq<SummaryModel>, imported: Seq<SummaryModel>|
            {
                let all = live + imported;
                &&& #[trigger] lists_live(r, gauge, live)
                &&& #[trigger] lists_imported(r@, imported)
                &&& s.streams@.len() == if all.len() < stream_limit {
                    all.len() as int
                } else {
                    stream_limit as int
                }
                &&& forall|i: int| 0 <= i < s.streams@.len() ==> (#[trigger] s.streams@[i])@ == all[i]
                &&& s.loss_pct.n == all.len()
                &&& s.jitter_ms.n == all.filter(|x: SummaryModel| x.jitter_ms is Some).len()
                &&& s.rtt_ms.n == all.filter(|x: SummaryModel| x.rtt_avg_ms is Some).len()
                &&& s.mos.n == all.filter(|x: SummaryModel| x.mos is Some).len()
            },
{
    let (live, imported) = choose|live: Seq<SummaryModel>, imported: Seq<SummaryModel>|
        {
            &&& #[trigger] lists_live(r, gauge, live)
            &&& #[trigger] lists_imported(r@, imported)
            &&& shows_streams(r@, limit, stream_limit, plus, live, imported, s)
        };
    let all = live + imported;
    let sums = StreamSums {
        jitter_ms: s.jitter_ms,
        loss_pct: s.loss_pct,
        rtt_ms: s.rtt_ms,
        mos: s.mos,
    };
    stream_values_are_added_up(plus, all, sums);
    let shown = first(all, stream_limit as int);
    assert(summaries(s.streams@) == shown);
    assert(summaries(s.streams@).len() == s.streams@.len());
    assert forall|i: int| 0 <= i < s.streams@.len() implies (#[trigger] s.streams@[i])@ == all[i] by {
        assert(summaries(s.streams@)[i] == s.streams@[i]@);
        assert(shown[i] == all[i]);
    }
    assert(lists_live(r, gauge, live) && lists_imported(r@, imported));
}

} // verus!
