//! What the records of an event log do to the state of the monitor.
use crate::digits::{dec, hex, push_dec, push_hex};
use crate::double::Double;
use crate::model::diag::{DiagModel, Diagnostic, Severity};
use crate::model::media::{StreamSummary, SummaryModel};
use crate::model::sip::{CallModel, SipMsg};
use crate::model::stats::MetricSet;
use crate::store::index::{agrees, an_import_keeps_agreement, lemma_same_parts};
use crate::store::registry::{
    gain_fits, gain_of, with_event, with_imported, with_snap, RegModel, Registry, MAX_EVENTS,
};
use crate::store::ring::newest;
use vstd::prelude::*;
use vstd::string::StringExecFns;

verus! {

/// A measured round-trip time.
pub struct RttSample {
    /// The call that it belongs to.
    pub call_id: String,
    /// The synchronization source.
    pub ssrc: u32,
    /// The round-trip time in milliseconds.
    pub rtt_ms: Double,
    /// The one-way delay in milliseconds.
    pub oneway_ms: Option<Double>,
}

/// One cell of the heatmap.
pub struct HealthBucket {
    /// When its slice of time begins, in microseconds.
    pub bucket_us: u64,
    /// What it is about.
    pub key: String,
    /// The metrics.
    pub metrics: MetricSet,
}

/// A finding as it is recorded.
pub struct Finding {
    /// Capture time in microseconds.
    pub ts_us: u64,
    /// The call that it is about; empty where no call is known.
    pub call_id: String,
    /// How grave it is: 0 for information, 1 for a warning, more for a
    /// critical finding.
    pub severity: u8,
    /// What kind of finding it is.
    pub code: String,
    /// The finding in words.
    pub message: String,
}

/// One record of an event log.
pub enum Record {
    /// A SIP message.
    Message(SipMsg),
    /// What a stream amounted to.
    Stream(StreamSummary),
    /// A round-trip time.
    Rtt(RttSample),
    /// A cell of the heatmap.
    Bucket(HealthBucket),
    /// A finding.
    Finding(Finding),
    /// A record of another kind, or one that cannot be read.
    Other,
}

impl Severity {
    /// The severity that a record writes as a number.
    pub open spec fn spec_of(n: u8) -> Severity {
        if n == 0 {
            Severity::Info
        } else if n == 1 {
            Severity::Warn
        } else {
            Severity::Critical
        }
    }

    /// The severity that a record writes as a number.
    pub fn of(n: u8) -> (r: Severity)
        ensures
            r == Severity::spec_of(n),
    {
        if n == 0 {
            Severity::Info
        } else if n == 1 {
            Severity::Warn
        } else {
            Severity::Critical
        }
    }
}

impl Finding {
    /// The finding that a record describes.
    pub open spec fn meaning(self) -> DiagModel {
        DiagModel {
            ts_us: self.ts_us,
            call_id: self.call_id@,
            severity: Severity::spec_of(self.severity),
            code: self.code@,
            message: self.message@,
        }
    }

    /// The finding that a record describes.
    pub fn read(&self) -> (r: Diagnostic)
        ensures
            r@ == self.meaning(),
    {
        Diagnostic {
            ts_us: self.ts_us,
            call_id: self.call_id.clone(),
            severity: Severity::of(self.severity),
            code: self.code.clone(),
            message: self.message.clone(),
        }
    }
}

/// The event line of a stream that lost packets; `pct` is its loss in percent
/// as text.
pub open spec fn stream_line(s: SummaryModel, pct: Seq<char>) -> Seq<char> {
    let call_id = match s.call_id {
        Some(c) => c,
        None => Seq::empty(),
    };
    "stream "@ + call_id + " ssrc=0x"@ + hex(s.ssrc as nat) + " pkts="@ + dec(s.packets as nat)
        + " loss="@ + pct + "%"@
}

/// The event line of a finding.
pub open spec fn finding_line(f: Finding) -> Seq<char> {
    "["@ + dec(f.severity as nat) + "] "@ + f.code@ + " "@ + f.message@
}

/// A call with a finding of some severity counted.
pub open spec fn with_count(c: CallModel, s: Severity) -> CallModel {
    match s {
        Severity::Info => c,
        Severity::Warn => CallModel { warn_count: c.warn_count + 1, ..c },
        Severity::Critical => CallModel { critical_count: c.critical_count + 1, ..c },
    }
}

/// What a finding does to a registry: it is counted with its call, and kept.
/// The oldest finding goes where there are too many.
pub open spec fn with_finding(m: RegModel, d: DiagModel) -> RegModel {
    RegModel {
        calls: if m.calls.contains_key(d.call_id) {
            m.calls.insert(d.call_id, with_count(m.calls[d.call_id], d.severity))
        } else {
            m.calls
        },
        diagnostics: newest(m.diagnostics.push(d), m.max_diagnostics as int),
        ..m
    }
}

/// Whether the call of a finding can count it.
pub open spec fn finding_fits(m: RegModel, d: DiagModel) -> bool {
    m.calls.contains_key(d.call_id) ==> {
        let c = with_count(m.calls[d.call_id], d.severity);
        c.warn_count <= u32::MAX && c.critical_count <= u32::MAX
    }
}

/// Whether a registry can take in a record.
pub open spec fn record_fits(m: RegModel, record: Record) -> bool {
    match record {
        Record::Stream(s) => s.flow matches Some(f) ==> gain_fits(m.ipstats, f, gain_of(m, s@)),
        Record::Finding(f) => finding_fits(m, f.meaning()),
        _ => true,
    }
}

/// Whether `next` is a registry with a record taken in. A stream is imported,
/// with an event line where it lost packets; a finding is kept and counted,
/// with an event line. Other records leave the registry as it is.
pub open spec fn replayed<P: Fn(Double) -> String>(
    m: RegModel,
    ts_us: u64,
    record: Record,
    percent: &P,
    next: RegModel,
) -> bool {
    match record {
        Record::Stream(s) => if s.lost > 0 {
            exists|pct: String| #[trigger]
                call_ensures(percent, (s.loss_pct,), pct) && next == with_snap(
                    with_event(m, stream_line(s@, pct@)),
                    ts_us,
                    s@,
                )
        } else {
            next == with_snap(m, ts_us, s@)
        },
        Record::Finding(f) => next == with_finding(with_event(m, finding_line(f)), f.meaning()),
        _ => next == m,
    }
}

fn describe_stream(s: &StreamSummary, pct: &String) -> (r: String)
    ensures
        r@ == stream_line(s@, pct@),
{
    let mut r: String = String::new();
    r.append("stream ");
    assert(r@ =~= "stream "@);
    if let Some(c) = &s.call_id {
        r.append(c.as_str());
    }
    r.append(" ssrc=0x");
    push_hex(&mut r, s.ssrc as u64);
    r.append(" pkts=");
    push_dec(&mut r, s.packets);
    r.append(" loss=");
    r.append(pct.as_str());
    r.append("%");
    assert(r@ =~= stream_line(s@, pct@));
    r
}

fn describe_finding(f: &Finding) -> (r: String)
    ensures
        r@ == finding_line(*f),
{
    let mut r: String = String::new();
    r.append("[");
    assert(r@ =~= "["@);
    push_dec(&mut r, f.severity as u64);
    r.append("] ");
    r.append(f.code.as_str());
    r.append(" ");
    r.append(f.message.as_str());
    r
}

impl Registry {
    /// Keeps a finding and counts it with its call. The oldest finding goes
    /// where there are too many.
    pub fn push_finding(&mut self, d: Diagnostic)
        requires
            finding_fits(old(self)@, d@),
        ensures
            final(self)@ == with_finding(old(self)@, d@),
    {
        let ghost m = self@;
        let ghost dm = d@;
        if let Some(c) = self.calls.get_mut(&d.call_id) {
            match d.severity {
                Severity::Critical => {
                    c.critical_count += 1;
                },
                Severity::Warn => {
                    c.warn_count += 1;
                },
                Severity::Info => {},
            }
        }
        assert(self@.calls =~= with_finding(m, dm).calls);
        let ghost mid = *self;
        self.diagnostics.push_back(d);
        let ghost all = self.diagnostics@;
        while self.diagnostics.len() > self.max_diagnostics
            invariant
                self.diagnostics@.len() <= all.len(),
                self.diagnostics@ == all.skip(all.len() - self.diagnostics@.len()),
                all.len() > mid.max_diagnostics ==> self.diagnostics@.len() >= mid.max_diagnostics,
                all.len() <= mid.max_diagnostics ==> self.diagnostics@ == all,
                *self == (Registry { diagnostics: self.diagnostics, ..mid }),
            decreases self.diagnostics@.len(),
        {
            self.diagnostics.pop_front();
        }
        assert(self.diagnostics@ =~= newest(all, mid.max_diagnostics as int));
        assert(self@.diagnostics =~= newest(m.diagnostics.push(dm), m.max_diagnostics as int));
        assert(self@ =~= with_finding(m, dm));
    }
}

/// What is left to do with a record once the registry has taken it in.
pub enum Onward {
    /// Nothing.
    Nothing,
    /// To sort a SIP message into its call.
    Message(SipMsg),
    /// To count a stream in the statistics of the session.
    Stream(StreamSummary),
    /// To count a round-trip time in the statistics of the session.
    Rtt(RttSample),
}

/// Whether `r` is what is left to do with a record.
pub open spec fn hands_on(record: Record, r: Onward) -> bool {
    match record {
        Record::Message(m) => r == Onward::Message(m),
        Record::Stream(s) => r matches Onward::Stream(x) && x@ == s@,
        Record::Rtt(t) => r == Onward::Rtt(t),
        _ => r == Onward::Nothing,
    }
}

/// Takes in one record of an event log. What others have to do with it is handed
/// back: SIP messages are not sorted in here, and streams and round-trip times
/// also count in the statistics of the session. `percent` writes a percentage.
pub fn replay_apply<P: Fn(Double) -> String>(
    reg: &mut Registry,
    ts_us: u64,
    record: Record,
    percent: &P,
) -> (r: Onward)
    requires
        old(reg).wf(),
        record_fits(old(reg)@, record),
        forall|d: Double| call_requires(percent, (d,)),
    ensures
        replayed(old(reg)@, ts_us, record, percent, final(reg)@),
        final(reg).wf(),
        hands_on(record, r),
{
    match record {
        Record::Message(m) => Onward::Message(m),
        Record::Stream(s) => {
            let copy = s.clone();
            if s.lost > 0 {
                let pct = percent(s.loss_pct);
                reg.push_event(describe_stream(&s, &pct));
                assert(call_ensures(percent, (s.loss_pct,), pct));
            }
            reg.import_stream_snap(ts_us, s);
            Onward::Stream(copy)
        },
        Record::Rtt(t) => Onward::Rtt(t),
        Record::Finding(f) => {
            reg.push_event(describe_finding(&f));
            reg.push_finding(f.read());
            Onward::Nothing
        },
        _ => Onward::Nothing,
    }
}

/// However much is replayed, no more event lines and findings are kept than
/// the limits allow, and the newest are among them.
pub proof fn what_is_kept_stays_bounded(m: RegModel, line: Seq<char>, d: DiagModel)
    ensures
        with_event(m, line).events.len() <= MAX_EVENTS,
        with_event(m, line).events.last() == line,
        with_finding(m, d).diagnostics.len() <= m.max_diagnostics,
        m.max_diagnostics > 0 ==> with_finding(m, d).diagnostics.last() == d,
{
}

/// A finding about a call is counted with that call and with no other.
pub proof fn a_finding_is_counted_with_its_call(m: RegModel, d: DiagModel, id: Seq<char>)
    requires
        m.calls.contains_key(id),
    ensures
        with_finding(m, d).calls.dom() == m.calls.dom(),
        with_finding(m, d).calls[id] == if id == d.call_id {
            with_count(m.calls[id], d.severity)
        } else {
            m.calls[id]
        },
{
    assert(with_finding(m, d).calls.dom() =~= m.calls.dom());
}

/// A record keeps a registry in agreement.
pub proof fn a_record_keeps_agreement<P: Fn(Double) -> String>(
    m: RegModel,
    ts_us: u64,
    record: Record,
    percent: &P,
    next: RegModel,
)
    requires
        agrees(m),
        replayed(m, ts_us, record, percent, next),
    ensures
        agrees(next),
{
    match record {
        Record::Stream(s) => {
            let told = if s.lost > 0 {
                let pct = choose|pct: String| #[trigger]
                    call_ensures(percent, (s.loss_pct,), pct) && next == with_snap(
                        with_event(m, stream_line(s@, pct@)),
                        ts_us,
                        s@,
                    );
                with_event(m, stream_line(s@, pct@))
            } else {
                m
            };
            lemma_same_parts(m, told);
            a_snap_keeps_agreement(told, ts_us, s@);
        },
        Record::Finding(_) => {
            assert(next.calls.dom() =~= m.calls.dom());
            lemma_same_parts(m, next);
        },
        _ => {},
    }
}

/// The record of a stream keeps a registry in agreement.
pub proof fn a_snap_keeps_agreement(m: RegModel, ts_us: u64, s: SummaryModel)
    requires
        agrees(m),
    ensures
        agrees(with_snap(m, ts_us, s)),
{
    let later = RegModel { last_us: with_snap(m, ts_us, s).last_us, ..m };
    lemma_same_parts(m, later);
    an_import_keeps_agreement(later, s);
    lemma_same_parts(with_imported(later, s), with_snap(m, ts_us, s));
}

/// A finding in a record is the same finding, with its severity by its number: 0 for
/// information, 1 for a warning, and anything else is critical.
pub proof fn a_finding_means_what_it_says(f: Finding)
    ensures
        ({
            let d = f.meaning();
            &&& d.ts_us == f.ts_us && d.call_id == f.call_id@
            &&& d.code == f.code@ && d.message == f.message@
            &&& d.severity == Severity::Info <==> f.severity == 0
            &&& d.severity == Severity::Warn <==> f.severity == 1
            &&& d.severity == Severity::Critical <==> f.severity >= 2
        }),
{
}

/// A finding comes last in the list, which keeps its limit. It counts as a warning or
/// as critical with the call that it names, and other calls are left alone.
pub proof fn a_finding_is_listed_and_counted(m: RegModel, d: DiagModel, other: Seq<char>)
    requires
        m.max_diagnostics >= 1,
        m.diagnostics.len() <= m.max_diagnostics,
    ensures
        ({
            let n = with_finding(m, d);
            let id = d.call_id;
            &&& n.diagnostics.len() > 0 && n.diagnostics.last() == d
            &&& m.diagnostics.len() < m.max_diagnostics ==> n.diagnostics.drop_last() == m.diagnostics
            &&& m.diagnostics.len() == m.max_diagnostics ==> n.diagnostics.drop_last()
                == m.diagnostics.drop_first()
            &&& m.calls.contains_key(id) ==> {
                &&& n.calls.contains_key(id)
                &&& n.calls[id].warn_count == m.calls[id].warn_count + if d.severity == Severity::Warn {
                    1int
                } else {
                    0
                }
                &&& n.calls[id].critical_count == m.calls[id].critical_count + if d.severity
                    == Severity::Critical {
                    1int
                } else {
                    0
                }
                &&& n.calls[id].state == m.calls[id].state && n.calls[id].outcome
                    == m.calls[id].outcome
            }
            &&& !m.calls.contains_key(id) ==> n.calls == m.calls
            &&& other != id ==> (n.calls.contains_key(other) <==> m.calls.contains_key(other))
            &&& other != id && m.calls.contains_key(other) ==> n.calls[other] == m.calls[other]
            &&& n.order == m.order && n.streams == m.streams && n.events == m.events
        }),
{
    let n = with_finding(m, d);
    if m.diagnostics.len() < m.max_diagnostics {
        assert(n.diagnostics.drop_last() =~= m.diagnostics);
    } else {
        assert(n.diagnostics.drop_last() =~= m.diagnostics.drop_first());
    }
}

/// What replaying a record does, by its kind: a stream is taken in and, where it lost
/// packets, named in an event line; a finding is listed after its line; all others
/// change nothing. Messages, streams and round-trip times are handed on.
pub proof fn a_record_is_replayed_by_its_kind<P: Fn(Double) -> String>(
    m: RegModel,
    ts_us: u64,
    record: Record,
    percent: &P,
    next: RegModel,
    on: Onward,
)
    requires
        replayed(m, ts_us, record, percent, next),
        hands_on(record, on),
    ensures
        record matches Record::Message(x) ==> next == m && on == Onward::Message(x),
        record matches Record::Rtt(x) ==> next == m && on == Onward::Rtt(x),
        record is Bucket || record is Other ==> next == m && on is Nothing,
        record matches Record::Stream(s) ==> {
            &&& on matches Onward::Stream(x) && x@ == s@
            &&& s.lost == 0 ==> next == with_snap(m, ts_us, s@)
            &&& s.lost > 0 ==> exists|pct: String|
                {
                    let id = if s.call_id is Some {
                        s.call_id->0@
                    } else {
                        Seq::empty()
                    };
                    &&& #[trigger] call_ensures(percent, (s.loss_pct,), pct)
                    &&& next == with_snap(
                        with_event(
                            m,
                            "stream "@ + id + " ssrc=0x"@ + hex(s.ssrc as nat) + " pkts="@ + dec(
                                s.packets as nat,
                            ) + " loss="@ + pct@ + "%"@,
                        ),
                        ts_us,
                        s@,
                    )
                }
        },
        record matches Record::Finding(f) ==> {
            &&& on is Nothing
            &&& next == with_finding(
                with_event(m, "["@ + dec(f.severity as nat) + "] "@ + f.code@ + " "@ + f.message@),
                f.meaning(),
            )
        },
{
}

} // verus!
