//! A snapshot from the records of an event log.
use crate::model::diag::{DiagModel, Diagnostic};
use crate::model::media::StreamSummary;
use crate::model::sip::SipMsg;
use crate::model::stats::MetricSet;
use crate::session::replay::Record;
use crate::store::snapshot::Snapshot;
use vstd::prelude::*;

verus! {

/// Whether a capture time in microseconds lies between two times in seconds,
/// both included; a side without a bound is open.
pub open spec fn is_between(ts_us: u64, from: Option<u64>, to: Option<u64>) -> bool {
    &&& from matches Some(f) ==> ts_us >= f * 1_000_000
    &&& to matches Some(t) ==> ts_us <= t * 1_000_000
}

/// Whether a capture time in microseconds lies between two times in seconds,
/// both included; a side without a bound is open.
pub fn in_range(ts_us: u64, from: Option<u64>, to: Option<u64>) -> (r: bool)
    ensures
        r == is_between(ts_us, from, to),
{
    let late = match from {
        Some(f) => ts_us as u128 >= f as u128 * 1_000_000,
        None => true,
    };
    let early = match to {
        Some(t) => ts_us as u128 <= t as u128 * 1_000_000,
        None => true,
    };
    late && early
}

/// What the records of an event log add to a snapshot.
pub struct Extras {
    /// Streams.
    pub streams: Vec<StreamSummary>,
    /// Findings.
    pub diagnostics: Vec<Diagnostic>,
    /// Heatmap cells.
    pub buckets: Vec<(u64, String, MetricSet)>,
}

/// Findings in mathematical terms.
pub open spec fn findings(v: Seq<Diagnostic>) -> Seq<DiagModel> {
    v.map_values(|d: Diagnostic| d@)
}

/// Whether `next` is what a record adds to some extras. Records count within a
/// range of time.
pub open spec fn gathered(e: Extras, record: Record, within: bool, next: Extras) -> bool {
    &&& next.streams@ == match record {
        Record::Stream(s) if within => e.streams@.push(s),
        _ => e.streams@,
    }
    &&& findings(next.diagnostics@) == match record {
        Record::Finding(f) if within => findings(e.diagnostics@).push(f.meaning()),
        _ => findings(e.diagnostics@),
    }
    &&& next.buckets@ == match record {
        Record::Bucket(b) if within => e.buckets@.push((b.bucket_us, b.key, b.metrics)),
        _ => e.buckets@,
    }
}

impl Extras {
    /// Nothing to add.
    pub fn new() -> (r: Extras)
        ensures
            r.streams@.len() == 0,
            r.diagnostics@.len() == 0,
            r.buckets@.len() == 0,
    {
        Extras { streams: Vec::new(), diagnostics: Vec::new(), buckets: Vec::new() }
    }

    /// Takes in a record of an event log. A SIP message within the range of
    /// time is handed back, to be sorted into the registry.
    pub fn gather(
        &mut self,
        ts_us: u64,
        record: Record,
        from: Option<u64>,
        to: Option<u64>,
    ) -> (r: Option<SipMsg>)
        ensures
            gathered(*old(self), record, is_between(ts_us, from, to), *final(self)),
            r == match record {
                Record::Message(m) if is_between(ts_us, from, to) => Some(m),
                _ => None,
            },
    {
        let within = in_range(ts_us, from, to);
        match record {
            Record::Message(m) => if within {
                Some(m)
            } else {
                None
            },
            Record::Stream(s) => {
                if within {
                    self.streams.push(s);
                }
                None
            },
            Record::Finding(f) => {
                if within {
                    let ghost was = self.diagnostics@;
                    self.diagnostics.push(f.read());
                    assert(findings(self.diagnostics@) =~= findings(was).push(f.meaning()));
                }
                None
            },
            Record::Bucket(b) => {
                if within {
                    self.buckets.push((b.bucket_us, b.key, b.metrics));
                }
                None
            },
            _ => None,
        }
    }

    /// Adds everything to a snapshot.
    pub fn add_to(self, snap: &mut Snapshot)
        ensures
            final(snap).streams@ == old(snap).streams@ + self.streams@,
            final(snap).diagnostics@ == old(snap).diagnostics@ + self.diagnostics@,
            final(snap).buckets@ == old(snap).buckets@ + self.buckets@,
            *final(snap) == (Snapshot {
                streams: final(snap).streams,
                diagnostics: final(snap).diagnostics,
                buckets: final(snap).buckets,
                ..*old(snap)
            }),
    {
        let Extras { mut streams, mut diagnostics, mut buckets } = self;
        snap.streams.append(&mut streams);
        snap.diagnostics.append(&mut diagnostics);
        snap.buckets.append(&mut buckets);
    }
}

/// A record outside the range of time adds nothing.
pub proof fn what_is_out_of_range_is_left_out(e: Extras, record: Record, next: Extras)
    requires
        gathered(e, record, false, next),
    ensures
        next.streams@ == e.streams@,
        findings(next.diagnostics@) == findings(e.diagnostics@),
        next.buckets@ == e.buckets@,
{
}

/// A time is in range from the first second on and up to the last, both included;
/// a bound that is not given does not bound.
pub proof fn a_range_has_both_its_ends(ts_us: u64, from: u64, to: u64)
    ensures
        is_between(ts_us, None, None),
        is_between(ts_us, Some(from), None) <==> ts_us >= from * 1_000_000,
        is_between(ts_us, None, Some(to)) <==> ts_us <= to * 1_000_000,
        is_between(ts_us, Some(from), Some(to)) <==> from * 1_000_000 <= ts_us <= to * 1_000_000,
{
}

/// Each record in range goes to the list of its own kind, at its end, and to no other.
pub proof fn a_record_goes_to_its_own_list(e: Extras, record: Record, next: Extras)
    requires
        gathered(e, record, true, next),
    ensures
        record matches Record::Stream(s) ==> next.streams@ == e.streams@.push(s) && findings(
            next.diagnostics@,
        ) == findings(e.diagnostics@) && next.buckets@ == e.buckets@,
        record matches Record::Finding(f) ==> next.streams@ == e.streams@ && next.buckets@
            == e.buckets@ && findings(next.diagnostics@).len() == e.diagnostics@.len() + 1 && {
            let d = findings(next.diagnostics@).last();
            &&& d.ts_us == f.ts_us && d.call_id == f.call_id@
            &&& d.code == f.code@ && d.message == f.message@
        },
        record matches Record::Bucket(b) ==> next.streams@ == e.streams@ && findings(
            next.diagnostics@,
        ) == findings(e.diagnostics@) && next.buckets@.len() == e.buckets@.len() + 1 && {
            let c = next.buckets@.last();
            c.0 == b.bucket_us && c.1 == b.key && c.2 == b.metrics
        },
        record is Message || record is Rtt || record is Other ==> next.streams@ == e.streams@
            && findings(next.diagnostics@) == findings(e.diagnostics@) && next.buckets@ == e.buckets@,
{
}

} // verus!
