//! The records of an event log that are about one call.
use crate::digits::{dec, push_dec};
use crate::session::replay::Record;
use crate::text::same_text;
use vstd::prelude::*;

verus! {

/// Whether a record is about a call.
pub open spec fn is_about(record: Record, id: Seq<char>) -> bool {
    match record {
        Record::Message(m) => m.call_id@ == id,
        Record::Stream(s) => s.call_id matches Some(c) && c@ == id,
        Record::Rtt(t) => t.call_id@ == id,
        Record::Finding(f) => f.call_id@ == id,
        _ => false,
    }
}

/// How many records about a call were found.
#[derive(Clone, Copy, PartialEq, Eq, Structural, Debug)]
pub struct Tally {
    /// SIP messages.
    pub found: usize,
    /// Stream records.
    pub streams: usize,
    /// Round-trip times.
    pub rtts: usize,
}

/// A tally with a record counted, where it is about the call.
pub open spec fn counted(t: Tally, record: Record, id: Seq<char>) -> Tally {
    if !is_about(record, id) {
        t
    } else {
        match record {
            Record::Message(_) => Tally { found: (t.found + 1) as usize, ..t },
            Record::Stream(_) => Tally { streams: (t.streams + 1) as usize, ..t },
            Record::Rtt(_) => Tally { rtts: (t.rtts + 1) as usize, ..t },
            _ => t,
        }
    }
}

/// How a message is named: a request by its method, a response by its status
/// code.
pub open spec fn label_of(
    is_request: bool,
    method: Option<Seq<char>>,
    status: Option<u16>,
) -> Seq<char> {
    if is_request {
        match method {
            Some(m) => m,
            None => Seq::empty(),
        }
    } else {
        match status {
            Some(s) => dec(s as nat),
            None => Seq::empty(),
        }
    }
}

/// How a message is named: a request by its method, a response by its status
/// code.
pub fn message_label(is_request: bool, method: Option<&str>, status: Option<u16>) -> (r: String)
    ensures
        r@ == label_of(
            is_request,
            match method {
                Some(m) => Some(m@),
                None => None,
            },
            status,
        ),
{
    let mut r: String = String::new();
    assert(r@ =~= Seq::<char>::empty());
    if is_request {
        if let Some(m) = method {
            r = m.to_owned();
        }
    } else if let Some(s) = status {
        push_dec(&mut r, s as u64);
        assert(r@ =~= dec(s as nat));
    }
    r
}

/// Whether a record is about a call.
pub fn concerns(record: &Record, call_id: &str) -> (r: bool)
    ensures
        r == is_about(*record, call_id@),
{
    match record {
        Record::Message(m) => same_text(m.call_id.as_str(), call_id),
        Record::Stream(s) => match &s.call_id {
            Some(c) => same_text(c.as_str(), call_id),
            None => false,
        },
        Record::Rtt(t) => same_text(t.call_id.as_str(), call_id),
        Record::Finding(f) => same_text(f.call_id.as_str(), call_id),
        _ => false,
    }
}

impl Tally {
    /// A tally of nothing.
    pub fn new() -> (r: Tally)
        ensures
            r == (Tally { found: 0, streams: 0, rtts: 0 }),
    {
        Tally { found: 0, streams: 0, rtts: 0 }
    }

    /// Counts a record where it is about a call, and says whether it is.
    pub fn take(&mut self, record: &Record, call_id: &str) -> (r: bool)
        requires
            old(self).found < usize::MAX,
            old(self).streams < usize::MAX,
            old(self).rtts < usize::MAX,
        ensures
            r == is_about(*record, call_id@),
            *final(self) == counted(*old(self), *record, call_id@),
    {
        if !concerns(record, call_id) {
            return false;
        }
        match record {
            Record::Message(_) => {
                self.found += 1;
            },
            Record::Stream(_) => {
                self.streams += 1;
            },
            Record::Rtt(_) => {
                self.rtts += 1;
            },
            _ => {},
        }
        true
    }
}

/// The tally of some records, taken one after the other.
pub open spec fn tally_of(records: Seq<Record>, id: Seq<char>) -> Tally
    decreases records.len(),
{
    if records.len() == 0 {
        Tally { found: 0, streams: 0, rtts: 0 }
    } else {
        counted(tally_of(records.drop_last(), id), records.last(), id)
    }
}

/// The tally of an event log counts the messages, the stream records and the
/// round-trip times about the call, and nothing else.
pub proof fn the_tally_counts_what_is_about_the_call(records: Seq<Record>, id: Seq<char>)
    requires
        records.len() <= usize::MAX,
    ensures
        tally_of(records, id).found == records.filter(
            |r: Record| r is Message && is_about(r, id),
        ).len(),
        tally_of(records, id).streams == records.filter(
            |r: Record| r is Stream && is_about(r, id),
        ).len(),
        tally_of(records, id).rtts == records.filter(
            |r: Record| r is Rtt && is_about(r, id),
        ).len(),
        tally_of(records, id).found <= records.len(),
        tally_of(records, id).streams <= records.len(),
        tally_of(records, id).rtts <= records.len(),
    decreases records.len(),
{
    reveal(Seq::filter);
    if records.len() > 0 {
        the_tally_counts_what_is_about_the_call(records.drop_last(), id);
    }
}

/// A record is about a call where it bears its Call-ID; buckets and records of other
/// kinds are about none, nor is a stream without a call.
pub proof fn a_record_is_about_the_call_that_it_names(record: Record, id: Seq<char>)
    ensures
        record matches Record::Message(m) ==> (is_about(record, id) <==> m.call_id@ == id),
        record matches Record::Rtt(t) ==> (is_about(record, id) <==> t.call_id@ == id),
        record matches Record::Finding(f) ==> (is_about(record, id) <==> f.call_id@ == id),
        record matches Record::Stream(s) ==> (is_about(record, id) <==> s.call_id is Some
            && s.call_id->0@ == id),
        record is Bucket || record is Other ==> !is_about(record, id),
{
}

/// A record counts once, under its own kind, where it is about the call.
pub proof fn a_record_counts_under_its_kind(t: Tally, record: Record, id: Seq<char>)
    requires
        t.found < usize::MAX,
        t.streams < usize::MAX,
        t.rtts < usize::MAX,
    ensures
        ({
            let n = counted(t, record, id);
            let mine = is_about(record, id);
            &&& n.found == t.found + if mine && record is Message {
                1int
            } else {
                0
            }
            &&& n.streams == t.streams + if mine && record is Stream {
                1int
            } else {
                0
            }
            &&& n.rtts == t.rtts + if mine && record is Rtt {
                1int
            } else {
                0
            }
        }),
{
}

/// A request is labelled with its method and a response with its status.
pub proof fn a_label_is_the_method_or_the_status(method: Seq<char>, status: u16)
    ensures
        label_of(true, Some(method), Some(status)) == method,
        label_of(true, Some(method), None) == method,
        label_of(true, None, Some(status)).len() == 0,
        label_of(false, Some(method), Some(status)) == dec(status as nat),
        label_of(false, None, Some(status)) == dec(status as nat),
        label_of(false, Some(method), None).len() == 0,
{
}

} // verus!
