//! What is shown of the state of the monitor.
use crate::analyze::media_stats::MediaStats;
use crate::analyze::mos::CodecParams;
use crate::bits::count_ones;
use crate::correlate::stream::{snapshot_fits, Quality};
use crate::decode::sip::trimmed;
use crate::double::Double;
use crate::model::media::SummaryModel;
use crate::model::sip::text_of;
use crate::session::pace::{hint_of, Wants};
use crate::small::StreamId;
use crate::store::evict::{normal_query, refreshed};
use crate::store::focus::all_countable;
use crate::store::index::order_agrees;
use crate::store::registry::{ImportId, RegModel, Registry, SEARCH_PIN_MAX};
use crate::store::ring::newest;
use crate::store::snapshot::{
    a_snapshot_has_recent_and_pinned_calls, countable, each_once, lists_imported, packets_fit, packets_of, shows, Snapshot,
};
use crate::table::{lists, Key};
use vstd::prelude::*;

verus! {

/// How many calls the display lists besides pinned ones.
pub const SHOWN_CALLS: usize = 500;

/// Whether `next` is a registry of which the user looks at something.
pub open spec fn aimed(m: RegModel, now: Wants, next: RegModel) -> bool {
    let f = RegModel { focus_hint: hint_of(now.focus), ..m };
    let query = normal_query(text_of(now.search));
    if query == m.search_hint {
        next == f
    } else {
        refreshed(RegModel { search_hint: query, ..f }, next)
    }
}

/// Whether the calls of a registry can be counted whatever the filter pins.
pub open spec fn publishable(m: RegModel) -> bool {
    &&& packets_fit(m)
    &&& countable(m)
    &&& m.completed + m.failed + m.order.len() + SEARCH_PIN_MAX <= u64::MAX
    &&& m.order.len() + SEARCH_PIN_MAX <= usize::MAX
}

/// Half of what a counter can hold.
pub const HALF: u64 = 0x7fff_ffff_ffff_ffff;

/// Whether the counters of a registry leave room to publish it. The packets of all
/// imported streams together stay within one half of a counter, those of a call
/// within the other.
pub open spec fn leaves_room(m: RegModel) -> bool {
    &&& all_countable(m)
    &&& forall|k: ImportId| #[trigger]
        m.imported_streams.contains_key(k) ==> m.imported_streams[k].packets
            * m.imported_streams.dom().len() <= HALF
    &&& forall|id: Seq<char>| #[trigger]
        m.calls.contains_key(id) ==> m.calls[id].pkts_rtp <= HALF
    &&& m.streams.dom().finite()
    &&& m.imported_streams.dom().finite()
    &&& m.calls.dom().finite()
    &&& m.streams.dom().len() + m.imported_streams.dom().len() < usize::MAX
    &&& m.calls.dom().len() < u64::MAX
    &&& m.search_matches.len() <= SEARCH_PIN_MAX
    &&& m.order.len() + SEARCH_PIN_MAX <= usize::MAX
    &&& m.completed + m.failed + m.order.len() + SEARCH_PIN_MAX <= u64::MAX
}

/// Streams of at most `cap` packets each have at most that many times their
/// number together.
proof fn lemma_packets_capped(list: Seq<SummaryModel>, id: Seq<char>, cap: int)
    requires
        cap >= 0,
        forall|i: int| 0 <= i < list.len() ==> (#[trigger] list[i]).packets <= cap,
    ensures
        0 <= packets_of(list, id) <= list.len() * cap,
    decreases list.len(),
{
    if list.len() > 0 {
        let t = list.drop_last();
        assert forall|i: int| 0 <= i < t.len() implies (#[trigger] t[i]).packets <= cap by {
            assert(t[i] == list[i]);
        }
        lemma_packets_capped(t, id, cap);
        assert(list[list.len() - 1].packets <= cap);
        assert(list.len() * cap == t.len() * cap + cap) by (nonlinear_arith)
            requires
                list.len() == t.len() + 1,
        ;
    }
}

/// A registry that leaves room can be published.
pub proof fn a_registry_with_room_can_be_published(m: RegModel)
    requires
        leaves_room(m),
    ensures
        all_countable(m),
        publishable(m),
{
    let n = m.imported_streams.dom().len();
    assert forall|list: Seq<SummaryModel>, id: Seq<char>|
        #[trigger] lists_imported(m, list) && #[trigger] m.calls.contains_key(id) implies m.calls[id].pkts_rtp
        + packets_of(list, id) <= u64::MAX by {
        let ids = choose|ids: Seq<ImportId>| #[trigger]
            each_once(ids, m.imported_streams.dom()) && list == ids.map_values(
                |k: ImportId| m.imported_streams[k],
            );
        assert(ids.to_set() =~= m.imported_streams.dom());
        ids.unique_seq_to_set();
        if n > 0 {
            let cap = HALF as int / n as int;
            assert forall|i: int| 0 <= i < list.len() implies (#[trigger] list[i]).packets <= cap by {
                assert(ids.contains(ids[i]));
                assert(m.imported_streams.contains_key(ids[i]));
                let p = list[i].packets;
                assert(p <= HALF as int / n as int) by (nonlinear_arith)
                    requires
                        p * n <= HALF,
                        n > 0,
                ;
            }
            assert(0 <= cap && n * cap <= HALF) by (nonlinear_arith)
                requires
                    cap == HALF as int / n as int,
                    n > 0,
            ;
            lemma_packets_capped(list, id, cap);
        } else {
            lemma_packets_capped(list, id, 0);
        }
    }
}

impl Registry {
    fn streams_leave_room(&self) -> (r: bool)
        ensures
            r == (forall|id: StreamId| #[trigger]
                self@.streams.contains_key(id) ==> snapshot_fits(self@.streams[id].acc)),
    {
        let keys = self.streams.keys();
        let mut i: usize = 0;
        while i < keys.len()
            invariant
                i <= keys@.len(),
                lists(keys@, self.streams@),
                forall|j: int|
                    0 <= j < i ==> snapshot_fits(self@.streams[(#[trigger] keys@[j])].acc),
            decreases keys@.len() - i,
        {
            assert(self.streams@.contains_key(keys@[i as int].id()));
            assert(self@.streams.contains_key(keys@[i as int]));
            let s = self.streams.get(&keys[i]).unwrap();
            assert(self@.streams[keys@[i as int]] == s@);
            let all: u128 = s.acc.packet_count as u128 + s.acc.lost_packets as u128 + count_ones(
                s.acc.pending_mask,
            ) as u128;
            if all > u64::MAX as u128 {
                return false;
            }
            i += 1;
        }
        proof {
            assert forall|id: StreamId| #[trigger]
                self@.streams.contains_key(id) implies snapshot_fits(
                self@.streams[id].acc,
            ) by {
                assert(self.streams@.contains_key(id));
                let j = choose|j: int| 0 <= j < keys@.len() && #[trigger] keys@[j].id() == id;
                assert(keys@[j] == id);
            }
        }
        true
    }

    fn imports_leave_room(&self) -> (r: bool)
        ensures
            r == (forall|k: ImportId| #[trigger]
                self@.imported_streams.contains_key(k) ==> self@.imported_streams[k].packets
                    * self@.imported_streams.dom().len() <= HALF),
    {
        let count: u128 = self.imported_streams.len() as u128;
        let keys = self.imported_streams.keys();
        assert(self@.imported_streams.dom() =~= self.imported_streams@.dom());
        let mut i: usize = 0;
        while i < keys.len()
            invariant
                i <= keys@.len(),
                count <= usize::MAX,
                count == self@.imported_streams.dom().len(),
                lists(keys@, self.imported_streams@),
                forall|j: int|
                    0 <= j < i ==> self@.imported_streams[(#[trigger] keys@[j]).id()].packets * count
                        <= HALF,
            decreases keys@.len() - i,
        {
            assert(self.imported_streams@.contains_key(keys@[i as int].id()));
            assert(self@.imported_streams.contains_key(keys@[i as int].id()));
            let s = self.imported_streams.get(&keys[i]).unwrap();
            assert(self@.imported_streams[keys@[i as int].id()] == s@);
            let packets: u128 = s.packets as u128;
            assert(packets * count <= u128::MAX) by (nonlinear_arith)
                requires
                    packets <= u64::MAX,
                    count <= u64::MAX,
            ;
            if packets * count > HALF as u128 {
                return false;
            }
            i += 1;
        }
        proof {
            assert forall|k: ImportId| #[trigger]
                self@.imported_streams.contains_key(k) implies self@.imported_streams[k].packets
                * self@.imported_streams.dom().len() <= HALF by {
                assert(self.imported_streams@.contains_key(k));
                let j = choose|j: int| 0 <= j < keys@.len() && #[trigger] keys@[j].id() == k;
                assert(self@.imported_streams[keys@[j].id()].packets * count <= HALF);
            }
        }
        true
    }

    fn calls_leave_room(&self) -> (r: bool)
        ensures
            r == (forall|id: Seq<char>| #[trigger]
                self@.calls.contains_key(id) ==> self@.calls[id].pkts_rtp <= HALF),
    {
        let keys = self.calls.keys();
        let mut i: usize = 0;
        while i < keys.len()
            invariant
                i <= keys@.len(),
                lists(keys@, self.calls@),
                forall|j: int|
                    0 <= j < i ==> self@.calls[(#[trigger] keys@[j])@].pkts_rtp <= HALF,
            decreases keys@.len() - i,
        {
            assert(self.calls@.contains_key(keys@[i as int].id()));
            assert(self@.calls.contains_key(keys@[i as int]@));
            let c = self.calls.get(&keys[i]).unwrap();
            assert(self@.calls[keys@[i as int]@] == c@);
            if c.pkts_rtp > HALF {
                return false;
            }
            i += 1;
        }
        proof {
            assert forall|id: Seq<char>| #[trigger]
                self@.calls.contains_key(id) implies self@.calls[id].pkts_rtp <= HALF by {
                assert(self.calls@.contains_key(id));
                let j = choose|j: int| 0 <= j < keys@.len() && #[trigger] keys@[j].id() == id;
                assert(keys@[j]@ == id);
            }
        }
        true
    }

    /// Whether the counters leave room to publish the registry.
    pub fn leaves_room(&self) -> (r: bool)
        ensures
            r == leaves_room(self@),
    {
        let streams: u128 = self.streams.len() as u128;
        let imported: u128 = self.imported_streams.len() as u128;
        let calls: u128 = self.calls.len() as u128;
        assert(self@.streams.dom() =~= self.streams@.dom());
        assert(self@.imported_streams.dom() =~= self.imported_streams@.dom());
        assert(self@.calls.dom() =~= self.calls@.dom());
        let order: u128 = self.order.len() as u128 + SEARCH_PIN_MAX as u128;
        streams + imported < usize::MAX as u128 && calls < u64::MAX as u128
            && self.search_matches.len() <= SEARCH_PIN_MAX && order <= usize::MAX as u128
            && self.completed as u128 + self.failed as u128 + order <= u64::MAX as u128
            && self.streams_leave_room() && self.imports_leave_room() && self.calls_leave_room()
    }
}

/// Notes what the user looks at, and gives the state of the monitor: all of
/// it where `full`, else what a display shows. `gauge` works out the quality
/// of a stream, and `plus` adds two values.
pub fn publish<
    G: Fn(MediaStats, CodecParams, &Vec<Double>, &Vec<Double>) -> Quality,
    F: Fn(Double, Double) -> Double,
>(reg: &mut Registry, now: Wants, full: bool, gauge: &G, plus: &F) -> (s: Snapshot)
    requires
        old(reg).wf(),
        all_countable(old(reg)@),
        publishable(old(reg)@),
        forall|m: MediaStats, c: CodecParams, r: &Vec<Double>, o: &Vec<Double>|
            call_requires(gauge, (m, c, r, o)),
        forall|a: Double, b: Double| call_requires(plus, (a, b)),
    ensures
        aimed(old(reg)@, now, final(reg)@),
        final(reg).wf(),
        if full {
            shows(*final(reg), usize::MAX, usize::MAX, gauge, plus, s)
        } else {
            shows(*final(reg), SHOWN_CALLS, 1000, gauge, plus, s)
        },
{
    let ghost m = reg@;
    reg.focus_hint = now.focus;
    match &now.search {
        Some(q) => reg.set_search_hint(Some(q.as_str())),
        None => reg.set_search_hint(None),
    }
    proof {
        let n = reg@;
        assert(n.imported_streams == m.imported_streams);
        assert forall|list: Seq<SummaryModel>, id: Seq<char>|
            #[trigger] lists_imported(n, list) && #[trigger] n.calls.contains_key(id) implies n.calls[id].pkts_rtp
            + packets_of(list, id) <= u64::MAX by {
            assert(lists_imported(m, list));
        }
    }
    if full {
        reg.snapshot_full(gauge, plus)
    } else {
        reg.snapshot(SHOWN_CALLS, gauge, plus)
    }
}

/// What is published is aimed at what the user looks at. A new query, trimmed, is
/// searched for afresh; an old one leaves the matches as they are; an empty one is
/// none.
pub proof fn a_look_is_aimed_at(m: RegModel, now: Wants, next: RegModel)
    requires
        aimed(m, now, next),
    ensures
        now.focus is None ==> next.focus_hint is None,
        now.focus matches Some(h) ==> next.focus_hint == Some(h@),
        now.search is None ==> next.search_hint is None,
        now.search matches Some(q) ==> {
            &&& trimmed(q@).len() > 0 ==> next.search_hint == Some(trimmed(q@))
            &&& trimmed(q@).len() == 0 ==> next.search_hint is None
        },
        next.search_hint == m.search_hint ==> next.search_matches == m.search_matches,
        next.search_hint is None && m.search_hint is Some ==> next.search_matches.len() == 0,
        next.calls == m.calls && next.order == m.order && next.streams == m.streams,
        next.pkts_total == m.pkts_total && next.ipstats == m.ipstats,
{
}

/// Unless everything is published, a display gets the five hundred calls that came
/// last and the pinned ones, and no more than a thousand streams.
pub proof fn a_display_gets_the_last_calls<
    G: Fn(MediaStats, CodecParams, &Vec<Double>, &Vec<Double>) -> Quality,
    F: Fn(Double, Double) -> Double,
>(r: Registry, gauge: &G, plus: &F, s: Snapshot, id: Seq<char>)
    requires
        r.wf(),
        order_agrees(r@),
        r@.search_matches.no_duplicates(),
        r@.search_matches.len() <= SEARCH_PIN_MAX,
        shows(r, SHOWN_CALLS, 1000, gauge, plus, s),
    ensures
        s.streams@.len() <= 1000,
        (exists|i: int| 0 <= i < s.calls@.len() && (#[trigger] s.calls@[i]).call_id@ == id) <==> (
        exists|k: int|
            0 <= k < r.order@.len() && k + 500 >= r.order@.len() && (#[trigger] r.order@[k])@ == id) || (
        r@.search_matches.contains(id) && r@.calls.contains_key(id)),
{
    a_snapshot_has_recent_and_pinned_calls(r, SHOWN_CALLS, 1000, gauge, plus, s);
    let last = newest(r@.order, 500);
    let n = r@.order.len() as int;
    let lo = n - last.len();
    assert(r@.order.len() == r.order@.len());
    if last.contains(id) {
        let i = last.index_of(id);
        assert(r@.order[lo + i] == id);
        assert(r.order@[lo + i]@ == id);
    }
    if exists|k: int|
        0 <= k < r.order@.len() && k + 500 >= r.order@.len() && (#[trigger] r.order@[k])@ == id {
        let k = choose|k: int|
            0 <= k < r.order@.len() && k + 500 >= r.order@.len() && (#[trigger] r.order@[k])@ == id;
        assert(r@.order[k] == id);
        assert(last[k - lo] == id);
    }
}

} // verus!
