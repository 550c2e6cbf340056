//! What stays in memory: pinned calls, the removal of calls, and the eviction
//! of the oldest and of the idle.
use crate::addr::SockKey;
use crate::correlate::stream::StreamModel;
use crate::decode::sip::{trim_text, trimmed};
use crate::filter::{all_match, parse, rule_models, rules_from, RuleModel};
use crate::model::sip::{ended, CallModel, CallState};
use crate::order::{comes_first, lemma_order_covers, listed, sorts, stable_order, Rank};
use crate::small::StreamId;
use crate::store::index::{eviction_keeps_its_promise, order_agrees, well_evicted};
use crate::store::registry::{
    list_at, reg_wf, ssrc_without, stream_forgotten, streams_wf, texts, views, RegModel, Registry, StreamKey,
    SEARCH_PIN_MAX,
};
use crate::table::{lemma_listed_len, lists, Key, Table};
use crate::text::same_text;
use vstd::prelude::*;

verus! {

/// Whether a call is protected: the filter pins it, or it is looked at.
pub open spec fn is_pinned(m: RegModel, id: Seq<char>) -> bool {
    ||| m.search_matches.contains(id)
    ||| m.focus_hint matches Some(h) && (h.primary == id || h.linked == Some(id))
}

/// A registry without a stream: neither the stream nor its entry under its
/// source is left.
pub open spec fn without_stream(m: RegModel, k: StreamKey) -> RegModel {
    RegModel {
        streams: m.streams.remove(k.spec_id()),
        stream_call: m.stream_call.remove(k.spec_id()),
        ssrc_index: ssrc_without(m.ssrc_index, k),
        ..m
    }
}

/// A registry without some streams.
pub open spec fn without_streams(m: RegModel, keys: Seq<StreamKey>) -> RegModel
    decreases keys.len(),
{
    if keys.len() == 0 {
        m
    } else {
        without_stream(without_streams(m, keys.drop_last()), keys.last())
    }
}

/// A registry without a call and its streams. The removal is noted.
pub open spec fn without_call(m: RegModel, id: Seq<char>) -> RegModel {
    without_streams(
        RegModel {
            calls: m.calls.remove(id),
            removed: m.removed.push(id),
            stream_index: m.stream_index.remove(id),
            ..m
        },
        list_at(m.stream_index, id),
    )
}

/// A registry without some calls and their streams.
pub open spec fn without_calls(m: RegModel, ids: Seq<Seq<char>>) -> RegModel
    decreases ids.len(),
{
    if ids.len() == 0 {
        m
    } else {
        without_call(without_calls(m, ids.drop_last()), ids.last())
    }
}

/// Whether a text is none of `ids`.
pub open spec fn none_of(ids: Seq<Seq<char>>) -> spec_fn(Seq<char>) -> bool {
    |t: Seq<char>| !ids.contains(t)
}

/// A registry without some calls, their streams, their places in the order
/// and their media addresses.
pub open spec fn calls_removed(m: RegModel, ids: Seq<Seq<char>>) -> RegModel {
    if ids.len() == 0 {
        m
    } else {
        let n = without_calls(m, ids);
        RegModel {
            order: n.order.filter(none_of(ids)),
            endpoint_call: n.endpoint_call.restrict(
                Set::new(|a| n.endpoint_call.contains_key(a) && !ids.contains(n.endpoint_call[a])),
            ),
            ..n
        }
    }
}

proof fn lemma_without_streams_keeps(m: RegModel, keys: Seq<StreamKey>)
    ensures
        ({
            let n = without_streams(m, keys);
            n == (RegModel {
                streams: n.streams,
                stream_call: n.stream_call,
                ssrc_index: n.ssrc_index,
                ..m
            })
        }),
        without_streams(m, keys).streams.submap_of(m.streams),
    decreases keys.len(),
{
    if keys.len() > 0 {
        lemma_without_streams_keeps(m, keys.drop_last());
    }
}

/// What the removal of calls does to the calls, and what it leaves alone.
pub proof fn lemma_without_calls_keeps(m: RegModel, ids: Seq<Seq<char>>)
    ensures
        ({
            let n = without_calls(m, ids);
            &&& n == (RegModel {
                calls: n.calls,
                removed: n.removed,
                stream_index: n.stream_index,
                streams: n.streams,
                stream_call: n.stream_call,
                ssrc_index: n.ssrc_index,
                ..m
            })
            &&& n.removed == m.removed + ids
            &&& n.streams.submap_of(m.streams)
        }),
        forall|id: Seq<char>| #[trigger]
            without_calls(m, ids).calls.contains_key(id) <==> m.calls.contains_key(id)
                && !ids.contains(id),
        without_calls(m, ids).calls.submap_of(m.calls),
        forall|id: Seq<char>| #[trigger]
            without_calls(m, ids).stream_index.contains_key(id) <==> m.stream_index.contains_key(id)
                && !ids.contains(id),
        without_calls(m, ids).stream_index.submap_of(m.stream_index),
    decreases ids.len(),
{
    if ids.len() == 0 {
        assert(m.removed + ids =~= m.removed);
    } else {
        let before = without_calls(m, ids.drop_last());
        lemma_without_calls_keeps(m, ids.drop_last());
        let id = ids.last();
        let n = without_calls(m, ids);
        lemma_without_streams_keeps(
            RegModel {
                calls: before.calls.remove(id),
                removed: before.removed.push(id),
                stream_index: before.stream_index.remove(id),
                ..before
            },
            list_at(before.stream_index, id),
        );
        assert(n.removed =~= m.removed + ids);
        assert(ids =~= ids.drop_last().push(id));
        assert forall|x: Seq<char>| ids.contains(x) <==> ids.drop_last().contains(x) || x == id by {
            if ids.drop_last().contains(x) {
                let i = ids.drop_last().index_of(x);
                assert(ids[i] == x);
            }
            if x == id {
                assert(ids[ids.len() - 1] == x);
            }
            if ids.contains(x) && x != id {
                let i = ids.index_of(x);
                assert(ids.drop_last()[i] == x);
            }
        }
        assert forall|k: StreamId| #[trigger] n.streams.dom().contains(k) implies #[trigger] m.streams.dom().contains(
            k,
        ) && n.streams[k] == m.streams[k] by {
            assert(before.streams.dom().contains(k));
        }
    }
}

impl Registry {
    /// The protected calls.
    pub(crate) fn pinned_set(&self) -> (r: Table<String, ()>)
        ensures
            forall|id: Seq<char>| #[trigger] r@.contains_key(id) <==> is_pinned(self@, id),
    {
        let mut r: Table<String, ()> = Table::new();
        let mut i: usize = 0;
        while i < self.search_matches.len()
            invariant
                i <= self.search_matches@.len(),
                forall|id: Seq<char>| #[trigger]
                    r@.contains_key(id) <==> exists|j: int|
                        0 <= j < i && #[trigger] self@.search_matches[j] == id,
            decreases self.search_matches@.len() - i,
        {
            let ghost was = r@;
            r.insert(self.search_matches[i].clone(), ());
            proof {
                let now = self.search_matches@[i as int]@;
                assert(self@.search_matches[i as int] == now);
                assert forall|id: Seq<char>| #[trigger] r@.contains_key(id) <==> exists|j: int|
                    0 <= j < i + 1 && #[trigger] self@.search_matches[j] == id by {
                    if was.contains_key(id) {
                        let j = choose|j: int| 0 <= j < i && #[trigger] self@.search_matches[j] == id;
                        assert(self@.search_matches[j] == id);
                    }
                }
            }
            i += 1;
        }
        let ghost found = r@;
        assert forall|id: Seq<char>| #[trigger] found.contains_key(id) <==> self@.search_matches.contains(
            id,
        ) by {
            if self@.search_matches.contains(id) {
                let j = self@.search_matches.index_of(id);
                assert(self@.search_matches[j] == id);
            }
        }
        if let Some(h) = &self.focus_hint {
            r.insert(h.primary.clone(), ());
            if let Some(l) = &h.linked {
                r.insert(l.clone(), ());
            }
        }
        r
    }

    /// Takes a call and its streams out.
    fn unlink_call(&mut self, id: &String)
        ensures
            final(self)@ == without_call(old(self)@, id@),
    {
        let ghost m = self@;
        self.calls.remove(id);
        self.removed.push_back(id.clone());
        let keys = match self.stream_index.remove(id) {
            Some(v) => v,
            None => Vec::new(),
        };
        let ghost base = RegModel {
            calls: m.calls.remove(id@),
            removed: m.removed.push(id@),
            stream_index: m.stream_index.remove(id@),
            ..m
        };
        assert(keys@ =~= list_at(m.stream_index, id@));
        assert(self@ =~= base);
        let mut i: usize = 0;
        assert(keys@.take(0) =~= Seq::empty());
        while i < keys.len()
            invariant
                i <= keys@.len(),
                self@ == without_streams(base, keys@.take(i as int)),
            decreases keys@.len() - i,
        {
            let k: StreamKey = keys[i];
            let ghost was = self@;
            self.streams.remove(&k.id());
            self.stream_call.remove(&k.id());
            assert(self@.streams =~= was.streams.remove(k.spec_id()));
            assert(self@.stream_call =~= was.stream_call.remove(k.spec_id()));
            self.strike_ssrc(k);
            i += 1;
            assert(keys@.take(i as int).drop_last() =~= keys@.take(i - 1));
            assert(self@ =~= without_stream(was, k));
        }
        assert(keys@.take(keys@.len() as int) =~= keys@);
    }

    /// Removes calls with everything that belongs to them.
    pub(crate) fn remove_calls(&mut self, ids: &Vec<String>)
        ensures
            final(self)@ == calls_removed(old(self)@, texts(ids@)),
    {
        if ids.len() == 0 {
            return;
        }
        let ghost m = self@;
        let ghost names = texts(ids@);
        let mut gone: Table<String, ()> = Table::new();
        let mut i: usize = 0;
        assert(names.take(0) =~= Seq::empty());
        while i < ids.len()
            invariant
                i <= ids@.len(),
                names == texts(ids@),
                self@ == without_calls(m, names.take(i as int)),
                forall|id: Seq<char>| #[trigger]
                    gone@.contains_key(id) <==> names.take(i as int).contains(id),
            decreases ids@.len() - i,
        {
            gone.insert(ids[i].clone(), ());
            self.unlink_call(&ids[i]);
            i += 1;
            proof {
                let now = names.take(i as int);
                let before = names.take(i - 1);
                assert(now.drop_last() =~= before);
                assert(now =~= before.push(names[i - 1]));
                assert forall|id: Seq<char>| #[trigger] gone@.contains_key(id) <==> now.contains(
                    id,
                ) by {
                    if before.contains(id) {
                        let j = before.index_of(id);
                        assert(now[j] == id);
                    }
                    if id == names[i - 1] {
                        assert(now[i - 1] == id);
                    }
                    if now.contains(id) && id != names[i - 1] {
                        let j = now.index_of(id);
                        assert(before[j] == id);
                    }
                }
            }
        }
        assert(names.take(names.len() as int) =~= names);
        self.order = texts_outside(&self.order, &gone, Ghost(names));
        self.drop_endpoints(&gone, Ghost(names));
        assert(self@ =~= calls_removed(m, names));
    }

    /// Strikes the media addresses of removed calls.
    fn drop_endpoints(&mut self, gone: &Table<String, ()>, Ghost(names): Ghost<Seq<Seq<char>>>)
        requires
            forall|id: Seq<char>| #[trigger] gone@.contains_key(id) <==> names.contains(id),
        ensures
            final(self)@ == (RegModel {
                endpoint_call: old(self)@.endpoint_call.restrict(
                    Set::new(
                        |a|
                            old(self)@.endpoint_call.contains_key(a) && !names.contains(
                                old(self)@.endpoint_call[a],
                            ),
                    ),
                ),
                ..old(self)@
            }),
    {
        let ghost was = self.endpoint_call@;
        let keys = self.endpoint_call.keys();
        let mut i: usize = 0;
        while i < keys.len()
            invariant
                i <= keys@.len(),
                lists(keys@, was),
                was == old(self).endpoint_call@,
                *self == (Registry { endpoint_call: self.endpoint_call, ..*old(self) }),
                forall|id: Seq<char>| #[trigger] gone@.contains_key(id) <==> names.contains(id),
                self.endpoint_call@.submap_of(was),
                forall|n: int|
                    0 <= n < i ==> (self.endpoint_call@.dom().contains(#[trigger] keys@[n])
                        <==> !names.contains(was[keys@[n]]@)),
                forall|n: int|
                    i <= n < keys@.len() ==> self.endpoint_call@.dom().contains(
                        #[trigger] keys@[n],
                    ),
            decreases keys@.len() - i,
        {
            let ghost now = self.endpoint_call@;
            assert(now.dom().contains(keys@[i as int]));
            assert(was.contains_key(keys@[i as int].id()));
            let out = match self.endpoint_call.get(&keys[i]) {
                Some(c) => gone.contains_key(c),
                None => false,
            };
            if out {
                self.endpoint_call.remove(&keys[i]);
            }
            proof {
                assert forall|n: int| i < n < keys@.len() implies self.endpoint_call@.dom().contains(
                    #[trigger] keys@[n],
                ) by {
                    assert(now.dom().contains(keys@[n]));
                    assert(keys@[i as int].id() != keys@[n].id());
                }
                assert forall|n: int| 0 <= n < i implies (self.endpoint_call@.dom().contains(
                    #[trigger] keys@[n],
                ) <==> !names.contains(was[keys@[n]]@)) by {
                    assert(keys@[n].id() != keys@[i as int].id());
                    assert(now.dom().contains(keys@[n]) <==> !names.contains(was[keys@[n]]@));
                }
            }
            i += 1;
        }
        proof {
            let all = old(self)@.endpoint_call;
            let kept = Set::new(|a| all.contains_key(a) && !names.contains(all[a]));
            assert forall|a| self@.endpoint_call.dom().contains(a) == all.restrict(
                kept,
            ).dom().contains(a) by {
                if was.contains_key(a) {
                    let n = choose|n: int| 0 <= n < keys@.len() && #[trigger] keys@[n].id() == a;
                    assert(self.endpoint_call@.dom().contains(keys@[n]) <==> !names.contains(
                        was[keys@[n]]@,
                    ));
                } else {
                    assert(!self.endpoint_call@.dom().contains(a)) by {
                        if self.endpoint_call@.dom().contains(a) {
                            assert(was.dom().contains(a));
                        }
                    }
                }
            }
            assert forall|a| self@.endpoint_call.dom().contains(a) implies self@.endpoint_call[a]
                == all[a] by {
                assert(self.endpoint_call@.dom().contains(a));
                assert(was.dom().contains(a));
            }
            assert(self@.endpoint_call =~= all.restrict(kept));
        }
    }

    /// Removes a call with everything that belongs to it.
    pub fn remove_call(&mut self, call_id: &str)
        ensures
            final(self)@ == calls_removed(old(self)@, seq![call_id@]),
    {
        let mut ids: Vec<String> = Vec::new();
        ids.push(call_id.to_owned());
        assert(texts(ids@) =~= seq![call_id@]);
        self.remove_calls(&ids);
    }
}

/// The texts that a table does not hold.
fn texts_outside(
    v: &Vec<String>,
    gone: &Table<String, ()>,
    Ghost(names): Ghost<Seq<Seq<char>>>,
) -> (r: Vec<String>)
    requires
        forall|id: Seq<char>| #[trigger] gone@.contains_key(id) <==> names.contains(id),
    ensures
        texts(r@) == texts(v@).filter(none_of(names)),
{
    let mut r: Vec<String> = Vec::new();
    let mut i: usize = 0;
    let ghost all = texts(v@);
    proof {
        reveal(Seq::filter);
        assert(texts(r@) =~= all.take(0).filter(none_of(names)));
    }
    while i < v.len()
        invariant
            i <= v@.len(),
            all == texts(v@),
            forall|id: Seq<char>| #[trigger] gone@.contains_key(id) <==> names.contains(id),
            texts(r@) == all.take(i as int).filter(none_of(names)),
        decreases v@.len() - i,
    {
        let ghost was = r@;
        proof {
            reveal(Seq::filter);
            assert(all.take(i + 1).drop_last() =~= all.take(i as int));
            assert(all[i as int] == v@[i as int]@);
        }
        if !gone.contains_key(&v[i]) {
            r.push(v[i].clone());
            assert(texts(r@) =~= texts(was).push(v@[i as int]@));
        }
        i += 1;
    }
    assert(all.take(all.len() as int) =~= all);
    r
}

/// Whether a call may be evicted: it is there, it is not protected, and,
/// where only ended calls are asked for, it has ended.
pub open spec fn evictable(m: RegModel, id: Seq<char>, only_ended: bool) -> bool {
    m.calls.contains_key(id) && !is_pinned(m, id) && (only_ended ==> ended(m.calls[id].state))
}

/// When a call began, for eviction. A call without an INVITE is the youngest.
pub open spec fn began(m: RegModel, id: Seq<char>) -> u64 {
    match m.calls[id].invite_ts {
        Some(t) => t,
        None => u64::MAX,
    }
}

/// The place in the order, among the first `n`, of the oldest call that may
/// be evicted; the first one of several.
pub open spec fn oldest_place(m: RegModel, only_ended: bool, n: int) -> Option<int>
    decreases n,
{
    if n <= 0 {
        None
    } else {
        let before = oldest_place(m, only_ended, n - 1);
        let id = m.order[n - 1];
        if evictable(m, id, only_ended) && (before matches Some(b) ==> began(m, id) < began(
            m,
            m.order[b],
        )) {
            Some(n - 1)
        } else {
            before
        }
    }
}

/// The call to evict: the oldest that has ended, or else the oldest.
pub open spec fn victim(m: RegModel) -> Option<Seq<char>> {
    match oldest_place(m, true, m.order.len() as int) {
        Some(i) => Some(m.order[i]),
        None => match oldest_place(m, false, m.order.len() as int) {
            Some(i) => Some(m.order[i]),
            None => None,
        },
    }
}

/// The oldest call that may be evicted is one, and none is older.
pub proof fn lemma_oldest_place(m: RegModel, only_ended: bool, n: int)
    requires
        n <= m.order.len(),
    ensures
        match oldest_place(m, only_ended, n) {
            Some(i) => {
                &&& 0 <= i < n
                &&& evictable(m, m.order[i], only_ended)
                &&& forall|j: int|
                    0 <= j < n && evictable(m, #[trigger] m.order[j], only_ended) ==> began(
                        m,
                        m.order[i],
                    ) <= began(m, m.order[j])
            },
            None => forall|j: int|
                0 <= j < n ==> !evictable(m, #[trigger] m.order[j], only_ended),
        },
    decreases n,
{
    if n > 0 {
        lemma_oldest_place(m, only_ended, n - 1);
    }
}

/// What the removal of one call does to the calls.
pub proof fn lemma_one_removed(m: RegModel, id: Seq<char>)
    ensures
        calls_removed(m, seq![id]).calls == m.calls.remove(id),
        calls_removed(m, seq![id]).max_calls == m.max_calls,
{
    let ids = seq![id];
    lemma_without_calls_keeps(m, ids);
    let n = without_calls(m, ids);
    assert forall|x: Seq<char>| n.calls.contains_key(x) == m.calls.remove(id).contains_key(x) by {
        assert(n.calls.contains_key(x) <==> m.calls.contains_key(x) && !ids.contains(x));
        assert(ids.contains(x) <==> x == id) by {
            if x == id {
                assert(ids[0] == x);
            }
        }
    }
    assert forall|x: Seq<char>| n.calls.contains_key(x) implies n.calls[x] == m.calls[x] by {
        assert(n.calls.dom().contains(x));
        assert(m.calls.dom().contains(x));
    }
    assert(n.calls =~= m.calls.remove(id));
}

/// A registry with calls evicted one after the other, until it holds no more
/// than it keeps or none may be evicted.
pub open spec fn calls_evicted(m: RegModel) -> RegModel
    decreases m.calls.dom().len(),
{
    if m.calls.dom().finite() && m.calls.dom().len() > m.max_calls {
        match victim(m) {
            Some(id) => {
                proof {
                    lemma_oldest_place(m, true, m.order.len() as int);
                    lemma_oldest_place(m, false, m.order.len() as int);
                    lemma_one_removed(m, id);
                }
                calls_evicted(calls_removed(m, seq![id]))
            },
            None => m,
        }
    } else {
        m
    }
}

/// When a stream began, for eviction. A stream without packets is the
/// youngest.
pub open spec fn stream_began(s: StreamModel) -> u64 {
    match s.first_ts_us {
        Some(t) => t,
        None => u64::MAX,
    }
}

/// A registry with some streams evicted.
pub open spec fn streams_evicted(m: RegModel, gone: Seq<StreamKey>) -> RegModel
    decreases gone.len(),
{
    if gone.len() == 0 {
        m
    } else {
        let n = streams_evicted(m, gone.drop_last());
        stream_forgotten(
            RegModel { streams: n.streams.remove(gone.last().spec_id()), ..n },
            gone.last(),
        )
    }
}

/// Whether `gone` are the streams to evict: as many as there are too many, and
/// none younger than one that stays.
pub open spec fn oldest_streams(m: RegModel, gone: Seq<StreamKey>) -> bool {
    &&& m.streams.dom().finite()
    &&& gone.len() == if m.streams.dom().len() > m.max_streams {
        m.streams.dom().len() - m.max_streams
    } else {
        0
    }
    &&& forall|i: int| 0 <= i < gone.len() ==> m.streams.contains_key((#[trigger] gone[i]).spec_id())
    &&& forall|i: int, j: int|
        0 <= i < j < gone.len() ==> (#[trigger] gone[i]).spec_id() != (#[trigger] gone[j]).spec_id()
    &&& forall|i: int, id: StreamId|
        0 <= i < gone.len() && #[trigger] m.streams.contains_key(id) && !in_gone(gone, id)
            ==> stream_began(m.streams[(#[trigger] gone[i]).spec_id()]) <= stream_began(
            m.streams[id],
        )
}

/// Whether a stream is among `gone`.
pub open spec fn in_gone(gone: Seq<StreamKey>, id: StreamId) -> bool {
    exists|i: int| 0 <= i < gone.len() && (#[trigger] gone[i]).spec_id() == id
}

/// The time that decides whether a call is stale: when it ended, or when it
/// was last active.
pub open spec fn idle_since(c: CallModel) -> int {
    if ended(c.state) {
        match (c.end_ts, c.bye_ts) {
            (Some(e), _) => e as int,
            (None, Some(b)) => b as int,
            (None, None) => c.last_ts_us,
        }
    } else {
        c.last_ts_us
    }
}

/// Whether a call is stale: it is not protected, and was idle before
/// `cutoff`.
pub open spec fn is_stale(m: RegModel, id: Seq<char>, cutoff: u64) -> bool {
    &&& m.calls.contains_key(id)
    &&& !is_pinned(m, id)
    &&& idle_since(m.calls[id]) != 0
    &&& idle_since(m.calls[id]) < cutoff
}

/// Whether a list holds the stale calls, each once.
pub open spec fn lists_stale(ids: Seq<Seq<char>>, m: RegModel, cutoff: u64) -> bool {
    &&& ids.no_duplicates()
    &&& forall|id: Seq<char>| #[trigger] ids.contains(id) <==> is_stale(m, id, cutoff)
}

/// The time before which an idle call is stale.
pub open spec fn stale_before(ttl_secs: u64, now_us: u64) -> u64 {
    if now_us >= ttl_secs * 1_000_000 {
        (now_us - ttl_secs * 1_000_000) as u64
    } else {
        0
    }
}

impl Registry {
    /// The place in the order of the oldest call that may be evicted.
    fn find_oldest(&self, pinned: &Table<String, ()>, only_ended: bool) -> (r: Option<usize>)
        requires
            forall|id: Seq<char>| #[trigger] pinned@.contains_key(id) <==> is_pinned(self@, id),
        ensures
            match r {
                Some(i) => oldest_place(self@, only_ended, self@.order.len() as int) == Some(
                    i as int,
                ) && i < self.order@.len(),
                None => oldest_place(self@, only_ended, self@.order.len() as int) is None,
            },
    {
        let mut best: Option<(usize, u64)> = None;
        let mut i: usize = 0;
        while i < self.order.len()
            invariant
                i <= self.order@.len(),
                forall|id: Seq<char>| #[trigger] pinned@.contains_key(id) <==> is_pinned(self@, id),
                match best {
                    Some(b) => {
                        &&& oldest_place(self@, only_ended, i as int) == Some(b.0 as int)
                        &&& b.0 < i
                        &&& b.1 == began(self@, self@.order[b.0 as int])
                    },
                    None => oldest_place(self@, only_ended, i as int) is None,
                },
            decreases self.order@.len() - i,
        {
            let id = &self.order[i];
            assert(self@.order[i as int] == id@);
            if let Some(c) = self.calls.get(id) {
                assert(self@.calls[id@] == c@);
                if !pinned.contains_key(id) && (!only_ended || c.state.is_terminal()) {
                    let t: u64 = match c.invite_ts {
                        Some(t) => t,
                        None => u64::MAX,
                    };
                    let better = match best {
                        Some(b) => t < b.1,
                        None => true,
                    };
                    if better {
                        best = Some((i, t));
                    }
                }
            }
            i += 1;
        }
        match best {
            Some(b) => Some(b.0),
            None => None,
        }
    }

    fn evict_calls(&mut self)
        ensures
            final(self)@ == calls_evicted(old(self)@),
            old(self)@.calls.dom().finite(),
    {
        loop
            invariant
                calls_evicted(old(self)@) == calls_evicted(self@),
                self@ == old(self)@ || old(self)@.calls.dom().finite(),
            decreases self@.calls.dom().len(),
        {
            let n = self.calls.len();
            assert(self@.calls.dom() =~= self.calls@.dom());
            if n <= self.max_calls {
                return;
            }
            let pinned = self.pinned_set();
            let place = match self.find_oldest(&pinned, true) {
                Some(i) => Some(i),
                None => self.find_oldest(&pinned, false),
            };
            match place {
                None => {
                    return;
                },
                Some(i) => {
                    let id = self.order[i].clone();
                    proof {
                        assert(victim(self@) == Some(id@));
                        lemma_oldest_place(self@, true, self@.order.len() as int);
                        lemma_oldest_place(self@, false, self@.order.len() as int);
                        lemma_one_removed(self@, id@);
                    }
                    self.remove_call(id.as_str());
                },
            }
        }
    }

    fn evict_streams(&mut self)
        requires
            streams_wf(old(self)@),
        ensures
            exists|gone: Seq<StreamKey>| #[trigger]
                oldest_streams(old(self)@, gone) && final(self)@ == streams_evicted(
                    old(self)@,
                    gone,
                ),
    {
        let ghost m = self@;
        let n = self.streams.len();
        assert(m.streams.dom() =~= self.streams@.dom());
        if n <= self.max_streams {
            assert(oldest_streams(m, Seq::empty()));
            return;
        }
        let excess: usize = n - self.max_streams;
        let ids = self.streams.keys();
        let mut ranks: Vec<Rank> = Vec::new();
        let mut i: usize = 0;
        while i < ids.len()
            invariant
                i <= ids@.len(),
                self@ == m,
                lists(ids@, self.streams@),
                ranks@.len() == i,
                forall|j: int|
                    0 <= j < i ==> #[trigger] ranks@[j] == (
                        false,
                        stream_began(m.streams[ids@[j]]) as u128,
                    ),
            decreases ids@.len() - i,
        {
            assert(self.streams@.contains_key(ids@[i as int].id()));
            let t: u64 = match self.streams.get(&ids[i]) {
                Some(s) => match s.first_ts_us {
                    Some(t) => t,
                    None => u64::MAX,
                },
                None => u64::MAX,
            };
            ranks.push((false, t as u128));
            i += 1;
        }
        let order = stable_order(&ranks);
        proof {
            lemma_listed_len(ids@, self.streams@);
            lemma_order_covers(order@, ranks@);
        }
        let ghost start = self.streams@;
        let ghost mut gone: Seq<StreamKey> = Seq::empty();
        let mut j: usize = 0;
        while j < excess
            invariant
                j <= excess <= ids@.len(),
                lists(ids@, start),
                m.streams == views(start),
                streams_wf(m),
                order@.len() == ids@.len(),
                ranks@.len() == ids@.len(),
                sorts(order@, ranks@),
                gone.len() == j,
                self@ == streams_evicted(m, gone),
                forall|x: int|
                    0 <= x < j ==> (#[trigger] gone[x]).spec_id() == ids@[order@[x] as int],
                forall|x: int|
                    j <= x < ids@.len() ==> {
                        let k = ids@[#[trigger] order@[x] as int];
                        self@.streams.contains_key(k) && self@.streams[k] == m.streams[k]
                    },
            decreases excess - j,
        {
            let p: usize = order[j];
            let id: StreamId = ids[p];
            assert(start.contains_key(ids@[order@[j as int] as int].id()));
            assert(self@.streams.contains_key(ids@[order@[j as int] as int]));
            let key = match self.streams.get(&id) {
                Some(s) => StreamKey { flow: s.flow, ssrc: s.ssrc },
                None => {
                    assert(false);
                    return;
                },
            };
            assert(m.streams.contains_key(id));
            assert(key.spec_id() == id);
            let ghost was = self@;
            self.streams.remove(&id);
            assert(self@ =~= (RegModel { streams: was.streams.remove(id), ..was }));
            self.forget_stream(key);
            proof {
                let before = gone;
                gone = gone.push(key);
                assert(gone.drop_last() =~= before);
                assert forall|x: int| j + 1 <= x < ids@.len() implies {
                    let k = ids@[#[trigger] order@[x] as int];
                    self@.streams.contains_key(k) && self@.streams[k] == m.streams[k]
                } by {
                    let k = ids@[order@[x] as int];
                    assert(comes_first(ranks@, order@[j as int] as int, order@[x] as int));
                    assert(order@[x] != order@[j as int]);
                    if order@[x] < order@[j as int] {
                        assert(ids@[order@[x] as int].id() != ids@[order@[j as int] as int].id());
                    } else {
                        assert(ids@[order@[j as int] as int].id() != ids@[order@[x] as int].id());
                    }
                }
            }
            j += 1;
        }
        proof {
            assert forall|x: int| 0 <= x < gone.len() implies m.streams.contains_key(
                (#[trigger] gone[x]).spec_id(),
            ) by {
                assert(start.contains_key(ids@[order@[x] as int].id()));
            }
            assert forall|x: int, y: int| 0 <= x < y < gone.len() implies (#[trigger] gone[x]).spec_id()
                != (#[trigger] gone[y]).spec_id() by {
                assert(order@[x] != order@[y]);
                if order@[x] < order@[y] {
                    assert(ids@[order@[x] as int].id() != ids@[order@[y] as int].id());
                } else {
                    assert(ids@[order@[y] as int].id() != ids@[order@[x] as int].id());
                }
            }
            assert forall|x: int, id: StreamId|
                0 <= x < gone.len() && #[trigger] m.streams.contains_key(id) && !in_gone(
                    gone,
                    id,
                ) implies stream_began(m.streams[(#[trigger] gone[x]).spec_id()]) <= stream_began(
                m.streams[id],
            ) by {
                assert(start.contains_key(id));
                let p = choose|p: int| 0 <= p < ids@.len() && #[trigger] ids@[p].id() == id;
                assert(listed(order@, p));
                let y = choose|y: int| 0 <= y < order@.len() && #[trigger] order@[y] == p;
                if y < gone.len() {
                    assert(gone[y].spec_id() == id);
                }
                assert(comes_first(ranks@, order@[x] as int, order@[y] as int));
                assert(ranks@[order@[x] as int].1 == stream_began(m.streams[ids@[order@[x] as int]]));
                assert(ranks@[p].1 == stream_began(m.streams[ids@[p]]));
            }
            assert(oldest_streams(m, gone));
        }
    }

    /// Evicts the oldest calls, those that have ended first, while there are
    /// more than are kept. Protected calls stay. Then evicts the oldest
    /// streams.
    pub fn evict_if_needed(&mut self)
        requires
            old(self).wf(),
        ensures
            final(self).wf(),
            exists|gone: Seq<StreamKey>| #[trigger]
                oldest_streams(calls_evicted(old(self)@), gone) && final(self)@ == streams_evicted(
                    calls_evicted(old(self)@),
                    gone,
                ),
            order_agrees(old(self)@) ==> well_evicted(old(self)@, final(self)@),
    {
        self.evict_calls();
        proof {
            lemma_calls_evicted_wf(old(self)@);
        }
        let ghost mid = self@;
        self.evict_streams();
        proof {
            let gone = choose|gone: Seq<StreamKey>| #[trigger]
                oldest_streams(mid, gone) && self@ == streams_evicted(mid, gone);
            lemma_streams_evicted_wf(mid, gone);
            if order_agrees(old(self)@) {
                eviction_keeps_its_promise(old(self)@, gone);
            }
        }
    }

    /// Removes the calls that were idle for `ttl_secs` seconds. Protected calls
    /// stay. Where `ttl_secs` or the time is zero, nothing is removed.
    pub fn evict_stale(&mut self, ttl_secs: u64, now_us: u64)
        requires
            old(self).wf(),
        ensures
            final(self).wf(),
            if ttl_secs == 0 || now_us == 0 {
                final(self)@ == old(self)@
            } else {
                exists|ids: Seq<Seq<char>>| #[trigger]
                    lists_stale(ids, old(self)@, stale_before(ttl_secs, now_us)) && final(self)@
                        == calls_removed(old(self)@, ids)
            },
    {
        if ttl_secs == 0 || now_us == 0 {
            return;
        }
        let ttl_us: u64 = match ttl_secs.checked_mul(1_000_000) {
            Some(n) => n,
            None => u64::MAX,
        };
        let cutoff: u64 = now_us.saturating_sub(ttl_us);
        assert(cutoff == stale_before(ttl_secs, now_us));
        let ghost m = self@;
        let pinned = self.pinned_set();
        let keys = self.calls.keys();
        let mut stale: Vec<String> = Vec::new();
        let mut i: usize = 0;
        while i < keys.len()
            invariant
                i <= keys@.len(),
                self@ == m,
                lists(keys@, self.calls@),
                forall|id: Seq<char>| #[trigger] pinned@.contains_key(id) <==> is_pinned(m, id),
                forall|j: int|
                    0 <= j < stale@.len() ==> is_stale(m, (#[trigger] stale@[j])@, cutoff),
                forall|j: int|
                    0 <= j < stale@.len() ==> exists|n: int|
                        0 <= n < i && (#[trigger] stale@[j])@ == (#[trigger] keys@[n])@,
                forall|j: int, n: int|
                    0 <= j < n < stale@.len() ==> (#[trigger] stale@[j])@ != (
                    #[trigger] stale@[n])@,
                forall|n: int|
                    0 <= n < i && is_stale(m, (#[trigger] keys@[n])@, cutoff) ==> texts(
                        stale@,
                    ).contains(keys@[n]@),
            decreases keys@.len() - i,
        {
            let k = &keys[i];
            assert(self.calls@.contains_key(keys@[i as int].id()));
            let idle: u64 = match self.calls.get(k) {
                Some(c) => {
                    assert(m.calls[k@] == c@);
                    if c.state.is_terminal() {
                        match c.end_ts {
                            Some(e) => e,
                            None => match c.bye_ts {
                                Some(b) => b,
                                None => c.last_ts_us,
                            },
                        }
                    } else {
                        c.last_ts_us
                    }
                },
                None => 0,
            };
            assert(idle == idle_since(m.calls[k@]));
            let ghost was = stale@;
            if !pinned.contains_key(k) && idle != 0 && idle < cutoff {
                assert(is_stale(m, k@, cutoff));
                stale.push(k.clone());
                proof {
                    assert(stale@[was.len() as int]@ == keys@[i as int]@);
                    assert forall|j: int, n: int| 0 <= j < n < stale@.len() implies (
                    #[trigger] stale@[j])@ != (#[trigger] stale@[n])@ by {
                        if n == was.len() {
                            let q = choose|q: int|
                                0 <= q < i && was[j]@ == (#[trigger] keys@[q])@;
                            assert(keys@[q].id() != keys@[i as int].id());
                        }
                    }
                    assert(texts(stale@)[was.len() as int] == keys@[i as int]@);
                }
            }
            proof {
                assert forall|n: int|
                    0 <= n < i + 1 && is_stale(m, (#[trigger] keys@[n])@, cutoff) implies texts(
                    stale@,
                ).contains(keys@[n]@) by {
                    if n < i {
                        let q = texts(was).index_of(keys@[n]@);
                        assert(texts(stale@)[q] == keys@[n]@);
                    }
                }
                assert forall|j: int| 0 <= j < stale@.len() implies exists|n: int|
                    0 <= n < i + 1 && (#[trigger] stale@[j])@ == (#[trigger] keys@[n])@ by {
                    if j < was.len() {
                        let q = choose|q: int| 0 <= q < i && was[j]@ == (#[trigger] keys@[q])@;
                        assert(stale@[j]@ == keys@[q]@);
                    }
                }
            }
            i += 1;
        }
        proof {
            let ids = texts(stale@);
            assert forall|id: Seq<char>| #[trigger] ids.contains(id) <==> is_stale(m, id, cutoff) by {
                if ids.contains(id) {
                    let j = ids.index_of(id);
                    assert(ids[j] == stale@[j]@);
                }
                if is_stale(m, id, cutoff) {
                    assert(self.calls@.contains_key(id));
                    let n = choose|n: int| 0 <= n < keys@.len() && #[trigger] keys@[n].id() == id;
                    assert(keys@[n]@ == id);
                }
            }
            assert(ids.no_duplicates()) by {
                assert forall|a: int, b: int| 0 <= a < ids.len() && 0 <= b < ids.len() && a != b implies ids[a]
                    != ids[b] by {
                    if a < b {
                        assert(stale@[a]@ != stale@[b]@);
                    } else {
                        assert(stale@[b]@ != stale@[a]@);
                    }
                }
            }
            assert(lists_stale(ids, m, cutoff));
            lemma_calls_removed_wf(m, ids);
        }
        self.remove_calls(&stale);
    }
}

/// The removal of calls keeps a registry in order.
pub proof fn lemma_calls_removed_wf(m: RegModel, ids: Seq<Seq<char>>)
    requires
        reg_wf(m),
    ensures
        reg_wf(calls_removed(m, ids)),
{
    if ids.len() > 0 {
        lemma_without_calls_keeps(m, ids);
        let n = calls_removed(m, ids);
        assert forall|k: StreamId| #[trigger] n.streams.contains_key(k) implies (
            n.streams[k].flow.spec_key(),
            n.streams[k].ssrc,
        ) == k by {
            assert(n.streams.dom().contains(k));
            assert(m.streams.dom().contains(k));
        }
        assert forall|id: Seq<char>| #[trigger] n.calls.contains_key(id) implies n.calls[id].call_id
            == id by {
            assert(n.calls.dom().contains(id));
            assert(m.calls.dom().contains(id));
        }
    }
}

/// The eviction of calls keeps a registry in order.
pub proof fn lemma_calls_evicted_wf(m: RegModel)
    requires
        reg_wf(m),
    ensures
        reg_wf(calls_evicted(m)),
    decreases m.calls.dom().len(),
{
    if m.calls.dom().finite() && m.calls.dom().len() > m.max_calls {
        if let Some(id) = victim(m) {
            lemma_oldest_place(m, true, m.order.len() as int);
            lemma_oldest_place(m, false, m.order.len() as int);
            lemma_one_removed(m, id);
            lemma_calls_removed_wf(m, seq![id]);
            lemma_calls_evicted_wf(calls_removed(m, seq![id]));
        }
    }
}

/// The eviction of streams keeps a registry in order.
pub proof fn lemma_streams_evicted_wf(m: RegModel, gone: Seq<StreamKey>)
    requires
        reg_wf(m),
    ensures
        reg_wf(streams_evicted(m, gone)),
        streams_evicted(m, gone).calls == m.calls,
        streams_evicted(m, gone).search_matches == m.search_matches,
        streams_evicted(m, gone).focus_hint == m.focus_hint,
    decreases gone.len(),
{
    if gone.len() > 0 {
        lemma_streams_evicted_wf(m, gone.drop_last());
    }
}

/// When a call was invited, for the filter's list.
pub open spec fn invited_at(m: RegModel, id: Seq<char>) -> u64 {
    match m.calls[id].invite_ts {
        Some(t) => t,
        None => 0,
    }
}

/// Whether a call matches the rules of a filter.
pub open spec fn is_match(m: RegModel, id: Seq<char>, rules: Seq<RuleModel>) -> bool {
    m.calls.contains_key(id) && all_match(m.calls[id], rules)
}

/// Whether `ids` are the calls that a filter pins: the newest of those that
/// match, each once, the newest first, at most [`SEARCH_PIN_MAX`].
pub open spec fn newest_matches(ids: Seq<Seq<char>>, m: RegModel, rules: Seq<RuleModel>) -> bool {
    &&& ids.no_duplicates()
    &&& ids.len() <= SEARCH_PIN_MAX
    &&& forall|i: int| 0 <= i < ids.len() ==> is_match(m, #[trigger] ids[i], rules)
    &&& forall|i: int, j: int|
        0 <= i < j < ids.len() ==> invited_at(m, #[trigger] ids[i]) >= invited_at(
            m,
            #[trigger] ids[j],
        )
    &&& forall|id: Seq<char>, i: int| #[trigger]
        is_match(m, id, rules) && !ids.contains(id) && 0 <= i < ids.len() ==> invited_at(m, id)
            <= invited_at(m, #[trigger] ids[i])
    &&& forall|id: Seq<char>| #[trigger]
        is_match(m, id, rules) && !ids.contains(id) ==> ids.len() == SEARCH_PIN_MAX
}

/// Whether `next` is a registry with the filter's list made anew.
pub open spec fn refreshed(m: RegModel, next: RegModel) -> bool {
    &&& next == (RegModel { search_matches: next.search_matches, ..m })
    &&& match m.search_hint {
        Some(q) => newest_matches(next.search_matches, m, rules_from(q, 0)),
        None => next.search_matches.len() == 0,
    }
}

/// A query without white space at its ends; none where nothing is left.
pub open spec fn normal_query(q: Option<Seq<char>>) -> Option<Seq<char>> {
    match q {
        Some(t) => if trimmed(t).len() > 0 {
            Some(trimmed(t))
        } else {
            None
        },
        None => None,
    }
}

impl Registry {
    /// Makes the list of the calls that the filter pins anew.
    pub fn refresh_search_matches(&mut self)
        ensures
            refreshed(old(self)@, final(self)@),
    {
        let rules = match &self.search_hint {
            Some(q) => parse(q.as_str()),
            None => {
                self.search_matches = Vec::new();
                return;
            },
        };
        let ghost m = self@;
        let ghost rm = rule_models(rules@);
        assert(rm == rules_from(m.search_hint->0, 0));
        let keys = self.calls.keys();
        let mut found: Vec<String> = Vec::new();
        let mut ranks: Vec<Rank> = Vec::new();
        let mut i: usize = 0;
        while i < keys.len()
            invariant
                i <= keys@.len(),
                self@ == m,
                *self == *old(self),
                rm == rule_models(rules@),
                lists(keys@, self.calls@),
                ranks@.len() == found@.len(),
                forall|j: int|
                    0 <= j < found@.len() ==> is_match(m, (#[trigger] found@[j])@, rm),
                forall|j: int|
                    0 <= j < found@.len() ==> #[trigger] ranks@[j] == (
                        false,
                        (u64::MAX - invited_at(m, found@[j]@)) as u128,
                    ),
                forall|j: int|
                    0 <= j < found@.len() ==> exists|n: int|
                        0 <= n < i && (#[trigger] found@[j])@ == (#[trigger] keys@[n])@,
                forall|j: int, n: int|
                    0 <= j < n < found@.len() ==> (#[trigger] found@[j])@ != (
                    #[trigger] found@[n])@,
                forall|n: int|
                    0 <= n < i && is_match(m, (#[trigger] keys@[n])@, rm) ==> texts(
                        found@,
                    ).contains(keys@[n]@),
            decreases keys@.len() - i,
        {
            let k = &keys[i];
            assert(self.calls@.contains_key(keys@[i as int].id()));
            let ghost was = found@;
            if let Some(c) = self.calls.get(k) {
                assert(m.calls[k@] == c@);
                if crate::filter::matches(c, &rules) {
                    let t: u64 = match c.invite_ts {
                        Some(t) => t,
                        None => 0,
                    };
                    found.push(k.clone());
                    ranks.push((false, (u64::MAX - t) as u128));
                    proof {
                        assert(found@[was.len() as int]@ == keys@[i as int]@);
                        assert forall|j: int, n: int| 0 <= j < n < found@.len() implies (
                        #[trigger] found@[j])@ != (#[trigger] found@[n])@ by {
                            if n == was.len() {
                                let q = choose|q: int|
                                    0 <= q < i && was[j]@ == (#[trigger] keys@[q])@;
                                assert(keys@[q].id() != keys@[i as int].id());
                            }
                        }
                        assert(texts(found@)[was.len() as int] == keys@[i as int]@);
                    }
                }
            }
            proof {
                assert forall|n: int|
                    0 <= n < i + 1 && is_match(m, (#[trigger] keys@[n])@, rm) implies texts(
                    found@,
                ).contains(keys@[n]@) by {
                    if n < i {
                        let q = texts(was).index_of(keys@[n]@);
                        assert(texts(found@)[q] == keys@[n]@);
                    }
                }
                assert forall|j: int| 0 <= j < found@.len() implies exists|n: int|
                    0 <= n < i + 1 && (#[trigger] found@[j])@ == (#[trigger] keys@[n])@ by {
                    if j < was.len() {
                        let q = choose|q: int| 0 <= q < i && was[j]@ == (#[trigger] keys@[q])@;
                        assert(found@[j]@ == keys@[q]@);
                    }
                }
            }
            i += 1;
        }
        let order = stable_order(&ranks);
        proof {
            lemma_order_covers(order@, ranks@);
        }
        let mut out: Vec<String> = Vec::new();
        let mut j: usize = 0;
        while j < order.len() && j < SEARCH_PIN_MAX
            invariant
                j <= order@.len(),
                j <= SEARCH_PIN_MAX,
                order@.len() == found@.len(),
                ranks@.len() == found@.len(),
                sorts(order@, ranks@),
                out@.len() == j,
                forall|x: int| 0 <= x < j ==> (#[trigger] out@[x])@ == found@[order@[x] as int]@,
            decreases order@.len() - j,
        {
            let p: usize = order[j];
            out.push(found[p].clone());
            j += 1;
        }
        proof {
            assert forall|id: Seq<char>| #[trigger] is_match(m, id, rm) implies texts(
                found@,
            ).contains(id) by {
                assert(self.calls@.contains_key(id));
                let n = choose|n: int| 0 <= n < keys@.len() && #[trigger] keys@[n].id() == id;
                assert(keys@[n]@ == id);
            }
            lemma_pins(m, rm, found@, ranks@, order@, out@);
        }
        self.search_matches = out;
    }

    /// Sets the filter query. The list of the calls that it pins is made anew
    /// where the query changes.
    pub fn set_search_hint(&mut self, q: Option<&str>)
        ensures
            ({
                let query = normal_query(
                    match q {
                        Some(t) => Some(t@),
                        None => None,
                    },
                );
                if query == old(self)@.search_hint {
                    final(self)@ == old(self)@
                } else {
                    refreshed(RegModel { search_hint: query, ..old(self)@ }, final(self)@)
                }
            }),
    {
        let query: Option<String> = match q {
            Some(t) => {
                let s = trim_text(t).to_owned();
                if s.chars().next().is_some() {
                    Some(s)
                } else {
                    None
                }
            },
            None => None,
        };
        let same = match (&query, &self.search_hint) {
            (Some(a), Some(b)) => same_text(a.as_str(), b.as_str()),
            (None, None) => true,
            _ => false,
        };
        if same {
            return;
        }
        self.search_hint = query;
        self.refresh_search_matches();
    }
}

proof fn lemma_pins(
    m: RegModel,
    rules: Seq<RuleModel>,
    found: Seq<String>,
    ranks: Seq<Rank>,
    order: Seq<usize>,
    out: Seq<String>,
)
    requires
        ranks.len() == found.len(),
        sorts(order, ranks),
        out.len() == if found.len() < SEARCH_PIN_MAX {
            found.len() as int
        } else {
            SEARCH_PIN_MAX as int
        },
        forall|x: int| 0 <= x < out.len() ==> (#[trigger] out[x])@ == found[order[x] as int]@,
        forall|j: int| 0 <= j < found.len() ==> is_match(m, (#[trigger] found[j])@, rules),
        forall|j: int|
            0 <= j < found.len() ==> #[trigger] ranks[j] == (
                false,
                (u64::MAX - invited_at(m, found[j]@)) as u128,
            ),
        forall|j: int, n: int|
            0 <= j < n < found.len() ==> (#[trigger] found[j])@ != (#[trigger] found[n])@,
        forall|id: Seq<char>| #[trigger] is_match(m, id, rules) ==> texts(found).contains(id),
    ensures
        newest_matches(texts(out), m, rules),
{
    let ids = texts(out);
    lemma_order_covers(order, ranks);
    assert forall|x: int, y: int| 0 <= x < ids.len() && 0 <= y < ids.len() && x != y implies ids[x]
        != ids[y] by {
        assert(out[x]@ == found[order[x] as int]@);
        assert(out[y]@ == found[order[y] as int]@);
        assert(order[x] != order[y]);
        if order[x] < order[y] {
            assert(found[order[x] as int]@ != found[order[y] as int]@);
        } else {
            assert(found[order[y] as int]@ != found[order[x] as int]@);
        }
    }
    assert forall|x: int| 0 <= x < ids.len() implies is_match(m, #[trigger] ids[x], rules) by {
        assert(out[x]@ == found[order[x] as int]@);
        assert(is_match(m, found[order[x] as int]@, rules));
    }
    assert forall|x: int, y: int| 0 <= x < y < ids.len() implies invited_at(m, #[trigger] ids[x])
        >= invited_at(m, #[trigger] ids[y]) by {
        assert(out[x]@ == found[order[x] as int]@);
        assert(out[y]@ == found[order[y] as int]@);
        assert(comes_first(ranks, order[x] as int, order[y] as int));
        assert(ranks[order[x] as int].1 <= ranks[order[y] as int].1);
    }
    assert forall|id: Seq<char>| #[trigger] is_match(m, id, rules) && !ids.contains(
        id,
    ) implies ids.len() == SEARCH_PIN_MAX && forall|x: int|
        0 <= x < ids.len() ==> invited_at(m, id) <= invited_at(m, #[trigger] ids[x]) by {
        let p = texts(found).index_of(id);
        assert(found[p]@ == id);
        assert(listed(order, p));
        let y = choose|y: int| 0 <= y < order.len() && #[trigger] order[y] == p;
        if y < out.len() {
            assert(out[y]@ == found[order[y] as int]@);
            assert(ids[y] == id);
        }
        assert forall|x: int| 0 <= x < ids.len() implies invited_at(m, id) <= invited_at(
            m,
            #[trigger] ids[x],
        ) by {
            assert(out[x]@ == found[order[x] as int]@);
            assert(comes_first(ranks, order[x] as int, order[y] as int));
            assert(ranks[order[x] as int].1 <= ranks[order[y] as int].1);
        }
    }
}

/// A protected call is never stale, and the removal of stale calls leaves it
/// as it is.
pub proof fn a_pinned_call_does_not_go_stale(
    m: RegModel,
    ids: Seq<Seq<char>>,
    cutoff: u64,
    id: Seq<char>,
)
    requires
        lists_stale(ids, m, cutoff),
        m.calls.contains_key(id),
        is_pinned(m, id),
    ensures
        calls_removed(m, ids).calls.contains_key(id),
        calls_removed(m, ids).calls[id] == m.calls[id],
{
    lemma_without_calls_keeps(m, ids);
    assert(!ids.contains(id));
    let n = without_calls(m, ids);
    assert(n.calls.contains_key(id));
    assert(n.calls.dom().contains(id) && m.calls.dom().contains(id));
}

/// A stale call goes with the removal of stale calls.
pub proof fn a_stale_call_goes(m: RegModel, ids: Seq<Seq<char>>, cutoff: u64, id: Seq<char>)
    requires
        lists_stale(ids, m, cutoff),
        is_stale(m, id, cutoff),
    ensures
        !calls_removed(m, ids).calls.contains_key(id),
{
    lemma_without_calls_keeps(m, ids);
    assert(ids.contains(id));
    assert(ids.len() > 0);
    assert(without_calls(m, ids).calls.contains_key(id) <==> m.calls.contains_key(id)
        && !ids.contains(id));
}

/// A protected call is never evicted, however many calls there are.
pub proof fn a_pinned_call_is_not_evicted(m: RegModel, id: Seq<char>)
    requires
        m.calls.contains_key(id),
        is_pinned(m, id),
    ensures
        calls_evicted(m).calls.contains_key(id),
        calls_evicted(m).calls[id] == m.calls[id],
    decreases m.calls.dom().len(),
{
    if m.calls.dom().finite() && m.calls.dom().len() > m.max_calls {
        if let Some(v) = victim(m) {
            lemma_oldest_place(m, true, m.order.len() as int);
            lemma_oldest_place(m, false, m.order.len() as int);
            lemma_one_removed(m, v);
            lemma_without_calls_keeps(m, seq![v]);
            let n = calls_removed(m, seq![v]);
            assert(v != id);
            assert(n.search_matches == m.search_matches && n.focus_hint == m.focus_hint);
            assert(n.calls.contains_key(id) && n.calls[id] == m.calls[id]);
            a_pinned_call_is_not_evicted(n, id);
        }
    }
}

/// Eviction ends with no more calls than are kept, or with none left that may
/// be evicted.
pub proof fn eviction_reaches_its_limit(m: RegModel)
    requires
        m.calls.dom().finite(),
    ensures
        calls_evicted(m).calls.dom().finite(),
        calls_evicted(m).calls.dom().len() <= m.max_calls || victim(calls_evicted(m)) is None,
        calls_evicted(m).max_calls == m.max_calls,
    decreases m.calls.dom().len(),
{
    if m.calls.dom().len() > m.max_calls {
        if let Some(v) = victim(m) {
            lemma_oldest_place(m, true, m.order.len() as int);
            lemma_oldest_place(m, false, m.order.len() as int);
            lemma_one_removed(m, v);
            eviction_reaches_its_limit(calls_removed(m, seq![v]));
        }
    }
}

/// A call in progress is evicted only where no call that has ended may be,
/// and of calls alike the oldest goes.
pub proof fn ended_calls_go_first(m: RegModel, id: Seq<char>, place: int)
    requires
        victim(m) == Some(id),
        0 <= place < m.order.len(),
    ensures
        evictable(m, id, false),
        !ended(m.calls[id].state) ==> !evictable(m, m.order[place], true),
        ended(m.calls[id].state) && evictable(m, m.order[place], true) ==> began(m, id) <= began(
            m,
            m.order[place],
        ),
{
    lemma_oldest_place(m, true, m.order.len() as int);
    lemma_oldest_place(m, false, m.order.len() as int);
}

/// Nothing is left of a removed call but the note of its removal.
pub proof fn a_removed_call_leaves_no_trace(m: RegModel, ids: Seq<Seq<char>>, id: Seq<char>)
    requires
        ids.contains(id),
    ensures
        ({
            let n = calls_removed(m, ids);
            &&& !n.calls.contains_key(id)
            &&& !n.stream_index.contains_key(id)
            &&& !n.order.contains(id)
            &&& n.removed.contains(id)
            &&& forall|a| #[trigger] n.endpoint_call.contains_key(a) ==> n.endpoint_call[a] != id
        }),
{
    lemma_without_calls_keeps(m, ids);
    let w = without_calls(m, ids);
    let n = calls_removed(m, ids);
    assert(!w.calls.contains_key(id));
    assert(!w.stream_index.contains_key(id));
    if n.order.contains(id) {
        w.order.lemma_filter_pred(none_of(ids), n.order.index_of(id));
    }
    let i = ids.index_of(id);
    assert(n.removed[m.removed.len() + i] == id);
}

/// The removal of calls leaves the other calls as they are.
pub proof fn other_calls_are_left_alone(m: RegModel, ids: Seq<Seq<char>>, id: Seq<char>)
    requires
        !ids.contains(id),
    ensures
        calls_removed(m, ids).calls.contains_key(id) == m.calls.contains_key(id),
        m.calls.contains_key(id) ==> calls_removed(m, ids).calls[id] == m.calls[id],
        list_at(calls_removed(m, ids).stream_index, id) == list_at(m.stream_index, id),
{
    lemma_without_calls_keeps(m, ids);
    let w = without_calls(m, ids);
    assert(w.calls.contains_key(id) <==> m.calls.contains_key(id));
    assert(w.stream_index.contains_key(id) <==> m.stream_index.contains_key(id));
    if m.calls.contains_key(id) {
        assert(w.calls.dom().contains(id) && m.calls.dom().contains(id));
    }
    if m.stream_index.contains_key(id) {
        assert(w.stream_index.dom().contains(id) && m.stream_index.dom().contains(id));
    }
}

/// A call is pinned while a search matches it or the user looks at it, or at the call
/// that it is linked to.
pub proof fn a_call_is_pinned_by_a_search_or_a_look(m: RegModel, id: Seq<char>)
    ensures
        is_pinned(m, id) <==> (exists|i: int|
            0 <= i < m.search_matches.len() && #[trigger] m.search_matches[i] == id) || (
        m.focus_hint is Some && (m.focus_hint->0.primary == id || (m.focus_hint->0.linked is Some
            && m.focus_hint->0.linked->0 == id))),
{
}

/// A call begins with its INVITE; one without comes last among the oldest, and first
/// among the newest.
pub proof fn a_call_begins_with_its_invite(m: RegModel, id: Seq<char>)
    ensures
        m.calls[id].invite_ts matches Some(t) ==> began(m, id) == t && invited_at(m, id) == t,
        m.calls[id].invite_ts is None ==> began(m, id) == u64::MAX && invited_at(m, id) == 0,
{
}

/// A call in progress is idle since its last packet. One that is over is idle since
/// its end, or else its BYE, or else its last packet.
pub proof fn a_call_is_idle_since_its_end(c: CallModel)
    ensures
        ({
            let under_way = c.state == CallState::Dialing || c.state == CallState::Ringing || c.state
                == CallState::Active;
            &&& under_way ==> idle_since(c) == c.last_ts_us
            &&& !under_way && c.end_ts is Some ==> idle_since(c) == c.end_ts->0
            &&& !under_way && c.end_ts is None && c.bye_ts is Some ==> idle_since(c) == c.bye_ts->0
            &&& !under_way && c.end_ts is None && c.bye_ts is None ==> idle_since(c) == c.last_ts_us
        }),
{
}

/// A call is stale that is idle for longer than its time to live, unless it is pinned
/// or its time is not known.
pub proof fn a_call_is_stale_after_its_time(m: RegModel, id: Seq<char>, ttl_secs: u64, now_us: u64)
    requires
        m.calls.contains_key(id),
        ttl_secs * 1_000_000 <= now_us,
    ensures
        is_stale(m, id, stale_before(ttl_secs, now_us)) <==> !is_pinned(m, id) && idle_since(
            m.calls[id],
        ) != 0 && idle_since(m.calls[id]) + ttl_secs * 1_000_000 < now_us,
{
}

/// Nothing is stale before its time to live has passed since the first moment.
pub proof fn nothing_is_stale_at_first(m: RegModel, id: Seq<char>, ttl_secs: u64, now_us: u64)
    requires
        now_us < ttl_secs * 1_000_000,
        idle_since(m.calls[id]) >= 0,
    ensures
        !is_stale(m, id, stale_before(ttl_secs, now_us)),
{
}

/// A search pins the newest of the calls that match, at most a thousand, the newest
/// first, and leaves none out while there is room.
pub proof fn a_search_pins_the_newest_matches(m: RegModel, next: RegModel, q: Seq<char>)
    requires
        refreshed(m, next),
        m.search_hint == Some(q),
    ensures
        ({
            let ids = next.search_matches;
            let rules = rules_from(q, 0);
            &&& ids.no_duplicates() && ids.len() <= 1000
            &&& forall|i: int|
                0 <= i < ids.len() ==> m.calls.contains_key(#[trigger] ids[i]) && all_match(
                    m.calls[ids[i]],
                    rules,
                )
            &&& forall|id: Seq<char>|
                ids.len() < 1000 && #[trigger] m.calls.contains_key(id) && all_match(
                    m.calls[id],
                    rules,
                ) ==> ids.contains(id)
            &&& forall|i: int, j: int|
                0 <= i < j < ids.len() && m.calls[ids[i]].invite_ts is Some && m.calls[ids[j]].invite_ts is Some
                    ==> m.calls[#[trigger] ids[i]].invite_ts->0 >= m.calls[#[trigger] ids[j]].invite_ts->0
            &&& forall|id: Seq<char>, i: int|
                0 <= i < ids.len() && #[trigger] m.calls.contains_key(id) && all_match(m.calls[id], rules)
                    && !ids.contains(id) && m.calls[id].invite_ts is Some
                    && m.calls[ids[i]].invite_ts is Some ==> m.calls[id].invite_ts->0
                    <= m.calls[#[trigger] ids[i]].invite_ts->0
        }),
{
    let ids = next.search_matches;
    let rules = rules_from(q, 0);
    assert forall|i: int| 0 <= i < ids.len() implies m.calls.contains_key(#[trigger] ids[i]) && all_match(
        m.calls[ids[i]],
        rules,
    ) by {
        assert(is_match(m, ids[i], rules));
    }
    assert forall|id: Seq<char>|
        ids.len() < 1000 && #[trigger] m.calls.contains_key(id) && all_match(m.calls[id], rules) implies ids.contains(
    id) by {
        assert(is_match(m, id, rules));
    }
    assert forall|i: int, j: int|
        0 <= i < j < ids.len() && m.calls[ids[i]].invite_ts is Some && m.calls[ids[j]].invite_ts is Some implies m.calls[#[trigger] ids[i]].invite_ts->0
        >= m.calls[#[trigger] ids[j]].invite_ts->0 by {
        assert(invited_at(m, ids[i]) >= invited_at(m, ids[j]));
    }
    assert forall|id: Seq<char>, i: int|
        0 <= i < ids.len() && #[trigger] m.calls.contains_key(id) && all_match(m.calls[id], rules)
            && !ids.contains(id) && m.calls[id].invite_ts is Some && m.calls[ids[i]].invite_ts is Some implies m.calls[id].invite_ts->0
        <= m.calls[#[trigger] ids[i]].invite_ts->0 by {
        assert(is_match(m, id, rules));
        assert(invited_at(m, id) <= invited_at(m, ids[i]));
    }
}

/// A query is trimmed, and one without anything left is none.
pub proof fn a_query_is_trimmed(t: Seq<char>)
    ensures
        normal_query(None) is None,
        trimmed(t).len() > 0 ==> normal_query(Some(t)) == Some(trimmed(t)),
        trimmed(t).len() == 0 ==> normal_query(Some(t)) is None,
{
}

/// No more calls go than are too many: as many stay as are kept, or all where there
/// are fewer.
pub proof fn no_more_calls_go_than_are_too_many(m: RegModel)
    requires
        m.calls.dom().finite(),
    ensures
        m.calls.dom().len() <= m.max_calls ==> calls_evicted(m) == m,
        m.calls.dom().len() > m.max_calls ==> calls_evicted(m).calls.dom().len() >= m.max_calls,
    decreases m.calls.dom().len(),
{
    if m.calls.dom().len() > m.max_calls {
        if let Some(v) = victim(m) {
            lemma_oldest_place(m, true, m.order.len() as int);
            lemma_oldest_place(m, false, m.order.len() as int);
            lemma_one_removed(m, v);
            let n = calls_removed(m, seq![v]);
            assert(n.calls.dom() =~= m.calls.dom().remove(v));
            no_more_calls_go_than_are_too_many(n);
        }
    }
}

/// The call that goes is over and not pinned, the one that began first of all such
/// calls. Only where there is none does a call in progress go, again the one that
/// began first. None goes where all are pinned.
pub proof fn the_oldest_call_that_is_over_goes_first(m: RegModel, place: int)
    requires
        0 <= place < m.order.len(),
        m.calls.contains_key(m.order[place]),
        !is_pinned(m, m.order[place]),
    ensures
        ({
            let c = m.calls[m.order[place]];
            let over = c.state == CallState::Completed || c.state == CallState::Failed || c.state
                == CallState::Canceled;
            &&& victim(m) matches Some(id) && {
                let v = m.calls[id];
                let gone = v.state == CallState::Completed || v.state == CallState::Failed || v.state
                    == CallState::Canceled;
                &&& m.calls.contains_key(id) && !is_pinned(m, id)
                &&& over ==> gone
                &&& over == gone && c.invite_ts is Some && c.invite_ts->0 < u64::MAX
                    ==> v.invite_ts is Some && v.invite_ts->0 <= c.invite_ts->0
            }
        }),
{
    let n = m.order.len() as int;
    lemma_oldest_place(m, true, n);
    lemma_oldest_place(m, false, n);
    let id = m.order[place];
    assert(evictable(m, id, false));
    let c = m.calls[id];
    if ended(c.state) {
        assert(evictable(m, id, true));
    }
    let v = victim(m)->0;
    if c.invite_ts is Some && ended(c.state) == ended(m.calls[v].state) {
        assert(began(m, v) <= began(m, id));
    }
}

/// A stream begins with its first packet, and one without packets comes last among
/// the oldest.
pub proof fn a_stream_begins_with_its_first_packet(s: StreamModel)
    ensures
        s.first_ts_us matches Some(t) ==> stream_began(s) == t,
        s.first_ts_us is None ==> stream_began(s) == u64::MAX,
{
}

/// The streams that go are the oldest, as many as are too many, each once.
pub proof fn the_oldest_streams_go(m: RegModel, gone: Seq<StreamKey>, i: int, id: StreamId)
    requires
        oldest_streams(m, gone),
    ensures
        m.streams.dom().len() <= m.max_streams ==> gone.len() == 0,
        m.streams.dom().len() > m.max_streams ==> gone.len() + m.max_streams
            == m.streams.dom().len(),
        0 <= i < gone.len() && m.streams.contains_key(id) && !in_gone(gone, id) && m.streams[(
        gone[i].flow.spec_key(),
        gone[i].ssrc,
    )].first_ts_us is Some && m.streams[id].first_ts_us is Some ==> m.streams[(
        gone[i].flow.spec_key(),
        gone[i].ssrc,
    )].first_ts_us->0 <= m.streams[id].first_ts_us->0,
{
    if 0 <= i < gone.len() {
        assert(gone[i].spec_id() == (gone[i].flow.spec_key(), gone[i].ssrc));
    }
}

/// What is removed with some calls: those calls, the streams that the index names for
/// them, and the addresses that were negotiated in them. The order of the others and
/// everything else stays, and the removed calls are noted in their order.
pub proof fn a_removal_takes_only_what_is_of_its_calls(m: RegModel, ids: Seq<Seq<char>>)
    ensures
        ({
            let n = calls_removed(m, ids);
            &&& n.removed == m.removed + ids
            &&& n.order == m.order.filter(|t: Seq<char>| !ids.contains(t))
            &&& forall|a: SockKey|
                m.endpoint_call.contains_key(a) && !ids.contains(#[trigger] m.endpoint_call[a])
                    ==> n.endpoint_call.contains_key(a) && n.endpoint_call[a] == m.endpoint_call[a]
            &&& n.pkts_total == m.pkts_total && n.completed == m.completed && n.failed == m.failed
            &&& n.ipstats == m.ipstats && n.cells == m.cells && n.events == m.events
            &&& n.imported_streams == m.imported_streams && n.diagnostics == m.diagnostics
            &&& n.search_matches == m.search_matches && n.focus_hint == m.focus_hint
        }),
{
    lemma_without_calls_keeps(m, ids);
    let keep = |t: Seq<char>| !ids.contains(t);
    assert(none_of(ids) =~= keep);
    if ids.len() == 0 {
        assert(m.removed + ids =~= m.removed);
        lemma_all_kept(m.order, keep);
    }
}

proof fn lemma_all_kept<T>(s: Seq<T>, keep: spec_fn(T) -> bool)
    requires
        forall|x: T| #[trigger] keep(x),
    ensures
        s.filter(keep) == s,
    decreases s.len(),
{
    reveal(Seq::filter);
    if s.len() > 0 {
        lemma_all_kept(s.drop_last(), keep);
        assert(keep(s.last()));
        assert(s.drop_last().push(s.last()) =~= s);
    } else {
        assert(s.filter(keep) =~= s);
    }
}

} // verus!
