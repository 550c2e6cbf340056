//! What holds between the parts of a registry: the order lists the calls, and
//! the indexes list the streams.
use crate::addr::flow_key_is_injective;
use crate::correlate::stream::StreamModel;
use crate::model::media::SummaryModel;
use crate::model::sip::{ended, CallModel};
use crate::small::{other_than, StreamId};
use crate::store::evict::{
    a_pinned_call_is_not_evicted, began, calls_evicted, calls_removed, evictable, in_gone, is_pinned, lemma_oldest_place, lemma_one_removed,
    lemma_without_calls_keeps, none_of, oldest_streams, streams_evicted, victim, without_call,
    without_calls, without_stream, without_streams,
};
use crate::store::registry::{
    cleared, empty_registry, import_id, key_of, list_at, other_stream, stream_forgotten, streams_wf,
    struck, with_call, with_imported, with_stream, ImportId, RegModel, StreamKey,
};
use vstd::prelude::*;

verus! {

/// Whether the order lists the calls, each once.
pub open spec fn order_agrees(m: RegModel) -> bool {
    &&& m.order.no_duplicates()
    &&& forall|id: Seq<char>| #[trigger] m.order.contains(id) <==> m.calls.contains_key(id)
}

/// Whether the index by call lists the streams of each call, each once, and
/// has no empty list.
pub open spec fn calls_agree(m: RegModel) -> bool {
    &&& forall|id: StreamId| #[trigger] m.stream_call.contains_key(id) <==> m.streams.contains_key(id)
    &&& forall|c: Seq<char>, k: StreamKey| #[trigger]
        list_at(m.stream_index, c).contains(k) <==> m.streams.contains_key(k.spec_id())
            && m.stream_call[k.spec_id()] == c
    &&& forall|c: Seq<char>| #[trigger]
        m.stream_index.contains_key(c) ==> m.stream_index[c].len() > 0
            && m.stream_index[c].no_duplicates()
}

/// Whether the index by source lists the streams of each source, each once,
/// and has no empty list.
pub open spec fn sources_agree(m: RegModel) -> bool {
    &&& forall|s: u32, id: StreamId| #[trigger]
        list_at(m.ssrc_index, s).contains(id) <==> m.streams.contains_key(id) && id.1 == s
    &&& forall|s: u32| #[trigger]
        m.ssrc_index.contains_key(s) ==> m.ssrc_index[s].len() > 0 && m.ssrc_index[s].no_duplicates()
}

/// Whether the index of imported streams lists those of each call, each once.
/// Those of no call are not listed.
pub open spec fn imports_agree(m: RegModel) -> bool {
    &&& forall|c: Seq<char>, k: ImportId| #[trigger]
        list_at(m.imported_by_call, c).contains(k) <==> m.imported_streams.contains_key(k) && k.0
            == c && c.len() > 0
    &&& forall|c: Seq<char>| #[trigger]
        m.imported_by_call.contains_key(c) ==> m.imported_by_call[c].no_duplicates()
}

/// Whether the streams and their indexes agree.
pub open spec fn streams_agree(m: RegModel) -> bool {
    streams_wf(m) && calls_agree(m) && sources_agree(m)
}

/// Whether the parts of a registry agree with each other.
pub open spec fn agrees(m: RegModel) -> bool {
    &&& order_agrees(m)
    &&& streams_agree(m)
    &&& imports_agree(m)
}

/// The parts of a registry agree where it holds nothing: at the start, and once
/// it is cleared.
pub proof fn an_empty_registry_agrees(source: Seq<char>, m: RegModel)
    ensures
        agrees(empty_registry(source)),
        agrees(cleared(m)),
{
}

/// To look a call up, with a new one where there was none, and to change it
/// keeps a registry in agreement.
pub proof fn a_call_keeps_agreement(m: RegModel, id: Seq<char>, c: CallModel)
    requires
        agrees(m),
    ensures
        agrees(with_call(m, id, c)),
{
    let n = with_call(m, id, c);
    if !m.calls.contains_key(id) {
        lemma_pushed(m.order, id);
    }
    assert forall|x: Seq<char>| #[trigger] n.order.contains(x) <==> n.calls.contains_key(x) by {
        assert(m.order.contains(x) <==> m.calls.contains_key(x));
    }
    assert(n.order.no_duplicates()) by {
        assert(m.order.contains(id) <==> m.calls.contains_key(id));
    }
    lemma_same_streams(m, n);
}

/// The agreement of the streams rests on the streams and their indexes alone.
proof fn lemma_same_streams(m: RegModel, n: RegModel)
    requires
        m.streams == n.streams,
        m.stream_call == n.stream_call,
        m.stream_index == n.stream_index,
        m.ssrc_index == n.ssrc_index,
        m.imported_streams == n.imported_streams,
        m.imported_by_call == n.imported_by_call,
    ensures
        streams_wf(m) == streams_wf(n),
        calls_agree(m) == calls_agree(n),
        sources_agree(m) == sources_agree(n),
        imports_agree(m) == imports_agree(n),
{
}

/// Agreement rests on the calls, the order, the streams and the indexes alone;
/// of the calls, on their Call-IDs.
pub proof fn lemma_same_parts(m: RegModel, n: RegModel)
    requires
        agrees(m),
        m.calls.dom() == n.calls.dom(),
        m.order == n.order,
        m.streams == n.streams,
        m.stream_call == n.stream_call,
        m.stream_index == n.stream_index,
        m.ssrc_index == n.ssrc_index,
        m.imported_streams == n.imported_streams,
        m.imported_by_call == n.imported_by_call,
    ensures
        agrees(n),
{
    lemma_same_streams(m, n);
    assert forall|id: Seq<char>| #[trigger] n.order.contains(id) <==> n.calls.contains_key(id) by {
        assert(m.order.contains(id) <==> m.calls.contains_key(id));
    }
}

/// What a list holds once `x` is appended.
pub proof fn lemma_pushed<T>(s: Seq<T>, x: T)
    ensures
        forall|y: T| #[trigger] s.push(x).contains(y) <==> s.contains(y) || y == x,
        s.no_duplicates() && !s.contains(x) ==> s.push(x).no_duplicates(),
{
    let t = s.push(x);
    assert forall|y: T| #[trigger] t.contains(y) <==> s.contains(y) || y == x by {
        if s.contains(y) {
            assert(t[s.index_of(y)] == y);
        }
        if y == x {
            assert(t[s.len() as int] == y);
        }
        if t.contains(y) && y != x {
            assert(s[t.index_of(y)] == y);
        }
    }
    if s.no_duplicates() && !s.contains(x) {
        assert forall|i: int, j: int| 0 <= i < t.len() && 0 <= j < t.len() && i != j implies t[i] != t[j] by {
            if i < s.len() {
                assert(s.contains(s[i]));
            }
            if j < s.len() {
                assert(s.contains(s[j]));
            }
        }
    }
}

/// What a list holds once the members that `keep` refuses are gone.
proof fn lemma_filtered<T>(s: Seq<T>, keep: spec_fn(T) -> bool)
    ensures
        forall|y: T| #[trigger] s.filter(keep).contains(y) <==> s.contains(y) && keep(y),
        s.no_duplicates() ==> s.filter(keep).no_duplicates(),
    decreases s.len(),
{
    reveal(Seq::filter);
    if s.len() > 0 {
        let t = s.drop_last();
        lemma_filtered(t, keep);
        assert(s =~= t.push(s.last()));
        lemma_pushed(t, s.last());
        lemma_pushed(t.filter(keep), s.last());
        if s.no_duplicates() {
            assert(!t.contains(s.last())) by {
                if t.contains(s.last()) {
                    let i = t.index_of(s.last());
                    assert(s[i] == s[s.len() - 1]);
                }
            }
            assert(t.no_duplicates()) by {
                assert forall|i: int, j: int| 0 <= i < t.len() && 0 <= j < t.len() && i != j implies t[i] != t[j] by {
                    assert(s[i] != s[j]);
                }
            }
        }
    }
}

/// Two keys that stand for the same integers are one key.
proof fn lemma_same_key(a: StreamKey, b: StreamKey)
    requires
        a.spec_id() == b.spec_id(),
    ensures
        a == b,
{
    flow_key_is_injective(a.flow, b.flow);
}

/// To add a stream that is not there yet keeps a registry in agreement.
pub proof fn a_new_stream_keeps_agreement(m: RegModel, s: StreamModel)
    requires
        agrees(m),
        !m.streams.contains_key(key_of(s).spec_id()),
    ensures
        agrees(with_stream(m, s)),
{
    let n = with_stream(m, s);
    let k = key_of(s);
    let id = k.spec_id();
    lemma_pushed(list_at(m.stream_index, s.call_id), k);
    lemma_pushed(list_at(m.ssrc_index, k.ssrc), id);
    assert(!list_at(m.stream_index, s.call_id).contains(k));
    assert(!list_at(m.ssrc_index, k.ssrc).contains(id));
    assert forall|c: Seq<char>, x: StreamKey| #[trigger]
        list_at(n.stream_index, c).contains(x) <==> n.streams.contains_key(x.spec_id())
            && n.stream_call[x.spec_id()] == c by {
        assert(list_at(m.stream_index, c).contains(x) <==> m.streams.contains_key(x.spec_id())
            && m.stream_call[x.spec_id()] == c);
        if x.spec_id() == id {
            lemma_same_key(x, k);
        }
        if c == s.call_id {
            assert(list_at(n.stream_index, c) == list_at(m.stream_index, c).push(k));
            assert(list_at(m.stream_index, c).push(k).contains(x) <==> list_at(
                m.stream_index,
                c,
            ).contains(x) || x == k);
        } else {
            assert(list_at(n.stream_index, c) == list_at(m.stream_index, c));
        }
    }
    assert forall|c: Seq<char>| #[trigger] n.stream_index.contains_key(c) implies n.stream_index[c].len()
        > 0 && n.stream_index[c].no_duplicates() by {
        if c != s.call_id {
            assert(m.stream_index.contains_key(c));
        } else if m.stream_index.contains_key(c) {
            assert(m.stream_index[c].no_duplicates());
        }
    }
    assert forall|r: u32, x: StreamId| #[trigger]
        list_at(n.ssrc_index, r).contains(x) <==> n.streams.contains_key(x) && x.1 == r by {
        assert(list_at(m.ssrc_index, r).contains(x) <==> m.streams.contains_key(x) && x.1 == r);
        if r == k.ssrc {
            assert(list_at(n.ssrc_index, r) == list_at(m.ssrc_index, r).push(id));
            assert(list_at(m.ssrc_index, r).push(id).contains(x) <==> list_at(m.ssrc_index, r).contains(
                x,
            ) || x == id);
        } else {
            assert(list_at(n.ssrc_index, r) == list_at(m.ssrc_index, r));
        }
    }
    assert forall|r: u32| #[trigger] n.ssrc_index.contains_key(r) implies n.ssrc_index[r].len() > 0
        && n.ssrc_index[r].no_duplicates() by {
        if r != k.ssrc {
            assert(m.ssrc_index.contains_key(r));
        } else if m.ssrc_index.contains_key(r) {
            assert(m.ssrc_index[r].no_duplicates());
        }
    }
}

/// What the lists of a map hold once one of them is struck.
proof fn lemma_struck<K, T>(m: Map<K, Seq<T>>, k: K, keep: spec_fn(T) -> bool)
    ensures
        forall|j: K, x: T| #[trigger]
            list_at(struck(m, k, keep), j).contains(x) <==> list_at(m, j).contains(x) && (j == k
                ==> keep(x)),
        forall|j: K| #[trigger] struck(m, k, keep).contains_key(j) ==> m.contains_key(j),
        (forall|j: K| #[trigger] m.contains_key(j) ==> m[j].len() > 0 && m[j].no_duplicates())
            ==> forall|j: K| #[trigger]
            struck(m, k, keep).contains_key(j) ==> struck(m, k, keep)[j].len() > 0 && struck(
                m,
                k,
                keep,
            )[j].no_duplicates(),
{
    let n = struck(m, k, keep);
    lemma_filtered(list_at(m, k), keep);
    assert forall|j: K, x: T| #[trigger] list_at(n, j).contains(x) <==> list_at(m, j).contains(x) && (j
        == k ==> keep(x)) by {
        if j == k && m.contains_key(k) {
            assert(m[k].filter(keep).contains(x) <==> m[k].contains(x) && keep(x));
        }
    }
}

/// A stream that is taken out of the streams and of the index by source
/// leaves that index in agreement.
proof fn lemma_without_stream(m: RegModel, k: StreamKey)
    requires
        sources_agree(m),
    ensures
        sources_agree(without_stream(m, k)),
{
    let n = without_stream(m, k);
    lemma_struck(m.ssrc_index, k.ssrc, other_than(k.spec_id()));
    assert forall|s: u32, id: StreamId| #[trigger]
        list_at(n.ssrc_index, s).contains(id) <==> n.streams.contains_key(id) && id.1 == s by {
        assert(list_at(m.ssrc_index, s).contains(id) <==> m.streams.contains_key(id) && id.1 == s);
    }
}

/// What is left once some streams are taken out.
proof fn lemma_without_streams(m: RegModel, keys: Seq<StreamKey>)
    requires
        sources_agree(m),
    ensures
        sources_agree(without_streams(m, keys)),
        forall|id: StreamId| #[trigger]
            without_streams(m, keys).streams.contains_key(id) <==> m.streams.contains_key(id)
                && !in_gone(keys, id),
        forall|id: StreamId| #[trigger]
            without_streams(m, keys).stream_call.contains_key(id) <==> m.stream_call.contains_key(id)
                && !in_gone(keys, id),
        forall|id: StreamId|
            without_streams(m, keys).streams.contains_key(id) ==> #[trigger] without_streams(
                m,
                keys,
            ).streams[id] == m.streams[id],
        forall|id: StreamId|
            without_streams(m, keys).stream_call.contains_key(id) ==> #[trigger] without_streams(
                m,
                keys,
            ).stream_call[id] == m.stream_call[id],
        without_streams(m, keys) == (RegModel {
            streams: without_streams(m, keys).streams,
            stream_call: without_streams(m, keys).stream_call,
            ssrc_index: without_streams(m, keys).ssrc_index,
            ..m
        }),
    decreases keys.len(),
{
    if keys.len() > 0 {
        let before = keys.drop_last();
        lemma_without_streams(m, before);
        lemma_without_stream(without_streams(m, before), keys.last());
        assert forall|id: StreamId| #[trigger] in_gone(keys, id) <==> in_gone(before, id) || id
            == keys.last().spec_id() by {
            if in_gone(before, id) {
                let i = choose|i: int| 0 <= i < before.len() && (#[trigger] before[i]).spec_id() == id;
                assert(keys[i].spec_id() == id);
            }
            if id == keys.last().spec_id() {
                assert(keys[keys.len() - 1].spec_id() == id);
            }
            if in_gone(keys, id) && id != keys.last().spec_id() {
                let i = choose|i: int| 0 <= i < keys.len() && (#[trigger] keys[i]).spec_id() == id;
                assert(before[i].spec_id() == id);
            }
        }
    }
}

/// What is left of the streams once a call is taken out.
proof fn lemma_without_call(m: RegModel, id: Seq<char>)
    requires
        streams_agree(m),
    ensures
        streams_agree(without_call(m, id)),
        forall|k: StreamId| #[trigger]
            without_call(m, id).streams.contains_key(k) <==> m.streams.contains_key(k)
                && m.stream_call[k] != id,
        forall|k: StreamId|
            without_call(m, id).streams.contains_key(k) ==> #[trigger] without_call(m, id).streams[k]
                == m.streams[k] && without_call(m, id).stream_call[k] == m.stream_call[k],
{
    let keys = list_at(m.stream_index, id);
    let base = RegModel {
        calls: m.calls.remove(id),
        removed: m.removed.push(id),
        stream_index: m.stream_index.remove(id),
        ..m
    };
    let n = without_call(m, id);
    assert(sources_agree(base)) by {
        assert(base.ssrc_index == m.ssrc_index && base.streams == m.streams);
    }
    lemma_without_streams(base, keys);
    assert forall|k: StreamId| m.streams.contains_key(k) implies (#[trigger] in_gone(keys, k)
        <==> m.stream_call[k] == id) by {
        let own = key_of(m.streams[k]);
        assert(own.spec_id() == k);
        if in_gone(keys, k) {
            let i = choose|i: int| 0 <= i < keys.len() && (#[trigger] keys[i]).spec_id() == k;
            assert(list_at(m.stream_index, id).contains(keys[i]));
        }
        if m.stream_call[k] == id {
            assert(list_at(m.stream_index, id).contains(own));
            let i = keys.index_of(own);
            assert(keys[i].spec_id() == k);
        }
    }
    assert forall|k: StreamId| #[trigger] n.streams.contains_key(k) <==> m.streams.contains_key(k)
        && m.stream_call[k] != id by {
        assert(n.streams.contains_key(k) <==> m.streams.contains_key(k) && !in_gone(keys, k));
    }
    assert forall|k: StreamId| #[trigger] n.stream_call.contains_key(k) <==> n.streams.contains_key(
        k,
    ) by {
        assert(m.stream_call.contains_key(k) <==> m.streams.contains_key(k));
    }
    assert forall|c: Seq<char>, k: StreamKey| #[trigger]
        list_at(n.stream_index, c).contains(k) <==> n.streams.contains_key(k.spec_id())
            && n.stream_call[k.spec_id()] == c by {
        assert(list_at(m.stream_index, c).contains(k) <==> m.streams.contains_key(k.spec_id())
            && m.stream_call[k.spec_id()] == c);
        if n.streams.contains_key(k.spec_id()) {
            assert(n.stream_call.contains_key(k.spec_id()));
        }
    }
    assert forall|c: Seq<char>| #[trigger] n.stream_index.contains_key(c) implies n.stream_index[c].len()
        > 0 && n.stream_index[c].no_duplicates() by {
        assert(m.stream_index.contains_key(c));
    }
    assert forall|k: StreamId| #[trigger] n.streams.contains_key(k) implies (
        n.streams[k].flow.spec_key(),
        n.streams[k].ssrc,
    ) == k by {
        assert(n.streams[k] == m.streams[k]);
    }
}

/// What is left of the streams once some calls are taken out.
proof fn lemma_without_calls(m: RegModel, ids: Seq<Seq<char>>)
    requires
        streams_agree(m),
    ensures
        streams_agree(without_calls(m, ids)),
        forall|k: StreamId| #[trigger]
            without_calls(m, ids).streams.contains_key(k) <==> m.streams.contains_key(k)
                && !ids.contains(m.stream_call[k]),
        forall|k: StreamId|
            without_calls(m, ids).streams.contains_key(k) ==> #[trigger] without_calls(
                m,
                ids,
            ).streams[k] == m.streams[k] && without_calls(m, ids).stream_call[k] == m.stream_call[k],
    decreases ids.len(),
{
    if ids.len() > 0 {
        let before = ids.drop_last();
        let b = without_calls(m, before);
        lemma_without_calls(m, before);
        lemma_without_call(b, ids.last());
        assert(ids =~= before.push(ids.last()));
        lemma_pushed(before, ids.last());
        let n = without_calls(m, ids);
        assert forall|k: StreamId| #[trigger] n.streams.contains_key(k) <==> m.streams.contains_key(k)
            && !ids.contains(m.stream_call[k]) by {
            assert(b.streams.contains_key(k) <==> m.streams.contains_key(k) && !before.contains(
                m.stream_call[k],
            ));
            if b.streams.contains_key(k) {
                assert(b.streams[k] == m.streams[k]);
            }
        }
        assert forall|k: StreamId| n.streams.contains_key(k) implies #[trigger] n.streams[k]
            == m.streams[k] && n.stream_call[k] == m.stream_call[k] by {
            assert(b.streams.contains_key(k));
            assert(b.streams[k] == m.streams[k]);
        }
    }
}

/// The removal of calls keeps the order in agreement with the calls.
pub proof fn removal_keeps_the_order(m: RegModel, ids: Seq<Seq<char>>)
    requires
        order_agrees(m),
    ensures
        order_agrees(calls_removed(m, ids)),
{
    if ids.len() > 0 {
        let w = without_calls(m, ids);
        let n = calls_removed(m, ids);
        lemma_without_calls_keeps(m, ids);
        lemma_filtered(m.order, none_of(ids));
        assert forall|id: Seq<char>| #[trigger] n.order.contains(id) <==> n.calls.contains_key(id) by {
            assert(m.order.contains(id) <==> m.calls.contains_key(id));
            assert(w.calls.contains_key(id) <==> m.calls.contains_key(id) && !ids.contains(id));
        }
    }
}

/// The removal of calls keeps a registry in agreement.
pub proof fn removal_keeps_agreement(m: RegModel, ids: Seq<Seq<char>>)
    requires
        agrees(m),
    ensures
        agrees(calls_removed(m, ids)),
{
    if ids.len() > 0 {
        let w = without_calls(m, ids);
        let n = calls_removed(m, ids);
        lemma_without_calls_keeps(m, ids);
        lemma_without_calls(m, ids);
        lemma_same_streams(w, n);
        removal_keeps_the_order(m, ids);
    }
}

/// A removed call takes its streams with it, and no others.
pub proof fn a_removed_call_takes_its_streams(m: RegModel, ids: Seq<Seq<char>>, k: StreamId)
    requires
        agrees(m),
        m.streams.contains_key(k),
    ensures
        calls_removed(m, ids).streams.contains_key(k) <==> !ids.contains(m.stream_call[k]),
        !ids.contains(m.stream_call[k]) ==> calls_removed(m, ids).streams[k] == m.streams[k],
        ids.contains(m.stream_call[k]) ==> !list_at(
            calls_removed(m, ids).ssrc_index,
            k.1,
        ).contains(k),
{
    lemma_without_calls(m, ids);
    removal_keeps_agreement(m, ids);
    let n = calls_removed(m, ids);
    assert(list_at(n.ssrc_index, k.1).contains(k) <==> n.streams.contains_key(k) && k.1 == k.1);
}

/// The eviction of calls keeps a registry in agreement.
pub proof fn call_eviction_keeps_agreement(m: RegModel)
    requires
        agrees(m),
    ensures
        agrees(calls_evicted(m)),
    decreases m.calls.dom().len(),
{
    if m.calls.dom().finite() && m.calls.dom().len() > m.max_calls {
        if let Some(id) = victim(m) {
            lemma_oldest_place(m, true, m.order.len() as int);
            lemma_oldest_place(m, false, m.order.len() as int);
            lemma_one_removed(m, id);
            removal_keeps_agreement(m, seq![id]);
            call_eviction_keeps_agreement(calls_removed(m, seq![id]));
        }
    }
}

/// Eviction ends with no more calls than are kept, or with protected calls
/// alone.
pub proof fn only_protected_calls_exceed_the_limit(m: RegModel, id: Seq<char>)
    requires
        order_agrees(m),
        m.calls.dom().finite(),
        calls_evicted(m).calls.dom().len() > m.max_calls,
        calls_evicted(m).calls.contains_key(id),
    ensures
        is_pinned(calls_evicted(m), id),
        is_pinned(m, id),
    decreases m.calls.dom().len(),
{
    if m.calls.dom().len() > m.max_calls {
        lemma_oldest_place(m, true, m.order.len() as int);
        lemma_oldest_place(m, false, m.order.len() as int);
        match victim(m) {
            Some(v) => {
                let n = calls_removed(m, seq![v]);
                lemma_one_removed(m, v);
                lemma_without_calls_keeps(m, seq![v]);
                removal_keeps_the_order(m, seq![v]);
                assert(n.search_matches == m.search_matches && n.focus_hint == m.focus_hint);
                only_protected_calls_exceed_the_limit(n, id);
            },
            None => {
                assert(m.order.contains(id) <==> m.calls.contains_key(id));
                let i = m.order.index_of(id);
                assert(!evictable(m, m.order[i], false));
            },
        }
    }
}

/// A stream that is taken out of the streams and of all indexes leaves a
/// registry in agreement.
pub proof fn forgetting_keeps_agreement(m: RegModel, k: StreamKey)
    requires
        agrees(m),
        m.streams.contains_key(k.spec_id()),
    ensures
        agrees(stream_forgotten(RegModel { streams: m.streams.remove(k.spec_id()), ..m }, k)),
{
    let id = k.spec_id();
    let n = stream_forgotten(RegModel { streams: m.streams.remove(id), ..m }, k);
    lemma_without_stream(m, k);
    assert(sources_agree(n)) by {
        let w = without_stream(m, k);
        assert(n.ssrc_index == w.ssrc_index && n.streams == w.streams);
    }
    assert(m.stream_call.contains_key(id));
    lemma_struck(m.stream_index, m.stream_call[id], other_stream(k));
    assert forall|c: Seq<char>, x: StreamKey| #[trigger]
        list_at(n.stream_index, c).contains(x) <==> n.streams.contains_key(x.spec_id())
            && n.stream_call[x.spec_id()] == c by {
        assert(list_at(m.stream_index, c).contains(x) <==> m.streams.contains_key(x.spec_id())
            && m.stream_call[x.spec_id()] == c);
        if x.spec_id() == id {
            lemma_same_key(x, k);
        }
    }
    assert forall|x: StreamId| #[trigger] n.streams.contains_key(x) implies (
        n.streams[x].flow.spec_key(),
        n.streams[x].ssrc,
    ) == x by {
        assert(m.streams.contains_key(x));
    }
}

/// The eviction of streams keeps a registry in agreement.
pub proof fn stream_eviction_keeps_agreement(m: RegModel, gone: Seq<StreamKey>)
    requires
        agrees(m),
        oldest_streams(m, gone),
    ensures
        agrees(streams_evicted(m, gone)),
{
    lemma_streams_evicted(m, gone);
}

/// What is left once some streams are evicted.
proof fn lemma_streams_evicted(m: RegModel, gone: Seq<StreamKey>)
    requires
        agrees(m),
        forall|i: int|
            0 <= i < gone.len() ==> m.streams.contains_key((#[trigger] gone[i]).spec_id()),
        forall|i: int, j: int|
            0 <= i < j < gone.len() ==> (#[trigger] gone[i]).spec_id() != (
            #[trigger] gone[j]).spec_id(),
    ensures
        agrees(streams_evicted(m, gone)),
        forall|id: StreamId| #[trigger]
            streams_evicted(m, gone).streams.contains_key(id) <==> m.streams.contains_key(id)
                && !in_gone(gone, id),
        m.streams.dom().finite() ==> streams_evicted(m, gone).streams.dom().finite() && streams_evicted(
            m,
            gone,
        ).streams.dom().len() == m.streams.dom().len() - gone.len(),
    decreases gone.len(),
{
    if gone.len() > 0 {
        let before = gone.drop_last();
        let k = gone.last();
        assert forall|i: int| 0 <= i < before.len() implies m.streams.contains_key(
            (#[trigger] before[i]).spec_id(),
        ) by {
            assert(m.streams.contains_key(gone[i].spec_id()));
        }
        assert forall|i: int, j: int| 0 <= i < j < before.len() implies (#[trigger] before[i]).spec_id()
            != (#[trigger] before[j]).spec_id() by {
            assert(gone[i].spec_id() != gone[j].spec_id());
        }
        lemma_streams_evicted(m, before);
        let b = streams_evicted(m, before);
        assert(!in_gone(before, k.spec_id())) by {
            if in_gone(before, k.spec_id()) {
                let i = choose|i: int|
                    0 <= i < before.len() && (#[trigger] before[i]).spec_id() == k.spec_id();
                assert(gone[i].spec_id() != gone[gone.len() - 1].spec_id());
            }
        }
        assert(m.streams.contains_key(gone[gone.len() - 1].spec_id()));
        forgetting_keeps_agreement(b, k);
        assert forall|id: StreamId| #[trigger] in_gone(gone, id) <==> in_gone(before, id) || id
            == k.spec_id() by {
            if in_gone(before, id) {
                let i = choose|i: int| 0 <= i < before.len() && (#[trigger] before[i]).spec_id() == id;
                assert(gone[i].spec_id() == id);
            }
            if id == k.spec_id() {
                assert(gone[gone.len() - 1].spec_id() == id);
            }
            if in_gone(gone, id) && id != k.spec_id() {
                let i = choose|i: int| 0 <= i < gone.len() && (#[trigger] gone[i]).spec_id() == id;
                assert(before[i].spec_id() == id);
            }
        }
    }
}

/// The eviction of streams takes those streams and nothing from the calls.
proof fn lemma_streams_left(m: RegModel, gone: Seq<StreamKey>)
    requires
        m.streams.dom().finite(),
        forall|i: int|
            0 <= i < gone.len() ==> m.streams.contains_key((#[trigger] gone[i]).spec_id()),
        forall|i: int, j: int|
            0 <= i < j < gone.len() ==> (#[trigger] gone[i]).spec_id() != (
            #[trigger] gone[j]).spec_id(),
    ensures
        streams_evicted(m, gone).calls == m.calls,
        forall|id: StreamId| #[trigger]
            streams_evicted(m, gone).streams.contains_key(id) <==> m.streams.contains_key(id)
                && !in_gone(gone, id),
        streams_evicted(m, gone).streams.dom().finite(),
        streams_evicted(m, gone).streams.dom().len() == m.streams.dom().len() - gone.len(),
    decreases gone.len(),
{
    if gone.len() > 0 {
        let before = gone.drop_last();
        let k = gone.last();
        assert forall|i: int| 0 <= i < before.len() implies m.streams.contains_key(
            (#[trigger] before[i]).spec_id(),
        ) by {
            assert(m.streams.contains_key(gone[i].spec_id()));
        }
        assert forall|i: int, j: int| 0 <= i < j < before.len() implies (#[trigger] before[i]).spec_id()
            != (#[trigger] before[j]).spec_id() by {
            assert(gone[i].spec_id() != gone[j].spec_id());
        }
        lemma_streams_left(m, before);
        let b = streams_evicted(m, before);
        assert(!in_gone(before, k.spec_id())) by {
            if in_gone(before, k.spec_id()) {
                let i = choose|i: int|
                    0 <= i < before.len() && (#[trigger] before[i]).spec_id() == k.spec_id();
                assert(gone[i].spec_id() != gone[gone.len() - 1].spec_id());
            }
        }
        assert(m.streams.contains_key(gone[gone.len() - 1].spec_id()));
        assert forall|id: StreamId| #[trigger] in_gone(gone, id) <==> in_gone(before, id) || id
            == k.spec_id() by {
            if in_gone(before, id) {
                let i = choose|i: int| 0 <= i < before.len() && (#[trigger] before[i]).spec_id() == id;
                assert(gone[i].spec_id() == id);
            }
            if id == k.spec_id() {
                assert(gone[gone.len() - 1].spec_id() == id);
            }
            if in_gone(gone, id) && id != k.spec_id() {
                let i = choose|i: int| 0 <= i < gone.len() && (#[trigger] gone[i]).spec_id() == id;
                assert(before[i].spec_id() == id);
            }
        }
        assert(streams_evicted(m, gone).streams =~= b.streams.remove(k.spec_id()));
        assert(b.streams.contains_key(k.spec_id()));
    }
}

/// After eviction there are no more streams than are kept.
pub proof fn stream_eviction_reaches_its_limit(m: RegModel, gone: Seq<StreamKey>)
    requires
        oldest_streams(m, gone),
    ensures
        streams_evicted(m, gone).streams.dom().finite(),
        streams_evicted(m, gone).streams.dom().len() <= m.max_streams,
{
    lemma_streams_left(m, gone);
}

/// To import a stream keeps a registry in agreement.
pub proof fn an_import_keeps_agreement(m: RegModel, s: SummaryModel)
    requires
        agrees(m),
    ensures
        agrees(with_imported(m, s)),
{
    let n = with_imported(m, s);
    let k = import_id(s);
    assert(order_agrees(n));
    lemma_pushed(list_at(m.imported_by_call, k.0), k);
    assert(list_at(m.imported_by_call, k.0).contains(k) <==> m.imported_streams.contains_key(k) && k.0
        == k.0 && k.0.len() > 0);
    assert forall|c: Seq<char>, x: ImportId| #[trigger]
        list_at(n.imported_by_call, c).contains(x) <==> n.imported_streams.contains_key(x) && x.0
            == c && c.len() > 0 by {
        assert(list_at(m.imported_by_call, c).contains(x) <==> m.imported_streams.contains_key(x)
            && x.0 == c && c.len() > 0);
    }
    assert forall|c: Seq<char>| #[trigger] n.imported_by_call.contains_key(
        c,
    ) implies n.imported_by_call[c].no_duplicates() by {
        if m.imported_by_call.contains_key(c) {
            assert(m.imported_by_call[c].no_duplicates());
        }
    }
}

/// To take out a stream that was just added gives the registry back as it was.
pub proof fn forgetting_undoes_adding(m: RegModel, s: StreamModel)
    requires
        agrees(m),
        !m.streams.contains_key(key_of(s).spec_id()),
    ensures
        ({
            let added = with_stream(m, s);
            let id = key_of(s).spec_id();
            stream_forgotten(RegModel { streams: added.streams.remove(id), ..added }, key_of(s)) == m
        }),
{
    let k = key_of(s);
    let id = k.spec_id();
    let added = with_stream(m, s);
    let n = stream_forgotten(RegModel { streams: added.streams.remove(id), ..added }, k);
    let of_call = list_at(m.stream_index, s.call_id);
    let of_source = list_at(m.ssrc_index, k.ssrc);
    assert(!m.stream_call.contains_key(id));
    assert(!of_call.contains(k));
    assert(!of_source.contains(id));
    lemma_filter_pushed(of_call, k, other_stream(k));
    lemma_filter_pushed(of_source, id, other_than(id));
    assert(n.streams =~= m.streams);
    assert(n.stream_call =~= m.stream_call);
    assert(n.stream_index =~= m.stream_index);
    assert(n.ssrc_index =~= m.ssrc_index);
}

proof fn lemma_filter_pushed<T>(s: Seq<T>, x: T, keep: spec_fn(T) -> bool)
    requires
        forall|i: int| 0 <= i < s.len() ==> keep(#[trigger] s[i]),
        !keep(x),
    ensures
        s.push(x).filter(keep) == s,
{
    reveal(Seq::filter);
    assert(s.push(x).drop_last() =~= s);
    lemma_filter_all(s, keep);
}

proof fn lemma_filter_all<T>(s: Seq<T>, keep: spec_fn(T) -> bool)
    requires
        forall|i: int| 0 <= i < s.len() ==> keep(#[trigger] s[i]),
    ensures
        s.filter(keep) == s,
    decreases s.len(),
{
    reveal(Seq::filter);
    if s.len() > 0 {
        let t = s.drop_last();
        assert forall|i: int| 0 <= i < t.len() implies keep(#[trigger] t[i]) by {
            assert(t[i] == s[i]);
        }
        assert(s[s.len() - 1] == s.last());
        lemma_filter_all(t, keep);
        assert(t.push(s.last()) =~= s);
    }
}

/// What is left after eviction was there before, as it was.
proof fn lemma_evicted_keeps(m: RegModel)
    ensures
        calls_evicted(m).max_streams == m.max_streams,
        forall|id: Seq<char>| #[trigger]
            calls_evicted(m).calls.contains_key(id) ==> m.calls.contains_key(id)
                && calls_evicted(m).calls[id] == m.calls[id],
    decreases m.calls.dom().len(),
{
    if m.calls.dom().finite() && m.calls.dom().len() > m.max_calls {
        if let Some(v) = victim(m) {
            lemma_oldest_place(m, true, m.order.len() as int);
            lemma_oldest_place(m, false, m.order.len() as int);
            lemma_one_removed(m, v);
            lemma_without_calls_keeps(m, seq![v]);
            lemma_evicted_keeps(calls_removed(m, seq![v]));
        }
    }
}

/// Of the calls that are not protected, eviction takes those that have ended
/// before the others, and of calls alike none that began after one that stays.
pub proof fn eviction_takes_the_oldest(m: RegModel, gone: Seq<char>, kept: Seq<char>)
    requires
        order_agrees(m),
        m.calls.contains_key(gone),
        !calls_evicted(m).calls.contains_key(gone),
        calls_evicted(m).calls.contains_key(kept),
        !is_pinned(m, kept),
    ensures
        m.calls.contains_key(kept),
        ended(m.calls[kept].state) ==> ended(m.calls[gone].state),
        ended(m.calls[kept].state) == ended(m.calls[gone].state) ==> began(m, gone) <= began(m, kept),
    decreases m.calls.dom().len(),
{
    lemma_evicted_keeps(m);
    if m.calls.dom().finite() && m.calls.dom().len() > m.max_calls {
        if let Some(v) = victim(m) {
            let n = calls_removed(m, seq![v]);
            lemma_oldest_place(m, true, m.order.len() as int);
            lemma_oldest_place(m, false, m.order.len() as int);
            lemma_one_removed(m, v);
            lemma_without_calls_keeps(m, seq![v]);
            lemma_evicted_keeps(n);
            removal_keeps_the_order(m, seq![v]);
            assert(n.calls.contains_key(kept));
            if gone == v {
                assert(m.order.contains(kept) <==> m.calls.contains_key(kept));
                let i = m.order.index_of(kept);
                assert(evictable(m, m.order[i], false));
                assert(ended(m.calls[kept].state) ==> evictable(m, m.order[i], true));
            } else {
                assert(n.search_matches == m.search_matches && n.focus_hint == m.focus_hint);
                eviction_takes_the_oldest(n, gone, kept);
            }
        }
    }
}

/// What eviction promises of a registry and what is left of it. No protected call
/// goes, and a call that stays is left as it is. There are no more calls than are
/// kept, or none but protected ones. Where there were not too many, all calls
/// stay. A call in progress goes only where no ended call that is not protected
/// stays, and of calls alike none goes that began after one that stays and is not
/// protected. There are no more streams than are kept.
pub open spec fn well_evicted(m: RegModel, next: RegModel) -> bool {
    &&& forall|id: Seq<char>|
        m.calls.contains_key(id) && is_pinned(m, id) ==> #[trigger] next.calls.contains_key(id)
    &&& forall|id: Seq<char>| #[trigger]
        next.calls.contains_key(id) ==> m.calls.contains_key(id) && next.calls[id] == m.calls[id]
    &&& next.calls.dom().len() <= m.max_calls || forall|id: Seq<char>| #[trigger]
        next.calls.contains_key(id) ==> is_pinned(m, id)
    &&& m.calls.dom().len() <= m.max_calls ==> next.calls == m.calls
    &&& forall|id: Seq<char>, kept: Seq<char>|
        m.calls.contains_key(id) && !(#[trigger] next.calls.contains_key(id))
            && #[trigger] next.calls.contains_key(kept) && !is_pinned(m, kept) ==> {
            &&& ended(m.calls[kept].state) ==> ended(m.calls[id].state)
            &&& ended(m.calls[kept].state) == ended(m.calls[id].state) ==> began(m, id) <= began(
                m,
                kept,
            )
        }
    &&& next.streams.dom().finite()
    &&& next.streams.dom().len() <= m.max_streams
}

/// Wherever the order lists the calls, eviction keeps what it promises.
pub proof fn eviction_keeps_its_promise(m: RegModel, gone: Seq<StreamKey>)
    requires
        order_agrees(m),
        m.calls.dom().finite(),
        oldest_streams(calls_evicted(m), gone),
    ensures
        well_evicted(m, streams_evicted(calls_evicted(m), gone)),
{
    let n = calls_evicted(m);
    let next = streams_evicted(n, gone);
    lemma_streams_left(n, gone);
    lemma_evicted_keeps(m);
    stream_eviction_reaches_its_limit(n, gone);
    assert forall|id: Seq<char>|
        m.calls.contains_key(id) && is_pinned(m, id) implies #[trigger] next.calls.contains_key(id) by {
        a_pinned_call_is_not_evicted(m, id);
    }
    if next.calls.dom().len() > m.max_calls {
        assert forall|id: Seq<char>| #[trigger] next.calls.contains_key(id) implies is_pinned(m, id) by {
            only_protected_calls_exceed_the_limit(m, id);
        }
    }
    assert forall|id: Seq<char>, kept: Seq<char>|
        m.calls.contains_key(id) && !(#[trigger] next.calls.contains_key(id))
            && #[trigger] next.calls.contains_key(kept) && !is_pinned(m, kept) implies {
        &&& ended(m.calls[kept].state) ==> ended(m.calls[id].state)
        &&& ended(m.calls[kept].state) == ended(m.calls[id].state) ==> began(m, id) <= began(m, kept)
    } by {
        eviction_takes_the_oldest(m, id, kept);
    }
}

} // verus!
