//! Everything the monitor holds in memory: calls, streams, findings and the
//! indexes between them.
use crate::addr::{Flow5Tuple, FlowKey, IpKey, SockKey};
use crate::correlate::stream::{RtpStream, StreamModel};
use crate::model::diag::{DiagModel, Diagnostic};
use crate::model::media::{StreamSummary, SummaryModel};
use crate::model::ratio::Ratio;
use crate::model::sip::{fresh_call, Call, CallModel};
use crate::small::{other_than, KeyList, StreamId};
use crate::store::heatmap::{without_old, Cells, Heatmap};
use crate::store::ipstats::{
    has_room, losses, of_ip, store_wf, traffic, with_losses, with_packets, Dir, IpModel, IpStatsStore,
};
use crate::store::ring::{newest, Tally};
use crate::table::{counts, Key, Table};
use std::collections::VecDeque;
use vstd::prelude::*;

verus! {

/// How many calls the filter pins.
pub const SEARCH_PIN_MAX: usize = 1000;

/// How many event lines are kept.
pub const MAX_EVENTS: usize = 1000;

/// The call that is looked at: its Call-ID, and that of a linked call.
#[derive(PartialEq, Eq, Debug)]
pub struct FocusHint {
    /// The Call-ID.
    pub primary: String,
    /// The Call-ID of the linked call.
    pub linked: Option<String>,
}

/// A [`FocusHint`] in mathematical terms.
pub ghost struct HintModel {
    pub primary: Seq<char>,
    pub linked: Option<Seq<char>>,
}

impl View for FocusHint {
    type V = HintModel;

    open spec fn view(&self) -> HintModel {
        HintModel {
            primary: self.primary@,
            linked: match self.linked {
                Some(l) => Some(l@),
                None => None,
            },
        }
    }
}

impl Clone for FocusHint {
    fn clone(&self) -> (r: FocusHint)
        ensures
            r == *self,
    {
        FocusHint { primary: self.primary.clone(), linked: self.linked.clone() }
    }
}

impl FocusHint {
    /// A look at one call.
    pub fn primary(id: &str) -> (r: FocusHint)
        ensures
            r@ == (HintModel { primary: id@, linked: None }),
    {
        FocusHint { primary: id.to_owned(), linked: None }
    }

    /// A look at one call with another linked to it.
    pub fn with_linked(primary: &str, linked: &str) -> (r: FocusHint)
        ensures
            r@ == (HintModel { primary: primary@, linked: Some(linked@) }),
    {
        FocusHint { primary: primary.to_owned(), linked: Some(linked.to_owned()) }
    }
}

/// One RTP stream, by its flow and source.
#[derive(Clone, Copy, PartialEq, Eq, Structural, Debug)]
pub struct StreamKey {
    /// The flow.
    pub flow: Flow5Tuple,
    /// The synchronization source.
    pub ssrc: u32,
}

impl StreamKey {
    /// The stream in integers.
    pub open spec fn spec_id(self) -> StreamId {
        (self.flow.spec_key(), self.ssrc)
    }

    /// The stream in integers.
    pub fn id(self) -> (r: StreamId)
        ensures
            r == self.spec_id(),
    {
        (self.flow.key(), self.ssrc)
    }
}

/// An imported stream: its call, source and flow.
pub type ImportKey = (String, u32, Option<FlowKey>);

/// What an imported stream counted when it was last recorded.
#[derive(Clone, Copy, PartialEq, Eq, Structural, Debug)]
pub struct Counts {
    /// Packets.
    pub packets: u64,
    /// Packets lost.
    pub lost: u64,
    /// Bytes.
    pub bytes: u64,
}

/// An [`ImportKey`] in mathematical terms.
pub type ImportId = (Seq<char>, u32, Option<FlowKey>);

/// Everything the monitor holds in memory.
pub struct Registry {
    /// The calls, by Call-ID.
    pub calls: Table<String, Call>,
    /// The Call-IDs, in the order in which the calls turned up.
    pub order: Vec<String>,
    /// The streams.
    pub streams: Table<StreamId, RtpStream>,
    /// The call of each stream.
    pub stream_call: Table<StreamId, String>,
    /// The call that each media address was negotiated in.
    pub endpoint_call: Table<SockKey, String>,
    /// Event lines, the newest last.
    pub events: VecDeque<String>,
    /// Where the packets come from.
    pub source: String,
    /// When the first packet was seen.
    pub start_us: Option<u64>,
    /// When the last packet was seen.
    pub last_us: Option<u64>,
    /// Packets seen.
    pub pkts_total: u64,
    /// The offset from UTC, in seconds, of the clock that made the recording.
    pub tz_offset_secs: Option<i32>,
    /// Packets that the capture itself dropped.
    pub pkts_dropped: u64,
    /// Packets since the rate was last worked out.
    pub pkts_last_window: u64,
    /// When the rate was last worked out.
    pub window_start_us: Option<u64>,
    /// The packet rate: packets in a number of microseconds.
    pub pps: Ratio,
    /// Calls that were completed.
    pub completed: u64,
    /// Calls that failed.
    pub failed: u64,
    /// Findings, the newest last.
    pub diagnostics: VecDeque<Diagnostic>,
    /// Call metrics by time and key.
    pub heatmap: Heatmap,
    /// The call that is looked at.
    pub focus_hint: Option<FocusHint>,
    /// The filter query.
    pub search_hint: Option<String>,
    /// The calls that the filter pins, the newest first.
    pub search_matches: Vec<String>,
    /// The calls that were removed since this list was last drained.
    pub removed: VecDeque<String>,
    /// How long heatmap cells are kept, in microseconds.
    pub heatmap_retain_us: u64,
    /// The streams of each call.
    pub stream_index: Table<String, Vec<StreamKey>>,
    /// The streams of each source.
    pub ssrc_index: Table<u32, KeyList>,
    /// Statistics by address.
    pub ipstats: IpStatsStore,
    /// Streams that were imported from a recording.
    pub imported_streams: Table<ImportKey, StreamSummary>,
    /// The imported streams of each call.
    pub imported_by_call: Table<String, Vec<ImportKey>>,
    /// What the streams counted that were not imported for want of room.
    pub refused_streams: Table<ImportKey, Counts>,
    /// How many calls are kept.
    pub max_calls: usize,
    /// How many streams are kept.
    pub max_streams: usize,
    /// How many findings are kept.
    pub max_diagnostics: usize,
}

/// Texts in mathematical terms.
pub open spec fn texts(s: Seq<String>) -> Seq<Seq<char>> {
    s.map_values(|t: String| t@)
}

/// The values of a map in mathematical terms.
pub open spec fn views<K, V: View>(m: Map<K, V>) -> Map<K, V::V> {
    m.map_values(|v: V| v@)
}

/// Import keys in mathematical terms.
pub open spec fn import_ids(s: Seq<ImportKey>) -> Seq<ImportId> {
    s.map_values(|k: ImportKey| k.id())
}

/// A [`Registry`] in mathematical terms.
#[verifier::ext_equal]
pub ghost struct RegModel {
    pub calls: Map<Seq<char>, CallModel>,
    pub order: Seq<Seq<char>>,
    pub streams: Map<StreamId, StreamModel>,
    pub stream_call: Map<StreamId, Seq<char>>,
    pub endpoint_call: Map<SockKey, Seq<char>>,
    pub events: Seq<Seq<char>>,
    pub source: Seq<char>,
    pub start_us: Option<u64>,
    pub last_us: Option<u64>,
    pub pkts_total: u64,
    pub tz_offset_secs: Option<i32>,
    pub pkts_dropped: u64,
    pub pkts_last_window: u64,
    pub window_start_us: Option<u64>,
    pub pps: Ratio,
    pub completed: u64,
    pub failed: u64,
    pub diagnostics: Seq<DiagModel>,
    pub bucket_secs: u64,
    pub cells: Cells,
    pub focus_hint: Option<HintModel>,
    pub search_hint: Option<Seq<char>>,
    pub search_matches: Seq<Seq<char>>,
    pub removed: Seq<Seq<char>>,
    pub heatmap_retain_us: u64,
    pub stream_index: Map<Seq<char>, Seq<StreamKey>>,
    pub ssrc_index: Map<u32, Seq<StreamId>>,
    pub ipstats: Map<IpKey, IpModel>,
    pub imported_streams: Map<ImportId, SummaryModel>,
    pub imported_by_call: Map<Seq<char>, Seq<ImportId>>,
    pub refused_streams: Map<ImportId, Counts>,
    pub max_calls: usize,
    pub max_streams: usize,
    pub max_diagnostics: usize,
}

impl View for Registry {
    type V = RegModel;

    open spec fn view(&self) -> RegModel {
        RegModel {
            calls: views(self.calls@),
            order: texts(self.order@),
            streams: views(self.streams@),
            stream_call: views(self.stream_call@),
            endpoint_call: views(self.endpoint_call@),
            events: texts(self.events@),
            source: self.source@,
            start_us: self.start_us,
            last_us: self.last_us,
            pkts_total: self.pkts_total,
            tz_offset_secs: self.tz_offset_secs,
            pkts_dropped: self.pkts_dropped,
            pkts_last_window: self.pkts_last_window,
            window_start_us: self.window_start_us,
            pps: self.pps,
            completed: self.completed,
            failed: self.failed,
            diagnostics: self.diagnostics@.map_values(|d: Diagnostic| d@),
            bucket_secs: self.heatmap.secs(),
            cells: self.heatmap.cells_model(),
            focus_hint: match self.focus_hint {
                Some(h) => Some(h@),
                None => None,
            },
            search_hint: match self.search_hint {
                Some(q) => Some(q@),
                None => None,
            },
            search_matches: texts(self.search_matches@),
            removed: texts(self.removed@),
            heatmap_retain_us: self.heatmap_retain_us,
            stream_index: views(self.stream_index@),
            ssrc_index: views(self.ssrc_index@),
            ipstats: self.ipstats@,
            imported_streams: views(self.imported_streams@),
            imported_by_call: self.imported_by_call@.map_values(
                |v: Vec<ImportKey>| import_ids(v@),
            ),
            refused_streams: self.refused_streams@,
            max_calls: self.max_calls,
            max_streams: self.max_streams,
            max_diagnostics: self.max_diagnostics,
        }
    }
}

/// A registry that holds nothing.
pub open spec fn empty_registry(source: Seq<char>) -> RegModel {
    RegModel {
        calls: Map::empty(),
        order: Seq::empty(),
        streams: Map::empty(),
        stream_call: Map::empty(),
        endpoint_call: Map::empty(),
        events: Seq::empty(),
        source,
        start_us: None,
        last_us: None,
        pkts_total: 0,
        tz_offset_secs: None,
        pkts_dropped: 0,
        pkts_last_window: 0,
        window_start_us: None,
        pps: Ratio { part: 0, whole: 1_000_000 },
        completed: 0,
        failed: 0,
        diagnostics: Seq::empty(),
        bucket_secs: 900,
        cells: Map::empty(),
        focus_hint: None,
        search_hint: None,
        search_matches: Seq::empty(),
        removed: Seq::empty(),
        heatmap_retain_us: 86_400_000_000,
        stream_index: Map::empty(),
        ssrc_index: Map::empty(),
        ipstats: Map::empty(),
        imported_streams: Map::empty(),
        imported_by_call: Map::empty(),
        refused_streams: Map::empty(),
        max_calls: 100_000,
        max_streams: 50_000,
        max_diagnostics: 50_000,
    }
}

/// A registry with everything that was seen forgotten. The source, the
/// limits, the filter query and the list of removed calls stay.
pub open spec fn cleared(m: RegModel) -> RegModel {
    RegModel {
        calls: Map::empty(),
        order: Seq::empty(),
        streams: Map::empty(),
        stream_call: Map::empty(),
        endpoint_call: Map::empty(),
        stream_index: Map::empty(),
        ssrc_index: Map::empty(),
        events: Seq::empty(),
        diagnostics: Seq::empty(),
        cells: Map::empty(),
        ipstats: Map::empty(),
        imported_streams: Map::empty(),
        imported_by_call: Map::empty(),
        refused_streams: Map::empty(),
        pkts_total: 0,
        pkts_last_window: 0,
        window_start_us: None,
        start_us: None,
        last_us: None,
        pps: Ratio { part: 0, whole: 1_000_000 },
        completed: 0,
        failed: 0,
        focus_hint: None,
        search_matches: Seq::empty(),
        ..m
    }
}

/// What holds of a registry: every call is kept under its own Call-ID, every
/// stream and every imported stream under its own key, and the statistics are
/// in order.
pub open spec fn reg_wf(m: RegModel) -> bool {
    &&& forall|id: Seq<char>| #[trigger] m.calls.contains_key(id) ==> m.calls[id].call_id == id
    &&& forall|k: ImportId| #[trigger]
        m.imported_streams.contains_key(k) ==> import_id(m.imported_streams[k]) == k
    &&& store_wf(m.ipstats)
    &&& streams_wf(m)
}

/// Whether every stream is kept under its own key.
pub open spec fn streams_wf(m: RegModel) -> bool {
    forall|id: StreamId| #[trigger]
        m.streams.contains_key(id) ==> (m.streams[id].flow.spec_key(), m.streams[id].ssrc) == id
}

/// The key of an imported stream.
pub open spec fn import_id(s: SummaryModel) -> ImportId {
    (
        match s.call_id {
            Some(c) => c,
            None => Seq::empty(),
        },
        s.ssrc,
        match s.flow {
            Some(f) => Some(f.spec_key()),
            None => None,
        },
    )
}

fn import_key(s: &StreamSummary) -> (r: ImportKey)
    ensures
        r.id() == import_id(s@),
{
    let call_id = match &s.call_id {
        Some(c) => c.clone(),
        None => String::new(),
    };
    let flow = match s.flow {
        Some(f) => Some(f.key()),
        None => None,
    };
    let r: ImportKey = (call_id, s.ssrc, flow);
    assert(r.id().0 =~= import_id(s@).0);
    r
}

impl Registry {
    /// Whether the registry is in order.
    pub open spec fn wf(&self) -> bool {
        reg_wf(self@)
    }

    /// A registry that holds nothing.
    pub fn with_source(source: String) -> (r: Registry)
        ensures
            r@ == empty_registry(source@),
            r.wf(),
    {
        let r = Registry {
            calls: Table::new(),
            order: Vec::new(),
            streams: Table::new(),
            stream_call: Table::new(),
            endpoint_call: Table::new(),
            events: VecDeque::new(),
            source,
            start_us: None,
            last_us: None,
            pkts_total: 0,
            tz_offset_secs: None,
            pkts_dropped: 0,
            pkts_last_window: 0,
            window_start_us: None,
            pps: Ratio { part: 0, whole: 1_000_000 },
            completed: 0,
            failed: 0,
            diagnostics: VecDeque::new(),
            heatmap: Heatmap::new(900),
            focus_hint: None,
            search_hint: None,
            search_matches: Vec::new(),
            removed: VecDeque::new(),
            heatmap_retain_us: 86_400_000_000,
            stream_index: Table::new(),
            ssrc_index: Table::new(),
            ipstats: IpStatsStore::new(),
            imported_streams: Table::new(),
            imported_by_call: Table::new(),
            refused_streams: Table::new(),
            max_calls: 100_000,
            max_streams: 50_000,
            max_diagnostics: 50_000,
        };
        assert(r@ =~= empty_registry(source@));
        r
    }

    /// Sets how much is kept.
    pub fn set_caps(&mut self, max_calls: usize, max_streams: usize, max_diagnostics: usize)
        ensures
            final(self)@ == (RegModel { max_calls, max_streams, max_diagnostics, ..old(self)@ }),
    {
        self.max_calls = max_calls;
        self.max_streams = max_streams;
        self.max_diagnostics = max_diagnostics;
    }

    /// Starts the heatmap anew with slices of another length.
    pub fn set_bucket(&mut self, bucket_secs: u64)
        ensures
            final(self)@ == (RegModel { bucket_secs, cells: Map::empty(), ..old(self)@ }),
    {
        self.heatmap = Heatmap::new(bucket_secs);
    }

    /// Forgets everything that was seen.
    pub fn clear(&mut self)
        ensures
            final(self)@ == cleared(old(self)@),
            final(self).wf(),
    {
        self.calls.clear();
        self.order = Vec::new();
        self.streams.clear();
        self.stream_call.clear();
        self.endpoint_call.clear();
        self.stream_index.clear();
        self.ssrc_index.clear();
        self.events.clear();
        self.diagnostics.clear();
        let secs = self.heatmap.bucket_secs();
        self.heatmap = Heatmap::new(secs);
        self.ipstats.clear();
        self.imported_streams.clear();
        self.imported_by_call.clear();
        self.refused_streams.clear();
        self.pkts_total = 0;
        self.pkts_last_window = 0;
        self.window_start_us = None;
        self.start_us = None;
        self.last_us = None;
        self.pps = Ratio { part: 0, whole: 1_000_000 };
        self.completed = 0;
        self.failed = 0;
        self.focus_hint = None;
        self.search_matches = Vec::new();
        assert(self@ =~= cleared(old(self)@));
    }
}

impl Default for Registry {
    fn default() -> (r: Registry)
        ensures
            r@ == empty_registry(Seq::empty()),
            r.wf(),
    {
        let source = String::new();
        assert(source@ =~= Seq::<char>::empty());
        Registry::with_source(source)
    }
}

/// Whether the packet rate is to be worked out anew.
pub open spec fn rate_due(m: RegModel, ts_us: u64) -> bool {
    m.window_start_us matches Some(w) && ts_us - w >= 1_000_000
}

/// What the time of a packet does to a registry: it is the latest activity,
/// and once a second the packet rate is worked out.
pub open spec fn touched(m: RegModel, ts_us: u64) -> RegModel {
    let due = rate_due(m, ts_us);
    RegModel {
        start_us: Some(
            match m.start_us {
                Some(t) => t,
                None => ts_us,
            },
        ),
        last_us: Some(ts_us),
        window_start_us: Some(
            match m.window_start_us {
                Some(w) if !due => w,
                _ => ts_us,
            },
        ),
        pps: match m.window_start_us {
            Some(w) if due => Ratio {
                part: m.pkts_last_window as u128,
                whole: (ts_us - w) as u128,
            },
            _ => m.pps,
        },
        pkts_last_window: if due {
            1
        } else {
            (m.pkts_last_window + 1) as u64
        },
        ..m
    }
}

/// A registry with an event line added. The oldest line goes where there are
/// too many.
pub open spec fn with_event(m: RegModel, line: Seq<char>) -> RegModel {
    RegModel { events: newest(m.events.push(line), MAX_EVENTS as int), ..m }
}

/// A registry with a call set, and with its place in the order where it is
/// new.
pub open spec fn with_call(m: RegModel, id: Seq<char>, c: CallModel) -> RegModel {
    RegModel {
        calls: m.calls.insert(id, c),
        order: if m.calls.contains_key(id) {
            m.order
        } else {
            m.order.push(id)
        },
        ..m
    }
}

/// The members of a map's list; none where it has no list.
pub open spec fn list_at<K, T>(m: Map<K, Seq<T>>, k: K) -> Seq<T> {
    if m.contains_key(k) {
        m[k]
    } else {
        Seq::empty()
    }
}

/// A map of lists with `x` appended to the list of `k`.
pub open spec fn appended<K, T>(m: Map<K, Seq<T>>, k: K, x: T) -> Map<K, Seq<T>> {
    m.insert(k, list_at(m, k).push(x))
}

/// The key of a stream.
pub open spec fn key_of(s: StreamModel) -> StreamKey {
    StreamKey { flow: s.flow, ssrc: s.ssrc }
}

/// A registry with a stream added.
pub open spec fn with_stream(m: RegModel, s: StreamModel) -> RegModel {
    let k = key_of(s);
    RegModel {
        streams: m.streams.insert(k.spec_id(), s),
        stream_call: m.stream_call.insert(k.spec_id(), s.call_id),
        stream_index: appended(m.stream_index, s.call_id, k),
        ssrc_index: appended(m.ssrc_index, k.ssrc, k.spec_id()),
        ..m
    }
}

/// A map of lists without the members of one list that `keep` refuses. A list
/// that loses its last member goes.
pub open spec fn struck<K, T>(m: Map<K, Seq<T>>, k: K, keep: spec_fn(T) -> bool) -> Map<K, Seq<T>> {
    if !m.contains_key(k) {
        m
    } else if m[k].filter(keep).len() == 0 {
        m.remove(k)
    } else {
        m.insert(k, m[k].filter(keep))
    }
}

/// Whether a stream is another one than `gone`.
pub open spec fn other_stream(gone: StreamKey) -> spec_fn(StreamKey) -> bool {
    |k: StreamKey| k != gone
}

/// The streams by source without one of them.
pub open spec fn ssrc_without(m: Map<u32, Seq<StreamId>>, k: StreamKey) -> Map<u32, Seq<StreamId>> {
    struck(m, k.ssrc, other_than(k.spec_id()))
}

/// A registry whose indexes no longer know a stream.
pub open spec fn stream_forgotten(m: RegModel, k: StreamKey) -> RegModel {
    let id = k.spec_id();
    RegModel {
        stream_call: m.stream_call.remove(id),
        stream_index: if m.stream_call.contains_key(id) {
            struck(m.stream_index, m.stream_call[id], other_stream(k))
        } else {
            m.stream_index
        },
        ssrc_index: ssrc_without(m.ssrc_index, k),
        ..m
    }
}

/// What a stream counts.
pub open spec fn counts_of(s: SummaryModel) -> Counts {
    Counts { packets: s.packets, lost: s.lost, bytes: s.bytes }
}

/// A registry with an imported stream added, or the one of its key replaced.
/// Where there are as many as are kept, a new one is not added, and only what it
/// counts is noted.
pub open spec fn with_imported(m: RegModel, s: SummaryModel) -> RegModel {
    let k = import_id(s);
    if m.imported_streams.contains_key(k) {
        RegModel { imported_streams: m.imported_streams.insert(k, s), ..m }
    } else if m.imported_streams.dom().len() >= m.max_streams {
        RegModel { refused_streams: m.refused_streams.insert(k, counts_of(s)), ..m }
    } else {
        RegModel {
            refused_streams: m.refused_streams.remove(k),
            imported_streams: m.imported_streams.insert(k, s),
            imported_by_call: if k.0.len() == 0 {
                m.imported_by_call
            } else {
                appended(m.imported_by_call, k.0, k)
            },
            ..m
        }
    }
}

/// `now - before`, zero where that would be negative.
pub open spec fn gained(now: u64, before: u64) -> u64 {
    if now >= before {
        (now - before) as u64
    } else {
        0
    }
}

/// What a stream counted when it was last recorded, also where it was not
/// imported; nothing where it was never recorded.
pub open spec fn last_counts(m: RegModel, k: ImportId) -> Counts {
    if m.imported_streams.contains_key(k) {
        counts_of(m.imported_streams[k])
    } else if m.refused_streams.contains_key(k) {
        m.refused_streams[k]
    } else {
        Counts { packets: 0, lost: 0, bytes: 0 }
    }
}

/// What a stream gained since it was last recorded.
pub open spec fn gain_of(m: RegModel, s: SummaryModel) -> Counts {
    let p = last_counts(m, import_id(s));
    Counts {
        packets: gained(s.packets, p.packets),
        lost: gained(s.lost, p.lost),
        bytes: gained(s.bytes, p.bytes),
    }
}

/// Statistics by address with the packets of a gain.
pub open spec fn packets_booked(
    ips: Map<IpKey, IpModel>,
    ts_us: u64,
    flow: Flow5Tuple,
    g: Counts,
) -> Map<IpKey, IpModel> {
    if g.packets == 0 && g.bytes == 0 {
        ips
    } else {
        let src = flow.src.ip;
        let dst = flow.dst.ip;
        let sent = ips.insert(
            src.spec_key(),
            with_packets(of_ip(ips, src), ts_us, g.packets, g.bytes, Dir::Tx),
        );
        sent.insert(
            dst.spec_key(),
            with_packets(of_ip(sent, dst), ts_us, g.packets, g.bytes, Dir::Rx),
        )
    }
}

/// Statistics by address with the losses of a gain.
pub open spec fn losses_booked(
    ips: Map<IpKey, IpModel>,
    ts_us: u64,
    flow: Flow5Tuple,
    g: Counts,
) -> Map<IpKey, IpModel> {
    if g.lost == 0 {
        ips
    } else {
        let src = flow.src.ip;
        let dst = flow.dst.ip;
        let sent = ips.insert(
            src.spec_key(),
            with_losses(of_ip(ips, src), ts_us, g.lost, Dir::Tx),
        );
        sent.insert(dst.spec_key(), with_losses(of_ip(sent, dst), ts_us, g.lost, Dir::Rx))
    }
}

/// Whether the counters of both addresses of a flow can take a gain.
pub open spec fn gain_fits(ips: Map<IpKey, IpModel>, flow: Flow5Tuple, g: Counts) -> bool {
    &&& has_room(ips, flow.src.ip, traffic(g.packets, g.bytes, Dir::Tx))
    &&& has_room(ips, flow.dst.ip, traffic(g.packets, g.bytes, Dir::Rx))
    &&& losses_fit(ips, flow, g.lost)
}

/// Whether the counters of both addresses of a flow can take losses.
pub open spec fn losses_fit(ips: Map<IpKey, IpModel>, flow: Flow5Tuple, lost: u64) -> bool {
    &&& has_room(ips, flow.src.ip, losses(lost, Dir::Tx))
    &&& has_room(ips, flow.dst.ip, losses(lost, Dir::Rx))
}

/// What the record of a stream does to a registry: the stream is imported,
/// and what it gained goes to the statistics of the two addresses of its
/// flow.
pub open spec fn with_snap(m: RegModel, ts_us: u64, s: SummaryModel) -> RegModel {
    let g = gain_of(m, s);
    let later = ts_us > (match m.last_us {
        Some(t) => t,
        None => 0,
    });
    let n = with_imported(
        RegModel {
            last_us: if later {
                Some(ts_us)
            } else {
                m.last_us
            },
            ..m
        },
        s,
    );
    match s.flow {
        Some(f) => RegModel {
            ipstats: losses_booked(packets_booked(n.ipstats, ts_us, f, g), ts_us, f, g),
            ..n
        },
        None => n,
    }
}

fn book_packets(
    ips: &mut IpStatsStore,
    ts_us: u64,
    flow: Flow5Tuple,
    g: Counts,
)
    requires
        old(ips).wf(),
        gain_fits(old(ips)@, flow, g),
    ensures
        final(ips).wf(),
        final(ips)@ == packets_booked(old(ips)@, ts_us, flow, g),
        losses_fit(final(ips)@, flow, g.lost),
{
    if g.packets > 0 || g.bytes > 0 {
        ips.observe_packets(flow.src.ip, ts_us, g.packets, g.bytes, Dir::Tx);
        ips.observe_packets(flow.dst.ip, ts_us, g.packets, g.bytes, Dir::Rx);
    }
}

fn book_losses(
    ips: &mut IpStatsStore,
    ts_us: u64,
    flow: Flow5Tuple,
    g: Counts,
)
    requires
        old(ips).wf(),
        losses_fit(old(ips)@, flow, g.lost),
    ensures
        final(ips).wf(),
        final(ips)@ == losses_booked(old(ips)@, ts_us, flow, g),
{
    if g.lost > 0 {
        ips.observe_lost(flow.src.ip, ts_us, g.lost, Dir::Tx);
        ips.observe_lost(flow.dst.ip, ts_us, g.lost, Dir::Rx);
    }
}

/// The members of `v` other than `gone`.
fn streams_without(v: &Vec<StreamKey>, gone: StreamKey) -> (r: Vec<StreamKey>)
    ensures
        r@ == v@.filter(other_stream(gone)),
{
    let mut r: Vec<StreamKey> = Vec::new();
    let mut i: usize = 0;
    proof {
        reveal(Seq::filter);
    }
    while i < v.len()
        invariant
            i <= v@.len(),
            r@ == v@.take(i as int).filter(other_stream(gone)),
        decreases v@.len() - i,
    {
        proof {
            reveal(Seq::filter);
            assert(v@.take(i + 1).drop_last() =~= v@.take(i as int));
        }
        if v[i] != gone {
            r.push(v[i]);
        }
        i += 1;
    }
    assert(v@.take(v@.len() as int) =~= v@);
    r
}

impl Registry {
    /// Takes in the time of a packet.
    pub fn touch_time(&mut self, ts_us: u64)
        requires
            !rate_due(old(self)@, ts_us) ==> old(self).pkts_last_window < u64::MAX,
        ensures
            final(self)@ == touched(old(self)@, ts_us),
    {
        if self.start_us.is_none() {
            self.start_us = Some(ts_us);
        }
        self.last_us = Some(ts_us);
        match self.window_start_us {
            None => {
                self.window_start_us = Some(ts_us);
            },
            Some(w) => {
                let elapsed: u64 = ts_us.saturating_sub(w);
                if elapsed >= 1_000_000 {
                    self.pps = Ratio {
                        part: self.pkts_last_window as u128,
                        whole: elapsed as u128,
                    };
                    self.pkts_last_window = 0;
                    self.window_start_us = Some(ts_us);
                }
            },
        }
        self.pkts_last_window += 1;
    }

    /// Sets the start, unless it is set already.
    pub fn ensure_start(&mut self, ts_us: u64)
        ensures
            final(self)@ == (RegModel {
                start_us: Some(
                    match old(self).start_us {
                        Some(t) => t,
                        None => ts_us,
                    },
                ),
                ..old(self)@
            }),
    {
        if self.start_us.is_none() {
            self.start_us = Some(ts_us);
        }
    }

    /// The call of a Call-ID, to be changed in place; a new one where there is
    /// none.
    pub fn get_or_create_call(&mut self, call_id: &str) -> (r: &mut Call)
        ensures
            r@ == if old(self)@.calls.contains_key(call_id@) {
                old(self)@.calls[call_id@]
            } else {
                fresh_call(call_id@)
            },
            final(self)@ == with_call(old(self)@, call_id@, final(r)@),
    {
        let k: String = call_id.to_owned();
        let ghost was = self.calls@;
        let ghost order = self.order@;
        if !self.calls.contains_key(&k) {
            self.calls.insert(k.clone(), Call::new(k.clone()));
            self.order.push(k.clone());
            assert(texts(self.order@) =~= texts(order).push(call_id@));
        }
        let ghost now = self.calls@;
        let r = self.calls.get_mut(&k).unwrap();
        assert(views(now.insert(call_id@, *final(r))) =~= views(was).insert(call_id@, final(r)@));
        r
    }

    /// Adds an event line. The oldest go where there are too many.
    pub fn push_event(&mut self, line: String)
        ensures
            final(self)@ == with_event(old(self)@, line@),
    {
        self.events.push_back(line);
        let ghost all = self.events@;
        while self.events.len() > MAX_EVENTS
            invariant
                self.events@ == all.skip(all.len() - self.events@.len()),
                self.events@.len() <= all.len(),
                all.len() > MAX_EVENTS ==> self.events@.len() >= MAX_EVENTS,
                all.len() <= MAX_EVENTS ==> self.events@ == all,
                *self == (Registry { events: self.events, ..*old(self) }),
            decreases self.events@.len(),
        {
            self.events.pop_front();
        }
        assert(texts(all) =~= old(self)@.events.push(line@));
        assert(self.events@ =~= newest(all, MAX_EVENTS as int));
        assert(texts(self.events@) =~= newest(texts(all), MAX_EVENTS as int));
    }

    /// Takes out the list of removed calls.
    pub fn drain_removed(&mut self) -> (r: Vec<String>)
        ensures
            texts(r@) == old(self)@.removed,
            final(self)@ == (RegModel { removed: Seq::empty(), ..old(self)@ }),
    {
        let mut r: Vec<String> = Vec::new();
        let ghost all = self.removed@;
        loop
            invariant
                all == old(self).removed@,
                r@ + self.removed@ =~= all,
                *self == (Registry { removed: self.removed, ..*old(self) }),
            decreases self.removed@.len(),
        {
            match self.removed.pop_front() {
                Some(t) => {
                    r.push(t);
                },
                None => {
                    assert(r@ =~= all);
                    assert(texts(self.removed@) =~= Seq::empty());
                    return r;
                },
            }
        }
    }

    /// Forgets heatmap cells that are older than they are kept.
    pub fn prune_heatmap(&mut self)
        ensures
            final(self)@ == match old(self).last_us {
                Some(last) => RegModel {
                    cells: without_old(
                        old(self)@.cells,
                        old(self)@.bucket_secs,
                        gained(last, old(self).heatmap_retain_us),
                    ),
                    ..old(self)@
                },
                None => old(self)@,
            },
    {
        if let Some(last) = self.last_us {
            let cutoff: u64 = last.saturating_sub(self.heatmap_retain_us);
            self.heatmap.prune_older_than(cutoff);
        }
    }

    /// Enters a stream in the index of its call and in that of its source.
    pub fn note_stream(&mut self, call_id: &str, key: StreamKey)
        ensures
            final(self)@ == (RegModel {
                stream_index: appended(old(self)@.stream_index, call_id@, key),
                ssrc_index: appended(old(self)@.ssrc_index, key.ssrc, key.spec_id()),
                ..old(self)@
            }),
    {
        let id: String = call_id.to_owned();
        if !self.stream_index.contains_key(&id) {
            self.stream_index.insert(id.clone(), Vec::new());
        }
        if let Some(v) = self.stream_index.get_mut(&id) {
            v.push(key);
        }
        if !self.ssrc_index.contains_key(&key.ssrc) {
            let none = KeyList::new();
            assert(none@ =~= Seq::empty());
            self.ssrc_index.insert(key.ssrc, none);
        }
        if let Some(v) = self.ssrc_index.get_mut(&key.ssrc) {
            v.push(key.id());
        }
        assert(self@.stream_index =~= appended(old(self)@.stream_index, call_id@, key));
        assert(self@.ssrc_index =~= appended(old(self)@.ssrc_index, key.ssrc, key.spec_id()));
    }

    /// Adds a stream of a call.
    pub fn add_stream(&mut self, stream: RtpStream)
        requires
            old(self).wf(),
        ensures
            final(self).wf(),
            final(self)@ == with_stream(old(self)@, stream@),
    {
        let key = StreamKey { flow: stream.flow, ssrc: stream.ssrc };
        let call_id = stream.call_id.clone();
        let ghost m = stream@;
        self.streams.insert(key.id(), stream);
        self.stream_call.insert(key.id(), call_id.clone());
        assert(self@.streams =~= old(self)@.streams.insert(key.spec_id(), m));
        assert(self@.stream_call =~= old(self)@.stream_call.insert(key.spec_id(), call_id@));
        self.note_stream(call_id.as_str(), key);
    }

    /// A stream, to be changed in place.
    pub fn stream_mut(&mut self, key: StreamKey) -> (r: Option<&mut RtpStream>)
        ensures
            match r {
                Some(s) => {
                    &&& old(self)@.streams.contains_key(key.spec_id())
                    &&& s@ == old(self)@.streams[key.spec_id()]
                    &&& final(self)@ == (RegModel {
                        streams: old(self)@.streams.insert(key.spec_id(), final(s)@),
                        ..old(self)@
                    })
                },
                None => !old(self)@.streams.contains_key(key.spec_id()) && final(self)@
                    == old(self)@,
            },
    {
        let ghost was = self.streams@;
        match self.streams.get_mut(&key.id()) {
            Some(s) => {
                assert(views(was.insert(key.spec_id(), *final(s))) =~= views(was).insert(
                    key.spec_id(),
                    final(s)@,
                ));
                Some(s)
            },
            None => None,
        }
    }

    /// Strikes a stream from the index of its source.
    pub(crate) fn strike_ssrc(&mut self, key: StreamKey)
        ensures
            final(self)@ == (RegModel {
                ssrc_index: ssrc_without(old(self)@.ssrc_index, key),
                ..old(self)@
            }),
    {
        let mut bare = false;
        if let Some(v) = self.ssrc_index.get_mut(&key.ssrc) {
            v.remove_all(key.id());
            bare = v.is_empty();
        }
        if bare {
            self.ssrc_index.remove(&key.ssrc);
        }
        assert(self@.ssrc_index =~= ssrc_without(old(self)@.ssrc_index, key));
    }

    /// Strikes a stream from all indexes.
    pub(crate) fn forget_stream(&mut self, key: StreamKey)
        ensures
            final(self)@ == stream_forgotten(old(self)@, key),
    {
        if let Some(cid) = self.stream_call.remove(&key.id()) {
            let left = match self.stream_index.get(&cid) {
                Some(v) => Some(streams_without(v, key)),
                None => None,
            };
            if let Some(v) = left {
                if v.len() == 0 {
                    self.stream_index.remove(&cid);
                } else {
                    self.stream_index.insert(cid, v);
                }
            }
        }
        assert(self@.stream_call =~= old(self)@.stream_call.remove(key.spec_id()));
        assert(self@.stream_index =~= stream_forgotten(old(self)@, key).stream_index);
        self.strike_ssrc(key);
    }

    /// The streams of a call.
    pub fn call_stream_keys(&self, call_id: &str) -> (r: &[StreamKey])
        ensures
            r@ == list_at(self@.stream_index, call_id@),
    {
        let id: String = call_id.to_owned();
        match self.stream_index.get(&id) {
            Some(v) => v.as_slice(),
            None => &[],
        }
    }

    /// Adds an imported stream, or replaces the one of its key.
    pub fn add_imported_stream(&mut self, s: StreamSummary)
        requires
            old(self).wf(),
        ensures
            final(self)@ == with_imported(old(self)@, s@),
            final(self).wf(),
    {
        let key = import_key(&s);
        let ghost m = s@;
        if self.imported_streams.contains_key(&key) {
            self.imported_streams.insert(key, s);
            assert(self@.imported_streams =~= old(self)@.imported_streams.insert(import_id(m), m));
            return;
        }
        let n = self.imported_streams.len();
        assert(self@.imported_streams.dom() =~= self.imported_streams@.dom());
        if n >= self.max_streams {
            let counts = Counts { packets: s.packets, lost: s.lost, bytes: s.bytes };
            self.refused_streams.insert(key, counts);
            return;
        }
        self.refused_streams.remove(&key);
        if key.0.chars().next().is_some() {
            let call: String = key.0.clone();
            if !self.imported_by_call.contains_key(&call) {
                let none: Vec<ImportKey> = Vec::new();
                assert(import_ids(none@) =~= Seq::empty());
                self.imported_by_call.insert(call.clone(), none);
            }
            if let Some(v) = self.imported_by_call.get_mut(&call) {
                let ghost was = v@;
                v.push((key.0.clone(), key.1, key.2));
                assert(import_ids(v@) =~= import_ids(was).push(key.id()));
            }
            assert(self@.imported_by_call =~= appended(
                old(self)@.imported_by_call,
                key.id().0,
                key.id(),
            ));
        }
        self.imported_streams.insert(key, s);
        assert(self@.imported_streams =~= old(self)@.imported_streams.insert(import_id(m), m));
    }

    /// Takes in the record of a stream from a recording.
    pub fn import_stream_snap(&mut self, ts_us: u64, s: StreamSummary)
        requires
            old(self).wf(),
            match s.flow {
                Some(f) => gain_fits(old(self)@.ipstats, f, gain_of(old(self)@, s@)),
                None => true,
            },
        ensures
            final(self)@ == with_snap(old(self)@, ts_us, s@),
            final(self).wf(),
    {
        let latest: u64 = match self.last_us {
            Some(t) => t,
            None => 0,
        };
        if ts_us > latest {
            self.last_us = Some(ts_us);
        }
        let p = self.last_counts_of(&import_key(&s));
        let g = Counts {
            packets: s.packets.saturating_sub(p.packets),
            lost: s.lost.saturating_sub(p.lost),
            bytes: s.bytes.saturating_sub(p.bytes),
        };
        assert(g == gain_of(old(self)@, s@));
        let flow = s.flow;
        self.add_imported_stream(s);
        let f = match flow {
            Some(f) => f,
            None => {
                return;
            },
        };
        book_packets(&mut self.ipstats, ts_us, f, g);
        book_losses(&mut self.ipstats, ts_us, f, g);
    }

    fn last_counts_of(&self, key: &ImportKey) -> (r: Counts)
        ensures
            r == last_counts(self@, key.id()),
    {
        match self.imported_streams.get(key) {
            Some(s) => Counts { packets: s.packets, lost: s.lost, bytes: s.bytes },
            None => match self.refused_streams.get(key) {
                Some(c) => *c,
                None => Counts { packets: 0, lost: 0, bytes: 0 },
            },
        }
    }

    /// The messages of a call.
    pub fn call_messages(&self, call_id: &str) -> (r: Option<&[crate::model::sip::SipMsg]>)
        ensures
            match r {
                Some(v) => self@.calls.contains_key(call_id@) && v@
                    == self@.calls[call_id@].messages,
                None => !self@.calls.contains_key(call_id@),
            },
    {
        let id: String = call_id.to_owned();
        match self.calls.get(&id) {
            Some(c) => Some(c.messages.as_slice()),
            None => None,
        }
    }

    /// Whether there is a call of a Call-ID.
    pub fn has_call(&self, call_id: &str) -> (r: bool)
        ensures
            r == self@.calls.contains_key(call_id@),
    {
        let id: String = call_id.to_owned();
        self.calls.contains_key(&id)
    }

    /// The number of calls.
    pub fn call_count(&self) -> (r: usize)
        ensures
            counts(self@.calls, r as nat),
    {
        let n = self.calls.len();
        assert(self@.calls.dom() =~= self.calls@.dom());
        n
    }
}

/// Importing a stream twice leaves one entry, the later one.
pub proof fn a_second_import_replaces_the_first(m: RegModel, a: SummaryModel, b: SummaryModel)
    requires
        import_id(a) == import_id(b),
        m.imported_streams.contains_key(import_id(a)) || m.imported_streams.dom().len()
            < m.max_streams,
    ensures
        ({
            let once = with_imported(m, a);
            let twice = with_imported(once, b);
            &&& twice.imported_streams.dom() == once.imported_streams.dom()
            &&& twice.imported_streams[import_id(b)] == b
            &&& twice.imported_by_call == once.imported_by_call
        }),
{
    let once = with_imported(m, a);
    let twice = with_imported(once, b);
    assert(twice.imported_streams.dom() =~= once.imported_streams.dom());
}

/// The records of a stream add up: after two records of a stream that was not
/// known, with counts that do not fall, the addresses of its flow have been
/// credited with exactly what the second record says, whether or not there was
/// room to import the stream.
pub proof fn the_records_of_a_stream_add_up(
    m: RegModel,
    t1: u64,
    a: SummaryModel,
    t2: u64,
    b: SummaryModel,
    flow: Flow5Tuple,
)
    requires
        import_id(a) == import_id(b),
        a.flow == Some(flow),
        b.flow == Some(flow),
        flow.src.ip != flow.dst.ip,
        !m.imported_streams.contains_key(import_id(a)),
        !m.refused_streams.contains_key(import_id(a)),
        a.packets <= b.packets,
        a.lost <= b.lost,
        a.bytes <= b.bytes,
    ensures
        ({
            let end = with_snap(with_snap(m, t1, a), t2, b).ipstats;
            let src = of_ip(end, flow.src.ip).total;
            let dst = of_ip(end, flow.dst.ip).total;
            &&& src == of_ip(m.ipstats, flow.src.ip).total.plus(
                traffic(b.packets, b.bytes, Dir::Tx),
            ).plus(losses(b.lost, Dir::Tx))
            &&& dst == of_ip(m.ipstats, flow.dst.ip).total.plus(
                traffic(b.packets, b.bytes, Dir::Rx),
            ).plus(losses(b.lost, Dir::Rx))
        }),
{
    crate::addr::ip_key_is_injective(flow.src.ip, flow.dst.ip);
    let mid = with_snap(m, t1, a);
    lemma_snap_totals(m, t1, a, flow);
    the_last_record_is_remembered(m, t1, a, import_id(a));
    lemma_snap_totals(mid, t2, b, flow);
    lemma_gains_add_up(of_ip(m.ipstats, flow.src.ip).total, a, b, Dir::Tx);
    lemma_gains_add_up(of_ip(m.ipstats, flow.dst.ip).total, a, b, Dir::Rx);
}

/// What a record of a stream counts is known when the next one comes, and that of
/// other streams stays as it was.
pub proof fn the_last_record_is_remembered(m: RegModel, ts_us: u64, s: SummaryModel, k: ImportId)
    ensures
        last_counts(with_snap(m, ts_us, s), k) == if k == import_id(s) {
            counts_of(s)
        } else {
            last_counts(m, k)
        },
{
}

/// What a stream had, and what it gained since, are what it has.
proof fn lemma_gains_add_up(t: Tally, a: SummaryModel, b: SummaryModel, dir: Dir)
    requires
        a.packets <= b.packets,
        a.lost <= b.lost,
        a.bytes <= b.bytes,
    ensures
        t.plus(traffic(a.packets, a.bytes, dir)).plus(losses(a.lost, dir)).plus(
            traffic(gained(b.packets, a.packets), gained(b.bytes, a.bytes), dir),
        ).plus(losses(gained(b.lost, a.lost), dir)) == t.plus(
            traffic(b.packets, b.bytes, dir),
        ).plus(losses(b.lost, dir)),
{
}

/// What one record adds to the totals of the two addresses of its flow.
proof fn lemma_snap_totals(m: RegModel, ts_us: u64, s: SummaryModel, flow: Flow5Tuple)
    requires
        s.flow == Some(flow),
        flow.src.ip.spec_key() != flow.dst.ip.spec_key(),
    ensures
        ({
            let g = gain_of(m, s);
            let end = with_snap(m, ts_us, s).ipstats;
            &&& of_ip(end, flow.src.ip).total == of_ip(m.ipstats, flow.src.ip).total.plus(
                traffic(g.packets, g.bytes, Dir::Tx),
            ).plus(losses(g.lost, Dir::Tx))
            &&& of_ip(end, flow.dst.ip).total == of_ip(m.ipstats, flow.dst.ip).total.plus(
                traffic(g.packets, g.bytes, Dir::Rx),
            ).plus(losses(g.lost, Dir::Rx))
        }),
{
    let g = gain_of(m, s);
    let n = packets_booked(m.ipstats, ts_us, flow, g);
    assert(of_ip(n, flow.src.ip).total == of_ip(m.ipstats, flow.src.ip).total.plus(
        traffic(g.packets, g.bytes, Dir::Tx),
    ));
    assert(of_ip(n, flow.dst.ip).total == of_ip(m.ipstats, flow.dst.ip).total.plus(
        traffic(g.packets, g.bytes, Dir::Rx),
    ));
    let e = losses_booked(n, ts_us, flow, g);
    assert(of_ip(e, flow.src.ip).total == of_ip(n, flow.src.ip).total.plus(
        losses(g.lost, Dir::Tx),
    ));
    assert(of_ip(e, flow.dst.ip).total == of_ip(n, flow.dst.ip).total.plus(
        losses(g.lost, Dir::Rx),
    ));
}

/// A packet's time is the last one seen, and the first where there was none. After a
/// second or more the rate is worked out, from the packets of the time that passed,
/// and counting starts again with this one.
pub proof fn a_packet_keeps_the_clock(m: RegModel, ts_us: u64)
    requires
        m.pkts_last_window < u64::MAX,
    ensures
        ({
            let n = touched(m, ts_us);
            let due = m.window_start_us is Some && ts_us >= m.window_start_us->0 + 1_000_000;
            &&& n.last_us == Some(ts_us)
            &&& m.start_us is None ==> n.start_us == Some(ts_us)
            &&& m.start_us is Some ==> n.start_us == m.start_us
            &&& due ==> n.pps.part == m.pkts_last_window && n.pps.whole == ts_us
                - m.window_start_us->0 && n.pkts_last_window == 1 && n.window_start_us == Some(ts_us)
            &&& !due ==> n.pps == m.pps && n.pkts_last_window == m.pkts_last_window + 1
            &&& !due && m.window_start_us is Some ==> n.window_start_us == m.window_start_us
            &&& m.window_start_us is None ==> n.window_start_us == Some(ts_us)
            &&& n.calls == m.calls && n.order == m.order && n.streams == m.streams
            &&& n.pkts_total == m.pkts_total && n.ipstats == m.ipstats
        }),
{
}

/// An event line comes last, and the newest thousand are kept.
pub proof fn the_newest_events_are_kept(m: RegModel, line: Seq<char>)
    requires
        m.events.len() <= 1000,
    ensures
        ({
            let n = with_event(m, line);
            &&& n.events.len() > 0 && n.events.last() == line
            &&& m.events.len() < 1000 ==> n.events.drop_last() == m.events
            &&& m.events.len() == 1000 ==> n.events.drop_last() == m.events.drop_first()
            &&& n.calls == m.calls && n.diagnostics == m.diagnostics
        }),
{
    let n = with_event(m, line);
    if m.events.len() < 1000 {
        assert(n.events.drop_last() =~= m.events);
    } else {
        assert(n.events.drop_last() =~= m.events.drop_first());
    }
}

/// A call is kept under its Call-ID. A new one comes last in the order, and all
/// others stay as they are.
pub proof fn a_call_is_kept_under_its_id(m: RegModel, id: Seq<char>, c: CallModel, other: Seq<char>)
    ensures
        ({
            let n = with_call(m, id, c);
            &&& n.calls.contains_key(id) && n.calls[id] == c
            &&& other != id ==> (n.calls.contains_key(other) <==> m.calls.contains_key(other))
            &&& other != id && m.calls.contains_key(other) ==> n.calls[other] == m.calls[other]
            &&& m.calls.contains_key(id) ==> n.order == m.order
            &&& !m.calls.contains_key(id) ==> n.order.len() == m.order.len() + 1 && n.order.last()
                == id && n.order.drop_last() == m.order
            &&& n.streams == m.streams && n.pkts_total == m.pkts_total
        }),
{
    let n = with_call(m, id, c);
    if !m.calls.contains_key(id) {
        assert(n.order.drop_last() =~= m.order);
    }
}

/// A new stream is found by its flow and source, under its call and by its source
/// alone, behind those that were there.
pub proof fn a_stream_is_found_in_every_way(m: RegModel, s: StreamModel)
    ensures
        ({
            let n = with_stream(m, s);
            let id = (s.flow.spec_key(), s.ssrc);
            &&& n.streams.contains_key(id) && n.streams[id] == s
            &&& n.streams.remove(id) == m.streams.remove(id)
            &&& n.stream_call.contains_key(id) && n.stream_call[id] == s.call_id
            &&& n.stream_index.contains_key(s.call_id) && n.stream_index[s.call_id].last() == (
            StreamKey { flow: s.flow, ssrc: s.ssrc })
            &&& m.stream_index.contains_key(s.call_id) ==> n.stream_index[s.call_id].drop_last()
                == m.stream_index[s.call_id]
            &&& !m.stream_index.contains_key(s.call_id) ==> n.stream_index[s.call_id].len() == 1
            &&& n.stream_index.remove(s.call_id) == m.stream_index.remove(s.call_id)
            &&& n.ssrc_index.contains_key(s.ssrc) && n.ssrc_index[s.ssrc].last() == id
            &&& n.ssrc_index.remove(s.ssrc) == m.ssrc_index.remove(s.ssrc)
            &&& n.calls == m.calls && n.order == m.order
        }),
{
    let n = with_stream(m, s);
    let id = (s.flow.spec_key(), s.ssrc);
    assert(n.streams.remove(id) =~= m.streams.remove(id));
    assert(n.stream_index.remove(s.call_id) =~= m.stream_index.remove(s.call_id));
    assert(n.ssrc_index.remove(s.ssrc) =~= m.ssrc_index.remove(s.ssrc));
    if m.stream_index.contains_key(s.call_id) {
        assert(n.stream_index[s.call_id].drop_last() =~= m.stream_index[s.call_id]);
    }
}

/// A record is imported under its call, its source and its flow. It takes the place
/// of an earlier one. A new one is refused where there are as many as are kept, and
/// then what it counts is remembered.
pub proof fn a_record_is_imported_or_refused(m: RegModel, s: SummaryModel, k: ImportId)
    requires
        k.1 == s.ssrc,
        s.call_id is Some ==> k.0 == s.call_id->0,
        s.call_id is None ==> k.0.len() == 0,
        s.flow is Some ==> k.2 == Some(s.flow->0.spec_key()),
        s.flow is None ==> k.2 is None,
    ensures
        ({
            let n = with_imported(m, s);
            let known = m.imported_streams.contains_key(k);
            let full = m.imported_streams.dom().len() >= m.max_streams;
            &&& known || !full ==> n.imported_streams.contains_key(k) && n.imported_streams[k] == s
            &&& !known && full ==> {
                &&& n.imported_streams == m.imported_streams
                &&& n.refused_streams.contains_key(k)
                &&& n.refused_streams[k].packets == s.packets && n.refused_streams[k].lost == s.lost
                    && n.refused_streams[k].bytes == s.bytes
            }
            &&& n.imported_streams.remove(k) == m.imported_streams.remove(k)
            &&& !known && !full && k.0.len() > 0 ==> n.imported_by_call.contains_key(k.0)
                && n.imported_by_call[k.0].last() == k && n.imported_by_call.remove(k.0)
                == m.imported_by_call.remove(k.0)
            &&& known || full || k.0.len() == 0 ==> n.imported_by_call == m.imported_by_call
            &&& n.calls == m.calls && n.streams == m.streams && n.ipstats == m.ipstats
        }),
{
    if s.call_id is None {
        assert(k.0 =~= Seq::empty());
    }
    assert(import_id(s) == k);
    let n = with_imported(m, s);
    assert(n.imported_streams.remove(k) =~= m.imported_streams.remove(k));
    if !m.imported_streams.contains_key(k) && m.imported_streams.dom().len() < m.max_streams
        && k.0.len() > 0 {
        assert(n.imported_by_call.remove(k.0) =~= m.imported_by_call.remove(k.0));
    }
}

/// What a record adds is what it counts beyond the last record of its stream, and
/// nothing where it counts less.
pub proof fn a_record_adds_what_is_new(m: RegModel, s: SummaryModel)
    ensures
        ({
            let g = gain_of(m, s);
            let k = import_id(s);
            let known = m.imported_streams.contains_key(k);
            let refused = m.refused_streams.contains_key(k);
            let (p, l, b) = if known {
                (m.imported_streams[k].packets, m.imported_streams[k].lost, m.imported_streams[k].bytes)
            } else if refused {
                (m.refused_streams[k].packets, m.refused_streams[k].lost, m.refused_streams[k].bytes)
            } else {
                (0u64, 0u64, 0u64)
            };
            &&& s.packets >= p ==> g.packets == s.packets - p
            &&& s.packets < p ==> g.packets == 0
            &&& s.lost >= l ==> g.lost == s.lost - l
            &&& s.lost < l ==> g.lost == 0
            &&& s.bytes >= b ==> g.bytes == s.bytes - b
            &&& s.bytes < b ==> g.bytes == 0
        }),
{
}

/// What a record adds is booked at both ends of its flow: as sent at the source and
/// as received at the destination, packets and losses alike. Other addresses are left
/// alone, and a record without a flow books nothing.
pub proof fn a_record_is_booked_at_both_ends(m: RegModel, ts_us: u64, s: SummaryModel)
    ensures
        s.flow is None ==> with_snap(m, ts_us, s).ipstats == m.ipstats,
        s.flow matches Some(f) ==> f.src.ip != f.dst.ip ==> {
            let n = with_snap(m, ts_us, s);
            let g = gain_of(m, s);
            let src = f.src.ip.spec_key();
            let dst = f.dst.ip.spec_key();
            &&& of_ip(n.ipstats, f.src.ip).total.pkts_tx == of_ip(m.ipstats, f.src.ip).total.pkts_tx
                + g.packets
            &&& of_ip(n.ipstats, f.src.ip).total.bytes_tx == of_ip(m.ipstats, f.src.ip).total.bytes_tx
                + g.bytes
            &&& of_ip(n.ipstats, f.src.ip).total.lost_tx == of_ip(m.ipstats, f.src.ip).total.lost_tx
                + g.lost
            &&& of_ip(n.ipstats, f.src.ip).total.pkts_rx == of_ip(m.ipstats, f.src.ip).total.pkts_rx
            &&& of_ip(n.ipstats, f.dst.ip).total.pkts_rx == of_ip(m.ipstats, f.dst.ip).total.pkts_rx
                + g.packets
            &&& of_ip(n.ipstats, f.dst.ip).total.bytes_rx == of_ip(m.ipstats, f.dst.ip).total.bytes_rx
                + g.bytes
            &&& of_ip(n.ipstats, f.dst.ip).total.lost_rx == of_ip(m.ipstats, f.dst.ip).total.lost_rx
                + g.lost
            &&& of_ip(n.ipstats, f.dst.ip).total.pkts_tx == of_ip(m.ipstats, f.dst.ip).total.pkts_tx
            &&& n.ipstats.remove(src).remove(dst) == m.ipstats.remove(src).remove(dst)
        },
        m.last_us is None && ts_us > 0 ==> with_snap(m, ts_us, s).last_us == Some(ts_us),
        m.last_us is None && ts_us == 0 ==> with_snap(m, ts_us, s).last_us is None,
        m.last_us matches Some(t) ==> with_snap(m, ts_us, s).last_us == Some(
            if ts_us > t {
                ts_us
            } else {
                t
            },
        ),
        with_snap(m, ts_us, s).calls == m.calls,
        with_snap(m, ts_us, s).imported_streams == with_imported(m, s).imported_streams,
        with_snap(m, ts_us, s).refused_streams == with_imported(m, s).refused_streams,
{
    if let Some(f) = s.flow {
        if f.src.ip != f.dst.ip {
            crate::addr::ip_key_is_injective(f.src.ip, f.dst.ip);
            let n = with_snap(m, ts_us, s);
            let src = f.src.ip.spec_key();
            let dst = f.dst.ip.spec_key();
            assert(src != dst);
            assert(n.ipstats.remove(src).remove(dst) =~= m.ipstats.remove(src).remove(dst));
        }
    }
}

/// A cleared registry has forgotten what it saw, and keeps where the packets come
/// from, its limits, what is searched for and what was removed.
pub proof fn clearing_forgets_what_was_seen(m: RegModel)
    ensures
        ({
            let n = cleared(m);
            &&& n.calls.dom() =~= Set::empty() && n.order.len() == 0
            &&& n.streams.dom() =~= Set::empty() && n.stream_call.dom() =~= Set::empty()
            &&& n.stream_index.dom() =~= Set::empty() && n.ssrc_index.dom() =~= Set::empty()
            &&& n.endpoint_call.dom() =~= Set::empty() && n.ipstats.dom() =~= Set::empty()
            &&& n.imported_streams.dom() =~= Set::empty() && n.imported_by_call.dom() =~= Set::empty()
            &&& n.refused_streams.dom() =~= Set::empty() && n.cells.dom() =~= Set::empty()
            &&& n.events.len() == 0 && n.diagnostics.len() == 0 && n.search_matches.len() == 0
            &&& n.pkts_total == 0 && n.pkts_last_window == 0 && n.completed == 0 && n.failed == 0
            &&& n.start_us is None && n.last_us is None && n.window_start_us is None
            &&& n.focus_hint is None && n.pps.part == 0 && n.pps.whole > 0
            &&& n.source == m.source && n.search_hint == m.search_hint && n.removed == m.removed
            &&& n.max_calls == m.max_calls && n.max_streams == m.max_streams
            &&& n.max_diagnostics == m.max_diagnostics && n.bucket_secs == m.bucket_secs
            &&& n.heatmap_retain_us == m.heatmap_retain_us && n.pkts_dropped == m.pkts_dropped
            &&& n.tz_offset_secs == m.tz_offset_secs
        }),
{
}

/// A new registry is empty. It keeps a hundred thousand calls, half as many streams
/// and findings, and a day of cells of a quarter of an hour.
pub proof fn a_new_registry_is_empty(source: Seq<char>)
    ensures
        ({
            let n = empty_registry(source);
            &&& n.source == source
            &&& n.calls.dom() =~= Set::empty() && n.order.len() == 0
            &&& n.streams.dom() =~= Set::empty() && n.imported_streams.dom() =~= Set::empty()
            &&& n.ipstats.dom() =~= Set::empty() && n.cells.dom() =~= Set::empty()
            &&& n.pkts_total == 0 && n.completed == 0 && n.failed == 0 && n.pkts_dropped == 0
            &&& n.start_us is None && n.last_us is None && n.focus_hint is None
            &&& n.search_hint is None && n.search_matches.len() == 0 && n.removed.len() == 0
            &&& n.max_calls == 100_000 && n.max_streams == 50_000 && n.max_diagnostics == 50_000
            &&& n.bucket_secs == 15 * 60 && n.heatmap_retain_us == 24 * 3600 * 1_000_000
        }),
{
}

/// To strike something from a list takes out what is not kept and leaves the rest in
/// order; a list that is empty then goes, and other lists stay.
pub proof fn striking_leaves_the_rest<K, T>(m: Map<K, Seq<T>>, k: K, keep: spec_fn(T) -> bool, other: K)
    ensures
        list_at(struck(m, k, keep), k) == list_at(m, k).filter(keep),
        other != k ==> list_at(struck(m, k, keep), other) == list_at(m, other),
        m.contains_key(k) ==> (struck(m, k, keep).contains_key(k) <==> m[k].filter(keep).len() > 0),
{
    if !m.contains_key(k) {
        reveal(Seq::filter);
        assert(Seq::<T>::empty().filter(keep) =~= Seq::empty());
    } else if m[k].filter(keep).len() == 0 {
        assert(m[k].filter(keep) =~= Seq::empty());
    }
}

/// A stream that is forgotten is no longer found by its call or its source.
pub proof fn a_forgotten_stream_is_not_found(m: RegModel, k: StreamKey)
    ensures
        ({
            let n = stream_forgotten(m, k);
            let id = (k.flow.spec_key(), k.ssrc);
            &&& !n.stream_call.contains_key(id)
            &&& n.stream_call.remove(id) == m.stream_call.remove(id)
            &&& list_at(n.ssrc_index, k.ssrc) == list_at(m.ssrc_index, k.ssrc).filter(
                |x: StreamId| x != id,
            )
            &&& m.stream_call.contains_key(id) ==> list_at(n.stream_index, m.stream_call[id])
                == list_at(m.stream_index, m.stream_call[id]).filter(|x: StreamKey| x != k)
            &&& !m.stream_call.contains_key(id) ==> n.stream_index == m.stream_index
            &&& n.calls == m.calls && n.order == m.order
        }),
{
    let n = stream_forgotten(m, k);
    let id = (k.flow.spec_key(), k.ssrc);
    assert(n.stream_call.remove(id) =~= m.stream_call.remove(id));
    striking_leaves_the_rest(m.ssrc_index, k.ssrc, other_than(id), k.ssrc);
    assert(other_than(id) =~= |x: StreamId| x != id);
    if m.stream_call.contains_key(id) {
        let c = m.stream_call[id];
        striking_leaves_the_rest(m.stream_index, c, other_stream(k), c);
        assert(other_stream(k) =~= |x: StreamKey| x != k);
    }
}

/// What was gained is what there is now beyond what there was, and nothing where
/// there is less.
pub proof fn a_gain_is_what_came_since(now: u64, before: u64)
    ensures
        now >= before ==> before + gained(now, before) == now,
        now < before ==> gained(now, before) == 0,
{
}

} // verus!
