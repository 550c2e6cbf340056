use sipmon::addr::{Flow5Tuple, IpAddr, Proto, SocketAddr};
use sipmon::analyze::media_stats::MediaStats;
use sipmon::analyze::mos::CodecParams;
use sipmon::correlate::stream::{Quality, RtpStream};
use sipmon::decode::rtp::RtpHeader;
use sipmon::double::Double;
use sipmon::model::diag::{Diagnostic, Severity};
use sipmon::model::media::StreamSummary;
use sipmon::model::ratio::Ratio;
use sipmon::model::sip::{CallState, Method, SipMsg};
use sipmon::store::heatmap::{CallMetrics, Heatmap};
use sipmon::store::ipstats::Dir;
use sipmon::store::legs::{common_flow_ip, dialog_legs, merge_leg_msgs, trim_msgs};
use sipmon::store::registry::{FocusHint, Registry, StreamKey};
use sipmon::store::snapshot::Snapshot;

fn ip(s: &str) -> IpAddr {
    let mut n: u32 = 0;
    for part in s.split('.') {
        n = n * 256 + part.parse::<u32>().unwrap();
    }
    IpAddr::V4(n)
}

fn sock(s: &str) -> SocketAddr {
    let (a, port) = s.split_once(':').unwrap();
    SocketAddr {
        ip: ip(a),
        port: port.parse().unwrap(),
    }
}

fn flow(src: &str, dst: &str) -> Flow5Tuple {
    Flow5Tuple {
        proto: Proto::Udp,
        src: sock(src),
        dst: sock(dst),
    }
}

fn value(d: Double) -> f64 {
    f64::from_bits(d.bits)
}

fn double(x: f64) -> Double {
    Double { bits: x.to_bits() }
}

fn plus(a: Double, b: Double) -> Double {
    double(value(a) + value(b))
}

fn pct(r: Ratio) -> f64 {
    r.part as f64 / r.whole as f64 * 100.0
}

fn gauge(st: MediaStats, _codec: CodecParams, _rtt: &Vec<Double>, _oneway: &Vec<Double>) -> Quality {
    let loss = if st.expected_packets > 0 {
        st.lost_packets as f64 / st.expected_packets as f64 * 100.0
    } else {
        0.0
    };
    Quality {
        loss_pct: double(loss),
        jitter_ms: None,
        rtt_avg_ms: None,
        oneway_ms: None,
        mos: Some(double(4.0)),
    }
}

fn step(_arrival: i128, _ts: i64, _clock: u32, jitter: Double) -> Option<Double> {
    Some(jitter)
}

fn rescale(jitter: Double, _new: u32, _old: u32) -> Double {
    jitter
}

fn full(reg: &Registry) -> Snapshot {
    reg.snapshot_full(&gauge, &plus)
}

fn mk_sip(from_tag: Option<&str>, from: &str, to: &str) -> SipMsg {
    SipMsg {
        ts_us: 0,
        flow: flow(from, to),
        is_request: true,
        method: Some(Method::Invite),
        status: None,
        call_id: "c1".into(),
        cseq: Some(1),
        cseq_method: Some("INVITE".into()),
        branch: Some("b".into()),
        from_tag: from_tag.map(str::to_owned),
        to_tag: None,
        from_uri: None,
        to_uri: None,
        raw: bytes::Bytes::new(),
        contact_addr: None,
        route_count: 0,
        record_route_count: 0,
        has_sdp: false,
    }
}

#[test]
fn dialog_legs_groups_by_from_tag() {
    let msgs = vec![
        mk_sip(Some("t1"), "1.1.1.1:5060", "2.2.2.2:5060"),
        mk_sip(Some("t2"), "2.2.2.2:5060", "3.3.3.3:5060"),
        mk_sip(Some("t1"), "2.2.2.2:5060", "1.1.1.1:5060"),
    ];
    let (legs, n) = dialog_legs(&msgs);
    assert_eq!(legs, vec![0, 1, 0]);
    assert_eq!(n, 2);
    // A re-INVITE (same From tag) stays in the same dialog → not a B2BUA.
    let msgs2 = vec![
        mk_sip(Some("t1"), "1.1.1.1:5060", "2.2.2.2:5060"),
        mk_sip(Some("t1"), "1.1.1.1:5060", "2.2.2.2:5060"),
    ];
    let (_, n2) = dialog_legs(&msgs2);
    assert_eq!(n2, 1);
}

#[test]
fn common_flow_ip_finds_same_call_id_b2bua() {
    let msgs = vec![
        mk_sip(Some("t1"), "1.1.1.1:5060", "2.2.2.2:5060"),
        mk_sip(Some("t2"), "2.2.2.2:5060", "3.3.3.3:5060"),
    ];
    let (legs, _) = dialog_legs(&msgs);
    assert_eq!(
        common_flow_ip(&msgs, &legs),
        Some(ip("2.2.2.2")),
        "shared flow IP (the B2BUA) must be found"
    );
    // No shared IP → None (ambiguous).
    let msgs2 = vec![
        mk_sip(Some("t1"), "1.1.1.1:5060", "2.2.2.2:5060"),
        mk_sip(Some("t2"), "3.3.3.3:5060", "4.4.4.4:5060"),
    ];
    let (legs2, _) = dialog_legs(&msgs2);
    assert_eq!(common_flow_ip(&msgs2, &legs2), None);
}

#[test]
fn focus_detail_exposes_legs_and_b2bua() {
    let mut reg = Registry::with_source("t".into());
    let call = reg.get_or_create_call("c1");
    call.from_user = Some("alice".into());
    call.to_user = Some("bob".into());
    call.invite_ts = Some(1_000_000);
    let msgs = vec![
        mk_sip(Some("t1"), "1.1.1.1:5060", "2.2.2.2:5060"),
        mk_sip(Some("t2"), "2.2.2.2:5060", "3.3.3.3:5060"),
    ];
    call.messages = msgs;
    reg.focus_hint = Some(FocusHint::primary("c1"));
    let focus = full(&reg).focus.expect("focus detail present");
    assert_eq!(focus.legs, vec![0, 1]);
    let b2bua = focus.b2bua.expect("same Call-ID split must be detected");
    assert_eq!(b2bua.legs, 2);
    assert_eq!(b2bua.addr, Some(ip("2.2.2.2")));
}

#[test]
fn focus_detail_no_b2bua_for_single_dialog() {
    let mut reg = Registry::with_source("t".into());
    let call = reg.get_or_create_call("c1");
    call.from_user = Some("alice".into());
    call.to_user = Some("bob".into());
    call.invite_ts = Some(1_000_000);
    call.messages = vec![
        mk_sip(Some("t1"), "1.1.1.1:5060", "2.2.2.2:5060"),
        mk_sip(Some("t1"), "2.2.2.2:5060", "1.1.1.1:5060"),
    ];
    reg.focus_hint = Some(FocusHint::primary("c1"));
    let focus = full(&reg).focus.expect("focus detail present");
    assert_eq!(focus.legs, vec![0, 0]);
    assert!(focus.b2bua.is_none(), "single dialog must not be a B2BUA");
}

#[test]
fn focus_detail_merges_linked_b_leg_by_timestamp() {
    let mut reg = Registry::with_source("t".into());
    {
        let a = reg.get_or_create_call("a-leg");
        let mut m0 = mk_sip(Some("t1"), "1.1.1.1:5060", "2.2.2.2:5060");
        m0.ts_us = 1_000_000;
        let mut m2 = mk_sip(Some("t1"), "2.2.2.2:5060", "1.1.1.1:5060");
        m2.ts_us = 1_100_000;
        m2.is_request = false;
        m2.method = None;
        m2.status = Some(100);
        a.messages = vec![m0, m2];
    }
    {
        let b = reg.get_or_create_call("b-leg");
        let mut m1 = mk_sip(Some("t2"), "2.2.2.2:5060", "3.3.3.3:5060");
        m1.ts_us = 1_050_000;
        b.messages = vec![m1];
    }
    reg.focus_hint = Some(FocusHint::with_linked("a-leg", "b-leg"));
    let focus = full(&reg).focus.expect("focus detail present");
    assert_eq!(focus.call_id, "a-leg");
    assert_eq!(focus.messages.len(), 3);
    assert_eq!(focus.legs, vec![0, 1, 0]);
    assert_eq!(focus.messages[0].ts_us, 1_000_000);
    assert_eq!(focus.messages[1].ts_us, 1_050_000);
    assert_eq!(focus.messages[2].ts_us, 1_100_000);
    assert_eq!(focus.b2bua.as_ref().map(|b| b.legs), Some(2));
}

#[test]
fn search_pin_protects_from_ttl_and_window() {
    let mut reg = Registry::with_source("t".into());
    {
        let a = reg.get_or_create_call("alice-call");
        a.invite_ts = Some(1_000);
        a.last_ts_us = 1_000;
        a.end_ts = Some(2_000);
        a.state = CallState::Completed;
        a.from_user = Some("alice".into());
    }
    {
        let b = reg.get_or_create_call("bob-call");
        b.invite_ts = Some(3_000);
        b.last_ts_us = 3_000;
        b.end_ts = Some(4_000);
        b.state = CallState::Completed;
        b.from_user = Some("bob".into());
    }
    reg.set_search_hint(Some("alice"));

    // TTL eviction past the cutoff: the pinned call survives.
    reg.evict_stale(60, 120_000_000);
    assert!(reg.has_call("alice-call"), "pin must protect");
    assert!(!reg.has_call("bob-call"), "unpinned evicts");

    // Window of 1 would only hold the newest call; pinned stays visible.
    let snap = reg.snapshot(1, &gauge, &plus);
    assert!(snap.calls.iter().any(|c| c.call_id == "alice-call"));

    // Clearing the hint lifts the protection.
    reg.set_search_hint(None);
    reg.evict_stale(60, 120_000_000);
    assert!(!reg.has_call("alice-call"));
}

#[test]
fn capacity_eviction_skips_pinned_calls() {
    let mut reg = Registry::with_source("t".into());
    reg.set_caps(2, 10, 10);
    {
        let a = reg.get_or_create_call("focused");
        a.invite_ts = Some(1_000);
        a.last_ts_us = 1_000;
        a.end_ts = Some(1_500);
        a.state = CallState::Completed;
    }
    {
        let b = reg.get_or_create_call("pinned-by-search");
        b.invite_ts = Some(2_000);
        b.last_ts_us = 2_000;
        b.end_ts = Some(2_500);
        b.state = CallState::Completed;
    }
    reg.focus_hint = Some(FocusHint::primary("focused"));
    reg.set_search_hint(Some("pinned-by-search"));
    reg.evict_if_needed();
    assert_eq!(reg.call_count(), 2, "all calls pinned: nothing evictable");
    assert!(reg.has_call("focused"));
    assert!(reg.has_call("pinned-by-search"));
}

#[test]
fn imported_streams_surface_in_snapshot_focus_and_summary() {
    let mut reg = Registry::with_source("replay".into());
    reg.get_or_create_call("c1");
    let mut st = StreamSummary {
        ssrc: 0x1000,
        packets: 500,
        lost: 4,
        loss_pct: double(0.8),
        bytes: 4000,
        mos: Some(double(4.3)),
        ..StreamSummary::default()
    };
    st.call_id = Some("c1".into());
    reg.add_imported_stream(st);

    // Snapshot streams include the imported stream.
    let snap = full(&reg);
    assert_eq!(snap.streams.len(), 1);
    assert_eq!(snap.streams[0].ssrc, 0x1000);

    // Focus detail (Call Detail media table) includes it with flow/pkts.
    reg.focus_hint = Some(FocusHint::primary("c1"));
    let snap = full(&reg);
    let focus = snap.focus.expect("focus detail present");
    assert_eq!(focus.streams.len(), 1, "media table must show the stream");
    assert_eq!(focus.streams[0].packets, 500);
    assert_eq!(focus.streams[0].bytes, 4000);

    // Call summary aggregates RTP packets + MOS from imported streams.
    let call = &snap.calls[0];
    assert_eq!(call.pkts_rtp, 500);
    assert_eq!(call.best_mos, Some(double(4.3)));
    assert_eq!(call.stream_count, 1);
}

#[test]
fn import_stream_snap_feeds_ip_stats_and_upserts() {
    let mut reg = Registry::with_source("replay".into());
    let flow = flow("10.10.0.8:4000", "10.20.0.8:4000");
    let mut snap = StreamSummary {
        ssrc: 0xabc,
        packets: 100,
        lost: 2,
        bytes: 16000,
        loss_pct: double(2.0),
        ..StreamSummary::default()
    };
    snap.call_id = Some("c1".into());
    snap.flow = Some(flow);

    // First 5s snap: 100 pkts / 2 lost.
    reg.import_stream_snap(1_000_000, snap.clone());
    // Second snap of the same stream: cumulative 250 pkts / 5 lost.
    snap.packets = 250;
    snap.lost = 5;
    snap.bytes = 40000;
    reg.import_stream_snap(6_000_000, snap);

    let ip_stats = full(&reg).ip_stats;
    assert_eq!(ip_stats.len(), 2, "both endpoints must appear");
    let src = ip_stats
        .iter()
        .find(|s| s.ip.to_text() == "10.10.0.8")
        .unwrap();
    let dst = ip_stats
        .iter()
        .find(|s| s.ip.to_text() == "10.20.0.8")
        .unwrap();
    assert_eq!(src.pkts_tx, 250);
    assert_eq!(src.lost_tx, 5);
    assert_eq!(dst.pkts_rx, 250);
    assert_eq!(dst.lost_rx, 5);
    let src_loss = pct(src.loss_pct(0, Dir::Tx).unwrap());
    assert!((src_loss - 2.0).abs() < 1e-9, "all-time TX loss {src_loss}");

    // Consecutive snaps of the same stream replace, not accumulate, the row.
    assert_eq!(full(&reg).streams.len(), 1);
    assert_eq!(full(&reg).streams[0].packets, 250);
}

#[test]
fn import_many_stream_snaps_stays_fast() {
    let mut reg = Registry::with_source("replay".into());
    let flow = flow("10.10.0.8:4000", "10.20.0.8:4000");
    let t0 = std::time::Instant::now();
    for i in 0..20_000u64 {
        let mut s = StreamSummary {
            ssrc: (i % 200) as u32,
            packets: 100 + i,
            lost: i / 40,
            bytes: (100 + i) * 160,
            loss_pct: double(1.0),
            ..StreamSummary::default()
        };
        s.call_id = Some("c1".into());
        s.flow = Some(flow);
        reg.import_stream_snap(1_000_000 + i * 5_000_000, s);
    }
    let snap = full(&reg);
    assert!(
        t0.elapsed().as_millis() < 1_000,
        "20k stream snaps must stay O(n), took {:?}",
        t0.elapsed()
    );
    assert_eq!(snap.streams.len(), 200, "upsert keeps one row per ssrc");
    assert_eq!(snap.ip_stats.len(), 2);
    assert!(snap.calls.is_empty()); // snaps don't create calls
}

fn rtp(seq: u16, ssrc: u32) -> RtpHeader {
    RtpHeader {
        version: 2,
        payload_type: 0,
        sequence_number: seq,
        timestamp: u32::from(seq) * 160,
        ssrc,
    }
}

fn stream(call: &str, port: u16, ssrc: u32, packets: u16) -> RtpStream {
    let mut f = flow("10.0.0.1:4000", "10.0.0.2:4000");
    f.src.port = port;
    let mut s = RtpStream::new(f, ssrc, call.into());
    for seq in 0..packets {
        s.observe(1_000 + u64::from(seq), rtp(seq, ssrc), 172, &rescale, &step);
    }
    s
}

#[test]
fn streams_are_found_by_call_and_summed_up() {
    let mut reg = Registry::with_source("t".into());
    reg.get_or_create_call("c1");
    let key = StreamKey {
        flow: stream("c1", 4000, 7, 0).flow,
        ssrc: 7,
    };
    reg.add_stream(stream("c1", 4000, 7, 5));
    assert_eq!(reg.call_stream_keys("c1"), &[key]);
    assert!(reg.call_stream_keys("c2").is_empty());
    if let Some(s) = reg.stream_mut(key) {
        s.observe(9_000, rtp(5, 7), 100, &rescale, &step);
    }
    let snap = full(&reg);
    assert_eq!(snap.streams.len(), 1);
    assert_eq!(snap.streams[0].packets, 6);
    assert_eq!(snap.streams[0].bytes, 5 * 172 + 100);
    assert_eq!(snap.calls[0].stream_count, 1);
    assert_eq!(snap.calls[0].best_mos, Some(double(4.0)));
    assert_eq!(snap.mos.n, 1);
    assert_eq!(value(snap.mos.total), 4.0);
    reg.focus_hint = Some(FocusHint::primary("c1"));
    assert_eq!(full(&reg).focus.unwrap().streams.len(), 1);
}

#[test]
fn a_sample_is_taken_every_five_seconds() {
    let mut s = stream("c1", 4000, 7, 3);
    s.sample(5_000_000, &gauge);
    s.sample(9_999_999, &gauge);
    assert_eq!(s.history.len(), 1);
    assert_eq!(s.history[0].packets, 3);
    s.sample(10_000_000, &gauge);
    assert_eq!(s.history.len(), 2);
    assert_eq!(s.history[1].packets, 0);
    let evt = s.to_snap_evt(11, &gauge);
    assert_eq!(evt.ts_us, 11);
    assert!(evt.stream.history.is_empty());
    assert_eq!(evt.stream.packets, 3);
    s.rtt_samples = vec![double(30.0), double(10.0), double(20.0)];
    let sum = s.summary(&gauge);
    assert_eq!(sum.history.len(), 2);
    assert_eq!(sum.rtt_min_ms, Some(double(10.0)));
    assert_eq!(sum.rtt_max_ms, Some(double(30.0)));
}

#[test]
fn the_oldest_ended_call_goes_first() {
    let mut reg = Registry::with_source("t".into());
    reg.set_caps(2, 10, 10);
    for (id, ts, over) in [("a", 1, false), ("b", 2, true), ("c", 3, true)] {
        let c = reg.get_or_create_call(id);
        c.invite_ts = Some(ts);
        if over {
            c.state = CallState::Completed;
            c.end_ts = Some(ts + 1);
        }
    }
    reg.evict_if_needed();
    assert_eq!(reg.call_count(), 2);
    assert!(!reg.has_call("b"));
    assert_eq!(reg.drain_removed(), vec!["b".to_string()]);
    assert!(reg.drain_removed().is_empty());
}

#[test]
fn the_oldest_streams_go_first() {
    let mut reg = Registry::with_source("t".into());
    reg.set_caps(10, 2, 10);
    for port in 0..4u16 {
        let mut s = stream("c1", 5000 + port, 1, 0);
        s.first_ts_us = Some(u64::from(port));
        reg.add_stream(s);
    }
    reg.evict_if_needed();
    let snap = full(&reg);
    let mut ports: Vec<u16> = snap.streams.iter().map(|s| s.flow.unwrap().src.port).collect();
    ports.sort();
    assert_eq!(ports, vec![5002, 5003]);
    assert_eq!(reg.call_stream_keys("c1").len(), 2);
}

#[test]
fn a_removed_call_takes_its_streams_along() {
    let mut reg = Registry::with_source("t".into());
    for id in ["old", "new"] {
        let c = reg.get_or_create_call(id);
        c.state = CallState::Completed;
        c.last_ts_us = if id == "old" { 1_000 } else { 110_000_000 };
        c.end_ts = Some(c.last_ts_us);
        reg.add_stream(stream(id, if id == "old" { 1 } else { 2 }, 3, 1));
    }
    reg.evict_stale(60, 120_000_000);
    assert!(!reg.has_call("old") && reg.has_call("new"));
    assert_eq!(full(&reg).streams.len(), 1);
    assert!(reg.call_stream_keys("old").is_empty());
    assert_eq!(reg.call_stream_keys("new").len(), 1);
}

#[test]
fn indexes_keep_up_with_streams_that_come_and_go() {
    let mut reg = Registry::with_source("t".into());
    reg.set_caps(10, 2, 10);
    reg.get_or_create_call("c1");
    reg.get_or_create_call("c1");
    reg.get_or_create_call("c2");
    assert_eq!(reg.order, vec!["c1".to_string(), "c2".to_string()]);
    reg.add_stream(stream("c1", 4000, 7, 1));
    reg.add_stream(stream("c1", 4002, 7, 0));
    reg.add_stream(stream("c2", 4004, 8, 0));
    assert_eq!(reg.call_stream_keys("c1").len(), 2);
    assert_eq!(reg.call_stream_keys("c2").len(), 1);
    // One stream too many: the oldest goes, and the index of its call follows.
    reg.evict_if_needed();
    assert_eq!(reg.call_stream_keys("c1").len(), 1);
    assert_eq!(reg.call_stream_keys("c1")[0].flow.src.port, 4002);
    assert_eq!(full(&reg).streams.len(), 2);
    // The call goes with what is left; the other one stays as it was.
    reg.remove_call("c1");
    assert!(reg.call_stream_keys("c1").is_empty());
    assert_eq!(reg.call_stream_keys("c2").len(), 1);
    assert_eq!(full(&reg).streams.len(), 1);
    assert_eq!(reg.order, vec!["c2".to_string()]);
    assert_eq!(reg.drain_removed(), vec!["c1".to_string()]);
    assert!(reg.drain_removed().is_empty());
}

#[test]
fn protected_calls_may_exceed_the_limit() {
    let mut reg = Registry::with_source("t".into());
    reg.set_caps(1, 10, 10);
    for id in ["a", "b", "c"] {
        let c = reg.get_or_create_call(id);
        c.from_user = Some("alice".into());
    }
    reg.set_search_hint(Some("alice"));
    reg.get_or_create_call("d");
    reg.evict_if_needed();
    assert_eq!(reg.call_count(), 3);
    assert!(!reg.has_call("d"));
}

#[test]
fn newer_calls_are_listed_first_within_the_limit() {
    let mut reg = Registry::with_source("t".into());
    for (id, ts) in [("a", 10), ("b", 30), ("c", 20)] {
        reg.get_or_create_call(id).invite_ts = Some(ts);
    }
    let ids: Vec<String> = full(&reg).calls.iter().map(|c| c.call_id.clone()).collect();
    assert_eq!(ids, vec!["b", "c", "a"]);
    let two = reg.snapshot(2, &gauge, &plus);
    assert_eq!(two.calls.len(), 2);
    assert_eq!(two.active, 2);
    assert_eq!(two.calls_total, 3);
}

#[test]
fn a_row_lists_addresses_once() {
    let mut reg = Registry::default();
    let (a, b) = (ip("1.1.1.1"), ip("2.2.2.2"));
    reg.get_or_create_call("c").ips = vec![a, b, a, b];
    assert_eq!(full(&reg).calls[0].ips, vec![a, b]);
}

#[test]
fn a_snapshot_averages_calls_and_tells_the_time() {
    let mut reg = Registry::with_source("s".into());
    reg.touch_time(1_000_000);
    reg.touch_time(3_500_000);
    reg.get_or_create_call("a").pdd_ms = Some(100);
    reg.get_or_create_call("b").pdd_ms = Some(200);
    reg.get_or_create_call("b").setup_ms = Some(7);
    reg.completed = 3;
    reg.failed = 1;
    let snap = full(&reg);
    assert_eq!(snap.source, "s");
    assert_eq!(snap.elapsed_us, Some(2_500_000));
    assert_eq!((snap.pdd_ms.sum, snap.pdd_ms.n), (300, 2));
    assert_eq!((snap.setup_ms.sum, snap.setup_ms.n), (7, 1));
    assert_eq!(snap.asr, Ratio { part: 3, whole: 6 });
    assert_eq!(snap.pps, Ratio { part: 1, whole: 2_500_000 });
    assert!(!snap.paused);
}

#[test]
fn the_start_is_set_once() {
    let mut reg = Registry::default();
    reg.ensure_start(50);
    reg.ensure_start(10);
    assert_eq!(reg.start_us, Some(50));
    reg.touch_time(70);
    assert_eq!(reg.start_us, Some(50));
    assert_eq!(reg.last_us, Some(70));
}

#[test]
fn event_lines_are_kept_up_to_a_limit() {
    let mut reg = Registry::default();
    for i in 0..1_005 {
        reg.push_event(format!("{i}"));
    }
    assert_eq!(reg.events.len(), 1_000);
    assert_eq!(reg.events[0], "5");
    assert_eq!(reg.events[999], "1004");
}

#[test]
fn clearing_forgets_what_was_seen() {
    let mut reg = Registry::with_source("s".into());
    reg.set_caps(5, 6, 7);
    reg.set_bucket(3600);
    reg.get_or_create_call("a");
    reg.touch_time(9);
    reg.push_event("x".into());
    reg.clear();
    assert_eq!(reg.call_count(), 0);
    assert!(reg.events.is_empty() && reg.order.is_empty());
    assert_eq!(reg.start_us, None);
    assert_eq!(reg.source, "s");
    assert_eq!((reg.max_calls, reg.max_streams, reg.max_diagnostics), (5, 6, 7));
    assert_eq!(reg.heatmap.bucket_secs(), 3600);
}

#[test]
fn a_second_import_replaces_the_row() {
    let mut reg = Registry::default();
    reg.set_caps(10, 1, 10);
    let mut s = StreamSummary::default();
    s.ssrc = 1;
    s.packets = 10;
    reg.add_imported_stream(s.clone());
    s.packets = 30;
    reg.add_imported_stream(s.clone());
    // Another stream does not fit any more.
    s.ssrc = 2;
    reg.add_imported_stream(s);
    let snap = full(&reg);
    assert_eq!(snap.streams.len(), 1);
    assert_eq!(snap.streams[0].packets, 30);
}

#[test]
fn the_filter_pins_what_matches_every_rule() {
    let mut reg = Registry::default();
    for (id, from, to) in [("1", "alice", "bob"), ("2", "alice", "carol"), ("3", "dave", "bob")] {
        let c = reg.get_or_create_call(id);
        c.from_user = Some(from.into());
        c.to_user = Some(to.into());
    }
    reg.set_search_hint(Some("  caller:alice callee:bob "));
    assert_eq!(reg.search_hint.as_deref(), Some("caller:alice callee:bob"));
    assert_eq!(reg.search_matches, vec!["1".to_string()]);
    reg.set_search_hint(Some("   "));
    assert_eq!(reg.search_hint, None);
    assert!(reg.search_matches.is_empty());
    reg.set_search_hint(Some("caller:alice"));
    reg.get_or_create_call("4").from_user = Some("Alice".into());
    reg.refresh_search_matches();
    assert_eq!(reg.search_matches.len(), 3);
}

#[test]
fn a_focus_tells_the_software_and_the_findings() {
    let mut reg = Registry::default();
    let mut invite = mk_sip(Some("t1"), "1.1.1.1:5060", "2.2.2.2:5060");
    invite.raw = bytes::Bytes::from_static(
        b"INVITE sip:bob@x SIP/2.0\r\nUser-Agent: Phone/1\r\n\r\n",
    );
    let mut ok = mk_sip(Some("t1"), "2.2.2.2:5060", "1.1.1.1:5060");
    ok.is_request = false;
    ok.method = None;
    ok.status = Some(200);
    ok.ts_us = 5;
    ok.raw = bytes::Bytes::from_static(
        b"SIP/2.0 200 OK\r\nuser-agent: Other\r\nServer: Switch/2\r\n\r\n",
    );
    reg.get_or_create_call("c1").messages = vec![invite, ok];
    for id in ["c1", "c2"] {
        reg.diagnostics.push_back(Diagnostic {
            ts_us: 1,
            call_id: id.into(),
            severity: Severity::Warn,
            code: "X".into(),
            message: "m".into(),
        });
    }
    let f = reg
        .focus_detail(&FocusHint::primary("c1"), &gauge)
        .unwrap();
    assert_eq!(f.caller_ua.as_deref(), Some("Phone/1"));
    assert_eq!(f.callee_ua.as_deref(), Some("Switch/2"));
    assert_eq!(f.caller_addr, Some(sock("1.1.1.1:5060")));
    assert_eq!(f.callee_addr, Some(sock("2.2.2.2:5060")));
    assert_eq!(f.diagnostics.len(), 1);
    assert!(reg
        .focus_detail(&FocusHint::primary("none"), &gauge)
        .is_none());
    assert_eq!(reg.call_messages("c1").unwrap().len(), 2);
    assert!(reg.call_messages("c2").is_none());
}

#[test]
fn legs_merge_in_the_order_of_time() {
    let at = |ts: u64| {
        let mut m = mk_sip(None, "1.1.1.1:1", "2.2.2.2:2");
        m.ts_us = ts;
        m
    };
    let (msgs, legs, n) = merge_leg_msgs(vec![at(1), at(5)], vec![at(5), at(7)]);
    let times: Vec<u64> = msgs.iter().map(|m| m.ts_us).collect();
    assert_eq!(times, vec![1, 5, 5, 7]);
    assert_eq!(legs, vec![0, 0, 1, 1]);
    assert_eq!(n, 2);
    assert_eq!(trim_msgs(&msgs).len(), 4);
}

#[test]
fn two_shared_addresses_are_ambiguous() {
    let msgs = vec![
        mk_sip(Some("t1"), "1.1.1.1:1", "2.2.2.2:2"),
        mk_sip(Some("t2"), "2.2.2.2:2", "1.1.1.1:1"),
    ];
    let (legs, _) = dialog_legs(&msgs);
    assert_eq!(common_flow_ip(&msgs, &legs), None);
    // The same shared address in several messages is still one address.
    let msgs = vec![
        mk_sip(Some("t1"), "1.1.1.1:1", "2.2.2.2:2"),
        mk_sip(Some("t1"), "2.2.2.2:2", "1.1.1.1:1"),
        mk_sip(Some("t2"), "2.2.2.2:2", "3.3.3.3:3"),
    ];
    let (legs, _) = dialog_legs(&msgs);
    assert_eq!(common_flow_ip(&msgs, &legs), Some(ip("2.2.2.2")));
}

#[test]
fn heatmap_cells_add_up_by_slice_and_key() {
    let mut h = Heatmap::new(900);
    let call = |answered: bool, pdd: Option<f64>| CallMetrics {
        answered,
        failed: !answered,
        pdd_ms: pdd.map(double),
        jitter_ms: None,
        loss_pct: None,
        rtt_ms: None,
        mos: None,
    };
    h.record_call(1_000_000, "a".into(), call(true, Some(10.0)), &plus);
    h.record_call(899_000_000, "a".into(), call(false, Some(30.0)), &plus);
    h.record_call(900_000_000, "a".into(), call(true, None), &plus);
    h.record_call(900_000_000, "b".into(), call(true, None), &plus);
    assert_eq!(h.cell_count(), 3);
    assert_eq!(h.bucket_secs(), 900);
    let flat = h.flat();
    assert_eq!(flat.len(), 3);
    assert_eq!(flat[0].0, 0);
    assert_eq!(flat[0].2.calls, 2);
    assert_eq!(flat[0].2.answered, 1);
    assert_eq!(flat[0].2.failed, 1);
    assert_eq!(value(flat[0].2.pdd_ms.total), 40.0);
    assert_eq!(flat[0].2.pdd_ms.n, 2);
    assert_eq!(flat[1].0, 900_000_000);
    // A slice goes once it is over.
    h.prune_older_than(899_999_999);
    assert_eq!(h.cell_count(), 3);
    h.prune_older_than(900_000_000);
    assert_eq!(h.cell_count(), 2);
}

#[test]
fn old_heatmap_slices_are_pruned() {
    let mut reg = Registry::default();
    reg.heatmap_retain_us = 1_000_000_000;
    let m = CallMetrics {
        answered: true,
        failed: false,
        pdd_ms: None,
        jitter_ms: None,
        loss_pct: None,
        rtt_ms: None,
        mos: None,
    };
    reg.heatmap.record_call(0, "k".into(), m, &plus);
    reg.heatmap.record_call(2_000_000_000, "k".into(), m, &plus);
    reg.touch_time(2_000_000_000);
    reg.prune_heatmap();
    let snap = full(&reg);
    assert_eq!(snap.buckets.len(), 1);
    assert_eq!(snap.buckets[0].0, 1_800_000_000);
}

#[test]
fn a_stream_without_a_place_is_counted_once() {
    let mut reg = Registry::with_source("replay".into());
    reg.set_caps(10, 0, 10);
    let mut s = StreamSummary {
        ssrc: 9,
        packets: 100,
        lost: 1,
        bytes: 1_000,
        ..StreamSummary::default()
    };
    s.flow = Some(flow("10.10.0.8:4000", "10.20.0.8:4000"));
    reg.import_stream_snap(1_000_000, s.clone());
    s.packets = 250;
    s.lost = 4;
    s.bytes = 2_500;
    reg.import_stream_snap(6_000_000, s);
    let snap = full(&reg);
    assert!(snap.streams.is_empty());
    assert_eq!(snap.ip_stats.len(), 2);
    assert_eq!(snap.ip_stats[0].pkts_tx, 250);
    assert_eq!(snap.ip_stats[0].lost_tx, 4);
    assert_eq!(snap.ip_stats[0].bytes_tx, 2_500);
    assert_eq!(snap.ip_stats[1].pkts_rx, 250);
}

#[test]
fn eviction_takes_ended_calls_and_then_old_ones() {
    let mut reg = Registry::with_source("t".into());
    for (id, at, done) in [
        ("old", 1_000, false),
        ("done-late", 4_000, true),
        ("done-early", 3_000, true),
        ("new", 5_000, false),
    ] {
        let c = reg.get_or_create_call(id);
        c.invite_ts = Some(at);
        c.last_ts_us = at;
        if done {
            c.state = CallState::Completed;
        }
    }
    for (limit, left) in [
        (3, vec!["old", "done-late", "new"]),
        (2, vec!["old", "new"]),
        (1, vec!["new"]),
    ] {
        reg.set_caps(limit, 10, 10);
        reg.evict_if_needed();
        assert_eq!(reg.order, left);
    }
}

#[test]
fn a_snapshot_lists_the_newest_calls_and_the_pinned_one() {
    let mut reg = Registry::with_source("t".into());
    for i in 0..6u64 {
        let c = reg.get_or_create_call(&format!("c{i}"));
        c.invite_ts = Some(1_000 * (i + 1));
        c.last_ts_us = 1_000 * (i + 1);
    }
    reg.set_search_hint(Some("callid:c1"));
    let snap = reg.snapshot(2, &gauge, &plus);
    let ids: Vec<&str> = snap.calls.iter().map(|c| c.call_id.as_str()).collect();
    assert_eq!(ids, vec!["c5", "c4", "c1"]);
    assert_eq!(snap.calls_total, 6);
}

#[test]
fn a_record_tells_what_the_summary_tells() {
    let mut s = stream("c1", 4000, 7, 9);
    s.sample(5_000_000, &gauge);
    s.rtt_samples = vec![double(3.0), double(1.0)];
    let q = Quality {
        loss_pct: double(1.5),
        jitter_ms: Some(double(2.5)),
        rtt_avg_ms: Some(double(2.0)),
        oneway_ms: Some(double(1.0)),
        mos: Some(double(4.1)),
    };
    let (e, m) = (s.record_with(8, q), s.summary_with(q));
    assert_eq!(e.ts_us, 8);
    assert_eq!(e.stream.call_id, m.call_id);
    assert_eq!(e.stream.flow, m.flow);
    assert_eq!((e.stream.packets, e.stream.lost), (m.packets, m.lost));
    assert_eq!(e.stream.loss_pct, m.loss_pct);
    assert_eq!(e.stream.mos, Some(double(4.1)));
    assert_eq!(e.stream.rtt_min_ms, m.rtt_min_ms);
    assert_eq!(m.history.len(), 1);
    assert!(e.stream.history.is_empty());
}

#[test]
fn a_look_needs_only_the_streams_of_its_call() {
    let mut reg = Registry::with_source("t".into());
    reg.get_or_create_call("c1");
    reg.add_stream(stream("c1", 4000, 7, 5));
    let mut other = stream("c2", 4002, 8, 5);
    other.acc.lost_packets = u64::MAX;
    reg.add_stream(other);
    let f = reg.focus_detail(&FocusHint::primary("c1"), &gauge).unwrap();
    assert_eq!(f.call_id, "c1");
    assert_eq!(f.legs.len(), f.messages.len());
    assert_eq!(f.streams.len(), 1);
    assert!(reg.focus_detail(&FocusHint::primary("c3"), &gauge).is_none());
}
