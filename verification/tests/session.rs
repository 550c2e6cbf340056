use sipmon::addr::{Flow5Tuple, IpAddr, Proto, SocketAddr};
use sipmon::double::Double;
use sipmon::model::diag::Severity;
use sipmon::model::media::StreamSummary;
use sipmon::model::sip::{CallState, Method, SipMsg};
use sipmon::model::stats::MetricSet;
use sipmon::analyze::media_stats::MediaStats;
use sipmon::analyze::mos::CodecParams;
use sipmon::correlate::stream::Quality;
use sipmon::session::config::{
    build_config, bucket_secs, file_kind, take_evlog, want_tui, Config, FileKind, Options,
};
use sipmon::session::export::{in_range, Extras};
use sipmon::session::ingest::ingest_sip;
use sipmon::session::pace::{
    capture_report, newly_dropped, Deed, Event, Pace, Report, Wants, Work,
};
use sipmon::session::publish::{publish, HALF};
use sipmon::session::query::{message_label, Tally};
use sipmon::session::replay::{replay_apply, Finding, HealthBucket, Onward, Record, RttSample};
use sipmon::session::view::{build_jsonl_focus, publish_jsonl};
use sipmon::store::registry::{FocusHint, Registry};
use sipmon::store::snapshot::Snapshot;

fn double(x: f64) -> Double {
    Double { bits: x.to_bits() }
}

fn plus(a: Double, b: Double) -> Double {
    double(f64::from_bits(a.bits) + f64::from_bits(b.bits))
}

fn percent(d: Double) -> String {
    format!("{:.1}", f64::from_bits(d.bits))
}

fn gauge(_st: MediaStats, _codec: CodecParams, _rtt: &Vec<Double>, _oneway: &Vec<Double>) -> Quality {
    Quality {
        loss_pct: double(0.0),
        jitter_ms: None,
        rtt_avg_ms: None,
        oneway_ms: None,
        mos: None,
    }
}

fn nothing() -> Wants {
    Wants {
        focus: None,
        search: None,
    }
}

fn look(id: &str) -> Wants {
    Wants {
        focus: Some(FocusHint::primary(id)),
        search: None,
    }
}

fn turn(quit: bool, paused: bool, cleared: bool, now: Wants) -> Event {
    Event::Turn {
        signalled: false,
        quit,
        paused,
        cleared,
        now,
    }
}

fn finding(call: &str, severity: u8) -> Finding {
    Finding {
        ts_us: 9,
        call_id: call.into(),
        severity,
        code: "ONE_WAY".into(),
        message: "no media".into(),
    }
}

fn stream(call: Option<&str>, lost: u64) -> StreamSummary {
    let mut s = StreamSummary::default();
    s.call_id = call.map(str::to_owned);
    s.ssrc = 0xabc;
    s.packets = 20;
    s.lost = lost;
    s.loss_pct = double(12.34);
    s
}

#[test]
fn files_are_told_by_their_extension() {
    assert_eq!(file_kind("pcap"), Some(FileKind::Capture));
    assert_eq!(file_kind("PcapNG"), Some(FileKind::Capture));
    assert_eq!(file_kind("evlog"), Some(FileKind::EventLog));
    assert_eq!(file_kind("JSONL"), Some(FileKind::Export));
    assert_eq!(file_kind("txt"), None);
    assert_eq!(file_kind(""), None);
}

#[test]
fn an_event_log_is_named_by_argument_or_option() {
    assert_eq!(take_evlog(Some("a".into()), Some("b".into())).as_deref(), Some("a"));
    assert_eq!(take_evlog(None, Some("b".into())).as_deref(), Some("b"));
    assert_eq!(take_evlog(None, None), None);
    assert!(want_tui(false, true));
    assert!(!want_tui(true, true) && !want_tui(false, false));
}

fn options() -> Options {
    Options {
        dry_run: false,
        max_calls: 1,
        call_ttl_mins: 15,
        max_streams: 2,
        max_diagnostics: 3,
        diag_level: "warn".into(),
        turn_servers: Vec::new(),
        local_ips: Vec::new(),
        raw_truncate: Some(4),
        bucket: "1h".into(),
        evlog: Some("log".into()),
        export_jsonl: None,
    }
}

#[test]
fn options_make_a_configuration() {
    let c: Config = build_config(options());
    assert_eq!(c.call_ttl_secs, 900);
    assert_eq!(c.bucket_secs, 3600);
    assert_eq!((c.max_calls, c.max_streams, c.max_diagnostics), (1, 2, 3));
    assert_eq!(c.log_path().as_deref(), Some("log"));
    assert!(c.keep_terminated && !c.no_media);
    let c = c.offline();
    assert_eq!(c.call_ttl_secs, 0);
    let c = c.live(Some("udp".into()), true);
    assert_eq!(c.bpf.as_deref(), Some("udp"));
    assert!(c.no_media);
    let mut o = options();
    o.call_ttl_mins = u64::MAX;
    assert_eq!(build_config(o).call_ttl_secs, u64::MAX);
    assert_eq!(bucket_secs("1d"), 86_400);
    assert_eq!(bucket_secs("15m"), 900);
    assert_eq!(bucket_secs("whatever"), 900);
}

#[test]
fn a_dry_run_writes_no_log_but_a_recording_does() {
    let mut o = options();
    o.dry_run = true;
    let c = build_config(o);
    assert_eq!(c.log_path(), None);
    let c = c.recording("rec".into());
    assert_eq!(c.log_path().as_deref(), Some("rec"));
    assert!(c.displayed(true, true).keep_terminated);
    let c = build_config(options());
    assert!(!c.displayed(false, true).keep_terminated);
    let c = build_config(options());
    assert!(c.displayed(false, false).keep_terminated);
}

#[test]
fn a_capture_without_a_display_runs_to_its_end() {
    let mut p = Pace::new(Work::Capture { print: true }, false);
    assert_eq!(p.step(turn(false, false, false, nothing())), vec![Deed::Take]);
    assert_eq!(
        p.step(Event::Taken),
        vec![Deed::Drain { print: true }, Deed::Tick]
    );
    let tick = |ms| Event::Ticked {
        elapsed_ms: ms,
        pkts: 1,
        now: nothing(),
    };
    assert!(p.step(tick(999)).is_empty());
    assert_eq!(
        p.step(tick(1_000)),
        vec![Deed::CountDrops, Deed::FlushLog, Deed::Rearm]
    );
    let end = [
        Deed::Drain { print: false },
        Deed::FlushLog,
        Deed::Publish { full: true },
    ];
    let mut twice = end.to_vec();
    twice.extend_from_slice(&end);
    twice.push(Deed::Stop);
    assert_eq!(p.step(Event::Dry { now: nothing() }), twice);
}

#[test]
fn a_display_gets_what_is_new() {
    let mut p = Pace::new(Work::Capture { print: false }, true);
    let tick = |pkts, now| Event::Ticked {
        elapsed_ms: 100,
        pkts,
        now,
    };
    let rest = [Deed::CountDrops, Deed::FlushLog, Deed::Rearm];
    let mut shown = vec![Deed::Publish { full: false }];
    shown.extend_from_slice(&rest);
    assert_eq!(p.step(tick(0, nothing())), shown);
    assert_eq!(p.step(tick(0, nothing())), rest.to_vec());
    assert_eq!(p.step(tick(1, nothing())), shown);
    assert_eq!(p.step(tick(1, look("c"))), shown);
    assert_eq!(p.step(tick(1, look("c"))), rest.to_vec());
    let filtered = Wants {
        focus: Some(FocusHint::primary("c")),
        search: Some("x".into()),
    };
    assert_eq!(p.step(tick(1, filtered)), shown);
}

#[test]
fn after_the_end_a_display_gets_other_looks() {
    let mut p = Pace::new(Work::Replay, true);
    assert_eq!(
        p.step(Event::Dry { now: nothing() }),
        vec![
            Deed::Publish { full: true },
            Deed::Publish { full: true },
            Deed::Wait
        ]
    );
    assert_eq!(p.step(Event::Dry { now: nothing() }), vec![Deed::Wait]);
    assert_eq!(
        p.step(Event::Dry { now: look("c") }),
        vec![Deed::Publish { full: true }, Deed::Wait]
    );
    assert_eq!(
        p.step(turn(true, true, false, nothing())),
        vec![Deed::Publish { full: true }, Deed::Stop]
    );
}

#[test]
fn a_turn_heeds_pause_clear_and_signals() {
    let mut p = Pace::new(Work::Capture { print: false }, true);
    assert_eq!(p.step(turn(false, true, true, nothing())), vec![Deed::Wait]);
    assert_eq!(
        p.step(turn(false, false, true, nothing())),
        vec![Deed::Clear, Deed::Publish { full: false }, Deed::Take]
    );
    let signal = || Event::Turn {
        signalled: true,
        quit: false,
        paused: false,
        cleared: false,
        now: nothing(),
    };
    assert_eq!(p.step(signal()).last(), Some(&Deed::Stop));
    let mut r = Pace::new(Work::Replay, true);
    assert_eq!(r.step(signal()), vec![Deed::Take]);
    assert_eq!(r.step(Event::Taken), vec![Deed::Tick]);
    assert_eq!(
        r.step(Event::Ticked {
            elapsed_ms: 200,
            pkts: 0,
            now: nothing()
        }),
        vec![Deed::Refresh, Deed::Publish { full: false }, Deed::Rearm]
    );
}

#[test]
fn a_view_shows_one_call_after_another() {
    let mut p = Pace::new(Work::View, true);
    let show = vec![Deed::Publish { full: true }, Deed::Wait];
    assert_eq!(p.step(turn(false, false, false, nothing())), show);
    assert_eq!(p.step(turn(false, false, false, nothing())), vec![Deed::Wait]);
    assert_eq!(p.step(turn(false, false, false, look("a"))), show);
    assert_eq!(
        p.step(turn(false, false, true, look("a"))),
        vec![Deed::Clear, Deed::Wait]
    );
    assert_eq!(p.step(turn(true, false, false, nothing())), vec![Deed::Stop]);
}

#[test]
fn reports_and_drops() {
    assert_eq!(
        capture_report(true, false, false),
        Report {
            calls: false,
            stats: true
        }
    );
    assert_eq!(
        capture_report(false, false, false),
        Report {
            calls: true,
            stats: false
        }
    );
    assert_eq!(
        capture_report(false, true, false),
        Report {
            calls: false,
            stats: false
        }
    );
    assert_eq!(newly_dropped(3, Some(5)), Some(5));
    assert_eq!(newly_dropped(5, Some(5)), None);
    assert_eq!(newly_dropped(5, None), None);
}

#[test]
fn a_replayed_stream_with_losses_leaves_a_line() {
    let mut reg = Registry::default();
    let r = replay_apply(&mut reg, 7, Record::Stream(stream(Some("c1"), 3)), &percent);
    assert!(matches!(r, Onward::Stream(s) if s.packets == 20 && s.lost == 3));
    assert_eq!(
        reg.events.back().map(String::as_str),
        Some("stream c1 ssrc=0xabc pkts=20 loss=12.3%")
    );
    assert_eq!(reg.last_us, Some(7));
    replay_apply(&mut reg, 8, Record::Stream(stream(None, 0)), &percent);
    assert_eq!(reg.events.len(), 1);
    assert_eq!(reg.snapshot_full(&gauge, &plus).streams.len(), 2);
}

#[test]
fn a_replayed_finding_is_kept_and_counted() {
    let mut reg = Registry::default();
    reg.set_caps(10, 10, 2);
    reg.get_or_create_call("c1");
    for severity in [0, 1, 2, 200] {
        replay_apply(&mut reg, 1, Record::Finding(finding("c1", severity)), &percent);
    }
    replay_apply(&mut reg, 1, Record::Finding(finding("c2", 1)), &percent);
    let c = reg.get_or_create_call("c1");
    assert_eq!((c.warn_count, c.critical_count), (1, 2));
    assert_eq!(reg.diagnostics.len(), 2);
    assert_eq!(reg.diagnostics[0].severity, Severity::Critical);
    assert_eq!(reg.diagnostics[1].call_id, "c2");
    assert_eq!(reg.events[0], "[0] ONE_WAY no media");
    assert_eq!(reg.events.len(), 5);
}

#[test]
fn a_query_counts_what_is_about_the_call() {
    let rtt = |call: &str| {
        Record::Rtt(RttSample {
            call_id: call.into(),
            ssrc: 1,
            rtt_ms: double(1.0),
            oneway_ms: None,
        })
    };
    let mut t = Tally::new();
    assert!(t.take(&Record::Stream(stream(Some("c"), 0)), "c"));
    assert!(!t.take(&Record::Stream(stream(None, 0)), "c"));
    assert!(t.take(&rtt("c"), "c"));
    assert!(!t.take(&rtt("d"), "c"));
    assert!(t.take(&Record::Finding(finding("c", 1)), "c"));
    assert!(!t.take(&Record::Other, "c"));
    assert_eq!(
        t,
        Tally {
            found: 0,
            streams: 1,
            rtts: 1
        }
    );
    assert_eq!(message_label(true, Some("INVITE"), Some(9)), "INVITE");
    assert_eq!(message_label(true, None, None), "");
    assert_eq!(message_label(false, Some("INVITE"), Some(180)), "180");
    assert_eq!(message_label(false, None, None), "");
}

#[test]
fn an_export_takes_records_of_a_range() {
    assert!(in_range(5_000_000, Some(5), Some(5)));
    assert!(!in_range(4_999_999, Some(5), None));
    assert!(!in_range(5_000_001, None, Some(5)));
    assert!(in_range(u64::MAX, None, Some(u64::MAX)));
    let mut e = Extras::new();
    let cell = |us| {
        Record::Bucket(HealthBucket {
            bucket_us: us,
            key: "k".into(),
            metrics: MetricSet::none(),
        })
    };
    for ts in [1_000_000, 9_000_000] {
        assert!(e.gather(ts, Record::Stream(stream(None, 0)), Some(5), None).is_none());
        assert!(e.gather(ts, Record::Finding(finding("c", 1)), Some(5), None).is_none());
        assert!(e.gather(ts, cell(ts), Some(5), None).is_none());
    }
    let mut snap = Snapshot::default();
    e.add_to(&mut snap);
    assert_eq!(snap.streams.len(), 1);
    assert_eq!(snap.diagnostics.len(), 1);
    assert_eq!(snap.diagnostics[0].severity, Severity::Warn);
    assert_eq!(snap.buckets.len(), 1);
    assert_eq!(snap.buckets[0].0, 9_000_000);
}

#[test]
fn an_export_is_viewed_call_by_call() {
    let mut reg = Registry::with_source("s".into());
    reg.get_or_create_call("a").from_user = Some("alice".into());
    reg.get_or_create_call("b").pdd_ms = Some(5);
    replay_apply(&mut reg, 1, Record::Finding(finding("b", 1)), &percent);
    let mut snap = reg.snapshot_full(&gauge, &plus);
    let f = build_jsonl_focus(&snap, "a").unwrap();
    assert_eq!(f.from_user.as_deref(), Some("alice"));
    assert!(f.diagnostics.is_empty() && f.messages.is_empty());
    assert!(build_jsonl_focus(&snap, "c").is_none());
    publish_jsonl(&mut snap, Some(&FocusHint::primary("b")));
    let f = snap.focus.as_ref().unwrap();
    assert_eq!(f.pdd_ms, Some(5));
    assert_eq!(f.diagnostics.len(), 1);
    publish_jsonl(&mut snap, None);
    assert!(snap.focus.is_none());
    assert_eq!(snap.calls.len(), 2);
}

#[test]
fn what_is_published_is_what_is_looked_at() {
    let mut reg = Registry::default();
    for i in 0..600 {
        reg.get_or_create_call(&format!("call-{i}"));
    }
    let now = Wants {
        focus: Some(FocusHint::primary("call-3")),
        search: Some("callid:call-5".into()),
    };
    let snap = publish(&mut reg, now, false, &gauge, &plus);
    assert_eq!(snap.focus.unwrap().call_id, "call-3");
    assert!(snap.calls.iter().any(|c| c.call_id == "call-5"));
    assert_eq!(reg.search_hint.as_deref(), Some("callid:call-5"));
    let snap = publish(&mut reg, nothing(), true, &gauge, &plus);
    assert!(snap.focus.is_none());
    assert_eq!(snap.calls.len(), 600);
    assert_eq!(reg.search_hint, None);
}

fn message(ts_us: u64, call_id: &str, status: Option<u16>) -> SipMsg {
    let at = |n| SocketAddr {
        ip: IpAddr::V4(n),
        port: 5060,
    };
    SipMsg {
        ts_us,
        flow: Flow5Tuple {
            proto: Proto::Udp,
            src: at(1),
            dst: at(2),
        },
        is_request: status.is_none(),
        method: if status.is_none() {
            Some(Method::Invite)
        } else {
            None
        },
        status,
        call_id: call_id.into(),
        cseq: Some(1),
        cseq_method: Some("INVITE".into()),
        branch: None,
        from_tag: None,
        to_tag: None,
        from_uri: None,
        to_uri: None,
        raw: bytes::Bytes::from_static(b"raw"),
        contact_addr: None,
        route_count: 0,
        record_route_count: 0,
        has_sdp: false,
    }
}

#[test]
fn messages_are_sorted_into_calls() {
    let mut reg = Registry::default();
    assert!(ingest_sip(&mut reg, message(1_000_000, "a", None)));
    assert!(ingest_sip(&mut reg, message(1_200_000, "b", None)));
    assert!(ingest_sip(&mut reg, message(1_300_000, "a", Some(180))));
    assert_eq!(reg.call_count(), 2);
    assert_eq!(reg.order, vec!["a".to_string(), "b".to_string()]);
    assert_eq!(reg.pkts_total, 3);
    let a = reg.get_or_create_call("a");
    assert_eq!(a.state, CallState::Ringing);
    assert_eq!(a.pdd_ms, Some(300));
    assert_eq!(a.messages.len(), 2);
    assert_eq!(a.bytes, 6);
    // An answer from before its INVITE is refused and changes nothing.
    assert!(!ingest_sip(&mut reg, message(900_000, "b", Some(200))));
    assert_eq!(reg.pkts_total, 3);
    assert_eq!(reg.get_or_create_call("b").state, CallState::Dialing);
    reg.remove_call("a");
    assert!(!reg.has_call("a"));
}

#[test]
fn a_replayed_message_is_handed_back() {
    let mut reg = Registry::default();
    let m = replay_apply(&mut reg, 5, Record::Message(message(5, "a", None)), &percent);
    assert!(matches!(m, Onward::Message(m) if m.call_id == "a"));
    assert_eq!(reg.call_count(), 0);
    let mut t = Tally::new();
    assert!(t.take(&Record::Message(message(5, "a", None)), "a"));
    assert_eq!(t.found, 1);
    let mut e = Extras::new();
    let r = e.gather(5_000_000, Record::Message(message(5, "a", None)), None, Some(4));
    assert!(r.is_none());
    let r = e.gather(5_000_000, Record::Message(message(5, "a", None)), None, Some(5));
    assert!(r.is_some());
}

#[test]
fn a_replayed_round_trip_time_is_handed_back() {
    let mut reg = Registry::default();
    let sample = RttSample {
        call_id: "c".into(),
        ssrc: 4,
        rtt_ms: double(31.5),
        oneway_ms: None,
    };
    let r = replay_apply(&mut reg, 5, Record::Rtt(sample), &percent);
    assert!(matches!(r, Onward::Rtt(t) if t.ssrc == 4 && t.rtt_ms == double(31.5)));
    let cell = HealthBucket {
        bucket_us: 1,
        key: "k".into(),
        metrics: MetricSet::none(),
    };
    let r = replay_apply(&mut reg, 5, Record::Bucket(cell), &percent);
    assert!(matches!(r, Onward::Nothing));
    let r = replay_apply(&mut reg, 5, Record::Finding(finding("c", 1)), &percent);
    assert!(matches!(r, Onward::Nothing));
    assert!(matches!(
        replay_apply(&mut reg, 5, Record::Other, &percent),
        Onward::Nothing
    ));
}

#[test]
fn a_registry_with_room_can_be_published() {
    let mut reg = Registry::default();
    assert!(reg.leaves_room());
    reg.get_or_create_call("c1").pkts_rtp = HALF;
    reg.import_stream_snap(7, stream(Some("c1"), 3));
    assert!(reg.leaves_room());
    let snap = publish(&mut reg, nothing(), true, &gauge, &plus);
    assert_eq!(snap.calls[0].pkts_rtp, HALF + 20);
    reg.get_or_create_call("c1").pkts_rtp = HALF + 1;
    assert!(!reg.leaves_room());
    reg.clear();
    assert!(reg.leaves_room());
    let mut s = stream(None, 0);
    s.packets = HALF;
    reg.add_imported_stream(s.clone());
    assert!(reg.leaves_room());
    s.ssrc = 5;
    reg.add_imported_stream(s);
    assert!(!reg.leaves_room());
}
