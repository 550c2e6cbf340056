use bytes::Bytes;
use sipmon::addr::{Flow5Tuple, IpAddr, Proto, SocketAddr};
use sipmon::correlate::call::apply_sip;
use sipmon::model::sip::{Call, CallState, HangupBy, Method, Outcome, SipMsg};

fn sock(s: &str) -> SocketAddr {
    let (ip, port) = s.split_once(':').unwrap();
    let mut n: u32 = 0;
    for part in ip.split('.') {
        n = n * 256 + part.parse::<u32>().unwrap();
    }
    SocketAddr {
        ip: IpAddr::V4(n),
        port: port.parse().unwrap(),
    }
}

fn mk(
    ts: u64,
    is_req: bool,
    method: Option<Method>,
    status: Option<u16>,
    to_tag: Option<&str>,
) -> SipMsg {
    SipMsg {
        ts_us: ts,
        flow: Flow5Tuple {
            proto: Proto::Udp,
            src: sock("1.1.1.1:5060"),
            dst: sock("2.2.2.2:5060"),
        },
        is_request: is_req,
        method,
        status,
        call_id: "c1".into(),
        cseq: Some(1),
        cseq_method: Some("INVITE".into()),
        branch: Some("b".into()),
        from_tag: Some("f".into()),
        to_tag: to_tag.map(str::to_owned),
        from_uri: Some("<sip:alice@1.1.1.1>".into()),
        to_uri: Some("<sip:bob@2.2.2.2>".into()),
        raw: Bytes::new(),
        contact_addr: None,
        route_count: 0,
        record_route_count: 0,
        has_sdp: false,
    }
}

#[test]
fn happy_path_state_machine() {
    let mut call = Call::new("c1".into());
    apply_sip(
        &mut call,
        &mk(1_000_000, true, Some(Method::Invite), None, None),
    );
    apply_sip(&mut call, &mk(1_100_000, false, None, Some(180), None));
    assert_eq!(call.state, CallState::Ringing);
    assert_eq!(call.pdd_ms, Some(100));
    assert_eq!(call.ring_code, Some(180));
    apply_sip(&mut call, &mk(1_500_000, false, None, Some(200), None));
    assert_eq!(call.state, CallState::Active);
    assert_eq!(call.setup_ms, Some(500));
    assert_eq!(call.ring_ms, Some(400));
    let mut bye = mk(3_000_000, true, Some(Method::Bye), None, Some("x"));
    bye.cseq_method = Some("BYE".into());
    apply_sip(&mut call, &bye);
    let mut bye_ok = mk(3_010_000, false, None, Some(200), Some("x"));
    bye_ok.cseq_method = Some("BYE".into());
    apply_sip(&mut call, &bye_ok);
    assert_eq!(call.state, CallState::Completed);
    assert_eq!(call.outcome, Outcome::Answered);
}

#[test]
fn pdd_measured_at_first_provisional() {
    // 100 Trying arrives first → PDD is INV→100, not INV→180.
    let mut call = Call::new("c1".into());
    apply_sip(
        &mut call,
        &mk(1_000_000, true, Some(Method::Invite), None, None),
    );
    apply_sip(&mut call, &mk(1_050_000, false, None, Some(100), None));
    assert_eq!(call.trying_ts, Some(1_050_000));
    assert_eq!(call.pdd_ms, Some(50));
    apply_sip(&mut call, &mk(1_200_000, false, None, Some(180), None));
    assert_eq!(call.pdd_ms, Some(50), "PDD must not move to the 180 time");
    assert_eq!(call.ringing_ts, Some(1_200_000));
    assert_eq!(call.ring_code, Some(180));

    // 180 without a prior 100 → PDD is INV→180.
    let mut call2 = Call::new("c2".into());
    apply_sip(
        &mut call2,
        &mk(1_000_000, true, Some(Method::Invite), None, None),
    );
    apply_sip(&mut call2, &mk(1_150_000, false, None, Some(180), None));
    assert_eq!(call2.pdd_ms, Some(150));
}

#[test]
fn ring_code_183_and_ring_ms() {
    let mut call = Call::new("c1".into());
    apply_sip(
        &mut call,
        &mk(1_000_000, true, Some(Method::Invite), None, None),
    );
    apply_sip(&mut call, &mk(1_100_000, false, None, Some(183), None));
    assert_eq!(call.state, CallState::Ringing);
    assert_eq!(call.ring_code, Some(183));
    apply_sip(&mut call, &mk(1_600_000, false, None, Some(200), None));
    assert_eq!(call.ring_ms, Some(500));
}

#[test]
fn early_media_only_when_183_carries_sdp() {
    // 183 Session Progress with an SDP body = early media.
    let mut call = Call::new("c1".into());
    apply_sip(
        &mut call,
        &mk(1_000_000, true, Some(Method::Invite), None, None),
    );
    let mut m183 = mk(1_100_000, false, None, Some(183), None);
    m183.has_sdp = true;
    apply_sip(&mut call, &m183);
    assert!(call.early_media, "183+SDP must set early media");
    assert_eq!(call.ring_code, Some(183));

    // Plain 183 without media, and 180, must not.
    let mut call2 = Call::new("c2".into());
    apply_sip(
        &mut call2,
        &mk(1_000_000, true, Some(Method::Invite), None, None),
    );
    apply_sip(&mut call2, &mk(1_100_000, false, None, Some(183), None));
    assert!(!call2.early_media, "183 without SDP is not early media");
    let mut call3 = Call::new("c3".into());
    apply_sip(
        &mut call3,
        &mk(1_000_000, true, Some(Method::Invite), None, None),
    );
    apply_sip(&mut call3, &mk(1_100_000, false, None, Some(180), None));
    assert!(!call3.early_media, "180 is not early media");
}

#[test]
fn hangup_initiator_detection() {
    // Caller sends the BYE.
    let mut call = Call::new("c1".into());
    apply_sip(
        &mut call,
        &mk(1_000_000, true, Some(Method::Invite), None, None),
    );
    apply_sip(&mut call, &mk(1_100_000, false, None, Some(180), None));
    apply_sip(&mut call, &mk(1_500_000, false, None, Some(200), None));
    let mut bye = mk(3_000_000, true, Some(Method::Bye), None, Some("x"));
    bye.cseq_method = Some("BYE".into());
    // BYE source = caller IP (1.1.1.1, the INVITE src).
    apply_sip(&mut call, &bye);
    assert_eq!(call.hangup_by, Some(HangupBy::Caller));

    // Callee sends the BYE (source differs from the INVITE src).
    let mut call2 = Call::new("c1".into());
    apply_sip(
        &mut call2,
        &mk(1_000_000, true, Some(Method::Invite), None, None),
    );
    apply_sip(&mut call2, &mk(1_100_000, false, None, Some(180), None));
    apply_sip(&mut call2, &mk(1_500_000, false, None, Some(200), None));
    let mut bye2 = mk(3_000_000, true, Some(Method::Bye), None, Some("x"));
    bye2.cseq_method = Some("BYE".into());
    bye2.flow.src = sock("2.2.2.2:5060"); // callee side
    apply_sip(&mut call2, &bye2);
    assert_eq!(call2.hangup_by, Some(HangupBy::Callee));

    // Cancel from the caller.
    let mut call3 = Call::new("c1".into());
    apply_sip(
        &mut call3,
        &mk(1_000_000, true, Some(Method::Invite), None, None),
    );
    apply_sip(&mut call3, &mk(1_100_000, false, None, Some(180), None));
    apply_sip(
        &mut call3,
        &mk(2_000_000, true, Some(Method::Cancel), None, None),
    );
    assert_eq!(call3.state, CallState::Canceled);
    assert_eq!(call3.hangup_by, Some(HangupBy::Caller));

    // Reject from the callee.
    let mut call4 = Call::new("c1".into());
    apply_sip(
        &mut call4,
        &mk(1_000_000, true, Some(Method::Invite), None, None),
    );
    apply_sip(&mut call4, &mk(1_200_000, false, None, Some(486), None));
    assert_eq!(call4.state, CallState::Failed);
    assert_eq!(call4.outcome, Outcome::Rejected);
    assert_eq!(call4.hangup_by, Some(HangupBy::Reject));
    assert_eq!(call4.hangup.code, Some(486));
}

#[test]
fn rejected_path() {
    let mut call = Call::new("c1".into());
    apply_sip(
        &mut call,
        &mk(1_000_000, true, Some(Method::Invite), None, None),
    );
    apply_sip(&mut call, &mk(1_200_000, false, None, Some(486), None));
    assert_eq!(call.state, CallState::Failed);
    assert_eq!(call.outcome, Outcome::Rejected);
}

#[test]
fn the_invite_tells_the_parties() {
    let mut call = Call::new("c1".into());
    apply_sip(&mut call, &mk(7, true, Some(Method::Invite), None, None));
    assert_eq!(call.from_user.as_deref(), Some("alice"));
    assert_eq!(call.to_user.as_deref(), Some("bob"));
    assert_eq!(call.invite_ts, Some(7));
    assert_eq!(call.invite_key, Some(sock("1.1.1.1:5060").ip));
    assert_eq!(call.invite_src, Some(sock("1.1.1.1:5060")));
    assert_eq!(call.pkts_sip, 1);
    assert_eq!(
        call.ips,
        vec![sock("1.1.1.1:5060").ip, sock("2.2.2.2:5060").ip]
    );
}

#[test]
fn other_refusals_are_failures() {
    let mut call = Call::new("c1".into());
    apply_sip(&mut call, &mk(0, true, Some(Method::Invite), None, None));
    apply_sip(&mut call, &mk(9, false, None, Some(503), None));
    assert_eq!(call.outcome, Outcome::Failed);
    assert_eq!(call.hangup.code, Some(503));
    assert_eq!(call.end_ts, Some(9));
}

#[test]
fn a_bye_with_a_reason_says_why() {
    let mut call = Call::new("c1".into());
    apply_sip(&mut call, &mk(0, true, Some(Method::Invite), None, None));
    apply_sip(&mut call, &mk(5, false, None, Some(200), None));
    let mut bye = mk(9, true, Some(Method::Bye), None, Some("x"));
    bye.cseq_method = Some("BYE".into());
    bye.raw = Bytes::from_static(
        b"BYE sip:bob@2.2.2.2 SIP/2.0\r\nReason: Q.850;cause=16;text=\"normal\"\r\n\r\n",
    );
    apply_sip(&mut call, &bye);
    assert_eq!(call.hangup.code, Some(16));
    assert_eq!(call.hangup.reason.as_deref(), Some("normal"));
}

#[test]
fn milestones_stay_where_they_are() {
    let mut call = Call::new("c1".into());
    apply_sip(&mut call, &mk(1_000, true, Some(Method::Invite), None, None));
    apply_sip(&mut call, &mk(2_000, false, None, Some(180), None));
    apply_sip(&mut call, &mk(5_000, false, None, Some(183), None));
    assert_eq!(call.ringing_ts, Some(2_000));
    assert_eq!(call.ring_code, Some(180));
    apply_sip(&mut call, &mk(9_000, true, Some(Method::Invite), None, None));
    assert_eq!(call.invite_ts, Some(1_000));
    assert_eq!(call.last_ts_us, 9_000);
    assert_eq!(call.pkts_sip, 4);
}

#[test]
fn only_an_answer_to_the_invite_sets_a_call_up() {
    let mut call = Call::new("c1".into());
    apply_sip(
        &mut call,
        &mk(1_000_000, true, Some(Method::Invite), None, None),
    );
    apply_sip(&mut call, &mk(1_100_000, false, None, Some(180), None));
    for (at, method) in [(1_200_000, "PRACK"), (1_300_000, "UPDATE"), (1_400_000, "CANCEL")] {
        let mut ok = mk(at, false, None, Some(200), Some("x"));
        ok.cseq_method = Some(method.into());
        apply_sip(&mut call, &ok);
        assert_eq!(call.state, CallState::Ringing);
        assert_eq!(call.answer_ts, None);
        assert_eq!(call.setup_ms, None);
    }
    apply_sip(&mut call, &mk(1_500_000, false, None, Some(200), Some("x")));
    assert_eq!(call.state, CallState::Active);
    assert_eq!(call.setup_ms, Some(500));
}
