use sipmon::addr::{Flow5Tuple, IpAddr, Proto, SocketAddr};
use sipmon::correlate::turn::{Leg, TurnTracker};
use sipmon::decode::stun::{
    parse, StunClass, ATTR_CHANNEL_NUMBER, ATTR_DATA, ATTR_ERROR_CODE, ATTR_LIFETIME,
    ATTR_XOR_PEER_ADDRESS, ATTR_XOR_RELAYED_ADDRESS, MAGIC_COOKIE, METHOD_ALLOCATE,
    METHOD_CHANNEL_BIND, METHOD_DATA, METHOD_REFRESH, METHOD_SEND,
};
use sipmon::model::diag::{Severity, TURN_ALLOC_FAILED, TURN_ALLOC_OK, TURN_REFRESH_FAILED};

fn ip(s: &str) -> IpAddr {
    let mut n: u32 = 0;
    for part in s.split('.') {
        n = n * 256 + part.parse::<u32>().unwrap();
    }
    IpAddr::V4(n)
}

fn sock(s: &str) -> SocketAddr {
    let (a, port) = s.split_once(':').unwrap();
    SocketAddr {
        ip: ip(a),
        port: port.parse().unwrap(),
    }
}

fn flow(src: &str, dst: &str) -> Flow5Tuple {
    Flow5Tuple {
        proto: Proto::Udp,
        src: sock(src),
        dst: sock(dst),
    }
}

fn alloc_request(txn: &[u8; 12]) -> Vec<u8> {
    build_stun(METHOD_ALLOCATE, StunClass::Request, txn, &[])
}

fn build_stun(
    method: u16,
    class: StunClass,
    txn: &[u8; 12],
    attrs: &[(u16, Vec<u8>)],
) -> Vec<u8> {
    let type_bits = match class {
        StunClass::Request => 0x0000,
        StunClass::Indication => 0x0010,
        StunClass::Success => 0x0100,
        StunClass::Error => 0x0110,
    };
    let typ: u16 = method | type_bits;
    let mut body = Vec::new();
    for (at, av) in attrs {
        body.extend_from_slice(&at.to_be_bytes());
        body.extend_from_slice(&(av.len() as u16).to_be_bytes());
        body.extend_from_slice(av);
        while body.len() % 4 != 0 {
            body.push(0);
        }
    }
    let mut out = Vec::new();
    out.extend_from_slice(&typ.to_be_bytes());
    out.extend_from_slice(&(body.len() as u16).to_be_bytes());
    out.extend_from_slice(&MAGIC_COOKIE.to_be_bytes());
    out.extend_from_slice(txn);
    out.extend_from_slice(&body);
    out
}

fn xor_addr(addr: SocketAddr, txn: &[u8; 12]) -> Vec<u8> {
    let mut key: Vec<u8> = MAGIC_COOKIE.to_be_bytes().to_vec();
    key.extend_from_slice(txn);
    let xport = addr.port ^ (MAGIC_COOKIE >> 16) as u16;
    let (family, octets) = match addr.ip {
        IpAddr::V4(n) => (1u8, n.to_be_bytes().to_vec()),
        IpAddr::V6(n) => (2u8, n.to_be_bytes().to_vec()),
    };
    let mut out = vec![0u8, family];
    out.extend_from_slice(&xport.to_be_bytes());
    for (i, b) in octets.iter().enumerate() {
        out.push(b ^ key[i]);
    }
    out
}

#[test]
fn learns_relay_from_allocate() {
    let mut t = TurnTracker::new(&[]);
    let txn = [5u8; 12];
    let f = flow("10.0.0.1:3000", "203.0.113.9:3478");
    // request
    let (d, m) = t.ingest(1_000, &f, &alloc_request(&txn));
    assert!(d.is_empty() && m.is_empty());
    assert!(t.is_turn_server(&ip("203.0.113.9")));
    // success response with relayed 203.0.113.9:5000
    let relayed = sock("203.0.113.9:5000");
    let resp = build_stun(
        METHOD_ALLOCATE,
        StunClass::Success,
        &txn,
        &[(ATTR_XOR_RELAYED_ADDRESS, xor_addr(relayed, &txn))],
    );
    let (d, m) = t.ingest(1_050, &f.reverse(), &resp);
    assert!(m.is_empty());
    assert!(d.iter().any(|x| x.code == TURN_ALLOC_OK));
    assert!(t.is_relay_addr(&relayed));
    // leg classification
    assert_eq!(
        t.leg_of(&flow("10.0.0.1:4000", "203.0.113.9:5000")),
        Some(Leg::Client)
    );
    assert_eq!(
        t.leg_of(&flow("203.0.113.9:5000", "10.20.0.1:4000")),
        Some(Leg::Peer)
    );
}

#[test]
fn allocate_error_emits_warning() {
    let mut t = TurnTracker::new(&[]);
    let txn = [6u8; 12];
    let f = flow("10.0.0.1:3000", "203.0.113.9:3478");
    t.ingest(1_000, &f, &alloc_request(&txn));
    let mut ev = vec![0u8, 0, 4, 86];
    ev.extend_from_slice(b"Allocation Quota Reached");
    let err = build_stun(
        METHOD_ALLOCATE,
        StunClass::Error,
        &txn,
        &[(ATTR_ERROR_CODE, ev)],
    );
    let (d, _) = t.ingest(1_050, &f.reverse(), &err);
    assert!(d.iter().any(|x| {
        x.code == TURN_ALLOC_FAILED && x.severity == Severity::Warn && x.message.contains("486")
    }));
}

#[test]
fn a_configured_server_is_known_from_the_start() {
    let mut t = TurnTracker::new(&[ip("192.0.2.1")]);
    assert!(t.is_turn_server(&ip("192.0.2.1")));
    assert!(!t.is_turn_server(&ip("203.0.113.9")));
    let f = flow("10.0.0.1:3000", "203.0.113.9:3478");
    t.ingest(1_000, &f, &alloc_request(&[1; 12]));
    assert!(t.is_turn_server(&ip("203.0.113.9")));
    // Clearing forgets what was learned, not what was configured.
    t.clear();
    assert_eq!(t.pkts_turn, 0);
    assert!(t.is_turn_server(&ip("192.0.2.1")));
    assert!(!t.is_turn_server(&ip("203.0.113.9")));
}

#[test]
fn what_is_no_stun_message_is_only_counted() {
    let mut t = TurnTracker::new(&[]);
    let f = flow("10.0.0.1:3000", "203.0.113.9:3478");
    let (d, m) = t.ingest(1, &f, &[0x80, 0, 0, 0]);
    assert!(d.is_empty() && m.is_empty());
    assert_eq!(t.pkts_turn, 1);
    assert!(!t.is_turn_server(&ip("203.0.113.9")));
}

#[test]
fn a_failed_refresh_is_found() {
    let mut t = TurnTracker::new(&[]);
    let txn = [7u8; 12];
    let f = flow("10.0.0.1:3000", "203.0.113.9:3478");
    t.ingest(1_000, &f, &alloc_request(&txn));
    let err = build_stun(
        METHOD_REFRESH,
        StunClass::Error,
        &txn,
        &[(ATTR_ERROR_CODE, vec![0, 0, 4, 37])],
    );
    let (d, _) = t.ingest(2_000, &f.reverse(), &err);
    assert!(d.iter().any(|x| x.code == TURN_REFRESH_FAILED));
}

#[test]
fn indications_carry_media() {
    let mut t = TurnTracker::new(&[]);
    let txn = [8u8; 12];
    let f = flow("10.0.0.1:3000", "203.0.113.9:3478");
    let rtp = vec![0x80u8, 0, 0, 1, 0, 0, 0, 0, 0, 0, 0, 1];
    for method in [METHOD_SEND, METHOD_DATA] {
        let ind = build_stun(
            method,
            StunClass::Indication,
            &txn,
            &[
                (ATTR_XOR_PEER_ADDRESS, xor_addr(sock("10.9.9.9:7000"), &txn)),
                (ATTR_DATA, rtp.clone()),
            ],
        );
        let (d, m) = t.ingest(5, &f, &ind);
        assert!(d.is_empty());
        assert_eq!(m, vec![rtp.clone()]);
    }
}

#[test]
fn a_message_is_read_attribute_by_attribute() {
    let txn = [9u8; 12];
    let v6 = SocketAddr {
        ip: IpAddr::V6(0x2001_0db8_0000_0000_0000_0000_0000_0001),
        port: 50_000,
    };
    let bytes = build_stun(
        METHOD_CHANNEL_BIND,
        StunClass::Request,
        &txn,
        &[
            (ATTR_CHANNEL_NUMBER, vec![0x40, 0x01, 0, 0]),
            (ATTR_LIFETIME, vec![0, 0, 2, 0x58]),
            (ATTR_XOR_PEER_ADDRESS, xor_addr(v6, &txn)),
        ],
    );
    let m = parse(&bytes).unwrap();
    assert_eq!(m.method, METHOD_CHANNEL_BIND);
    assert_eq!(m.class, StunClass::Request);
    assert_eq!(m.channel_number(), Some(0x4001));
    assert_eq!(m.lifetime(), Some(600));
    assert_eq!(m.peer_address(), Some(v6));
    assert_eq!(m.relayed_address(), None);
    assert!(m.data_payload().is_none());
    assert!(m.error_code().is_none());
    // Without the cookie, or cut short, it is no message.
    let mut other = bytes.clone();
    other[4] ^= 1;
    assert!(parse(&other).is_none());
    assert!(parse(&bytes[..10]).is_none());
}

#[test]
fn a_flow_off_the_relays_is_no_leg() {
    let t = TurnTracker::new(&[]);
    assert_eq!(t.leg_of(&flow("1.1.1.1:1", "2.2.2.2:2")), None);
    assert_eq!(Leg::Client.label(), "client");
    assert_eq!(Leg::Peer.label(), "peer");
}

#[test]
fn pruning_keeps_what_is_within_the_limits() {
    let mut t = TurnTracker::new(&[]);
    let txn = [3u8; 12];
    let f = flow("10.0.0.1:3000", "203.0.113.9:3478");
    t.ingest(1_000, &f, &alloc_request(&txn));
    let relayed = sock("203.0.113.9:5000");
    let resp = build_stun(
        METHOD_ALLOCATE,
        StunClass::Success,
        &txn,
        &[(ATTR_XOR_RELAYED_ADDRESS, xor_addr(relayed, &txn))],
    );
    t.ingest(1_050, &f.reverse(), &resp);
    t.prune();
    assert!(t.is_turn_server(&ip("203.0.113.9")));
    assert!(t.is_relay_addr(&relayed));
}
