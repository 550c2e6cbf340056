use sipmon::addr::{Flow5Tuple, IpAddr, Proto, SocketAddr};
use sipmon::analyze::mos::{codec_params, CodecParams};
use sipmon::decode::frame::{udp_datagram, LINK_COOKED, LINK_ETHERNET, LINK_RAW};
use sipmon::decode::pcap::{file_format, frame_header, PcapFormat};
use sipmon::decode::pcapng::{
    opens_section, read_interface, read_packet, to_micros, Interface, Packet,
};
use sipmon::decode::rtp::{
    is_rtp_like, parse_rtp_header, rtp_clock_rate_for_payload_type, RtpHeader,
};
use sipmon::decode::sip::{looks_like_sip, map_method, message_of, parse_sip, WireMessage};
use sipmon::endpoint::read_sock;
use sipmon::filter::{parse, Field};
use sipmon::lines::{reason_from_raw, sip_header};
use sipmon::model::sip::{Call, Method};
use sipmon::uri::{extract_sockaddr, host_of, param, user_of};

fn flow() -> Flow5Tuple {
    Flow5Tuple {
        proto: Proto::Udp,
        src: SocketAddr {
            ip: IpAddr::V4(0x0a00_0001),
            port: 5060,
        },
        dst: SocketAddr {
            ip: IpAddr::V4(0x0a00_0002),
            port: 5060,
        },
    }
}

const INVITE: &str = "INVITE sip:bob@biloxi.example SIP/2.0\r\n\
Via: SIP/2.0/UDP pc33.example;branch=z9hG4bKnashds8;rport, SIP/2.0/UDP hop2;branch=z9hG4bKother\r\n\
Max-Forwards: 70\r\n\
Route: <sip:p1.example;lr>\r\n\
Record-Route: <sip:r1.example;lr>\r\n\
Record-Route: <sip:r2.example;lr>\r\n\
To: Bob <sip:bob@biloxi.example>\r\n\
From: \"Alice\" <sip:alice@atlanta.example>;tag=1928301774\r\n\
Call-ID: a84b4c76e66710@pc33\r\n\
CSeq: 314159 INVITE\r\n\
Contact: <sip:alice@10.0.0.1:5070>\r\n\
Content-Type: application/sdp\r\n\
Content-Length: 10\r\n\
\r\n\
v=0\r\no=x\r\n";

#[test]
fn an_invite_is_taken_apart() {
    let raw = INVITE.as_bytes();
    let m = parse_sip(42, flow(), raw, None).unwrap();
    assert_eq!(m.ts_us, 42);
    assert_eq!(m.flow, flow());
    assert!(m.is_request);
    assert_eq!(m.method, Some(Method::Invite));
    assert_eq!(m.status, None);
    assert_eq!(m.call_id, "a84b4c76e66710@pc33");
    assert_eq!(m.cseq, Some(314159));
    assert_eq!(m.cseq_method.as_deref(), Some("INVITE"));
    assert_eq!(m.branch.as_deref(), Some("z9hG4bKnashds8"));
    assert_eq!(m.from_tag.as_deref(), Some("1928301774"));
    assert_eq!(m.to_tag, None);
    assert_eq!(m.to_uri.as_deref(), Some("Bob <sip:bob@biloxi.example>"));
    assert_eq!(
        m.from_uri.as_deref(),
        Some("\"Alice\" <sip:alice@atlanta.example>;tag=1928301774")
    );
    assert_eq!(&m.raw[..], raw);
    assert_eq!(
        m.contact_addr,
        Some(SocketAddr {
            ip: IpAddr::V4(0x0a00_0001),
            port: 5070,
        })
    );
    assert_eq!(m.route_count, 1);
    assert_eq!(m.record_route_count, 2);
    assert!(m.has_sdp);
}

#[test]
fn a_stored_message_is_cut_short() {
    let m = parse_sip(0, flow(), INVITE.as_bytes(), Some(6)).unwrap();
    assert_eq!(&m.raw[..], b"INVITE");
    let m = parse_sip(0, flow(), INVITE.as_bytes(), Some(100_000)).unwrap();
    assert_eq!(m.raw.len(), INVITE.len());
}

#[test]
fn a_response_has_a_status() {
    let raw = b"SIP/2.0 486 Busy Here\r\n\
Via: SIP/2.0/UDP pc33;branch=z9hG4bK1\r\n\
To: <sip:bob@b>;tag=99\r\n\
From: <sip:alice@a>;tag=1\r\n\
Call-ID:   spaced  \r\n\
CSeq: 7 INVITE\r\n\
Content-Length: 0\r\n\
\r\n";
    let m = parse_sip(0, flow(), raw, None).unwrap();
    assert!(!m.is_request);
    assert_eq!(m.status, Some(486));
    assert_eq!(m.method, None);
    assert_eq!(m.call_id, "spaced");
    assert_eq!(m.to_tag.as_deref(), Some("99"));
    assert_eq!(m.route_count, 0);
    assert!(!m.has_sdp);
}

#[test]
fn short_header_names_are_understood() {
    let raw = b"INVITE sip:bob@b SIP/2.0\r\n\
v: SIP/2.0/UDP h;branch=z9hG4bKs\r\n\
t: <sip:bob@b>\r\n\
f: <sip:alice@a>;tag=7\r\n\
i: short\r\n\
CSeq: 1 INVITE\r\n\
m: <sip:alice@10.0.0.3>\r\n\
l: 0\r\n\
\r\n";
    let m = parse_sip(0, flow(), raw, None).unwrap();
    assert_eq!(m.call_id, "short");
    assert_eq!(m.branch.as_deref(), Some("z9hG4bKs"));
    assert_eq!(m.from_tag.as_deref(), Some("7"));
    assert_eq!(m.contact_addr, None);
    assert!(!m.has_sdp);
}

#[test]
fn what_is_not_sip_is_refused() {
    assert!(parse_sip(0, flow(), b"GET / HTTP/1.1\r\n\r\n", None).is_none());
    assert!(parse_sip(0, flow(), b"INVITE garbage", None).is_none());
    // A message without a Call-ID is refused.
    let raw = b"OPTIONS sip:x SIP/2.0\r\nVia: SIP/2.0/UDP a;branch=b\r\nCSeq: 1 OPTIONS\r\n\r\n";
    assert!(parse_sip(0, flow(), raw, None).is_none());
}

#[test]
fn sip_is_told_by_its_first_word() {
    assert!(looks_like_sip(b"SIP/2.0 200 OK"));
    assert!(looks_like_sip(b"PUBLISH sip:a SIP/2.0"));
    assert!(looks_like_sip(b"ACK sip:a"));
    assert!(!looks_like_sip(b"ACK sip"));
    assert!(!looks_like_sip(b"invite sip:a"));
    assert!(!looks_like_sip(b"FROBNICATE sip:a"));
}

#[test]
fn methods_are_known_by_name() {
    assert_eq!(map_method("INVITE"), Some(Method::Invite));
    assert_eq!(map_method("PRACK"), Some(Method::Prack));
    assert_eq!(map_method("MESSAGE"), Some(Method::Message));
    assert_eq!(map_method("NONE"), None);
}

#[test]
fn a_message_is_made_of_its_parts() {
    let wire = WireMessage {
        method: Some("BYE".into()),
        status: None,
        headers: vec![
            ("Call-ID".into(), " id ".into()),
            ("From".into(), "<sip:a@b>;tag=f".into()),
            ("CSeq".into(), "x BYE".into()),
        ],
    };
    let m = message_of(1, flow(), b"", None, &wire, Some("SIP/2.0/UDP h;branch=q")).unwrap();
    assert_eq!(m.call_id, "id");
    assert_eq!(m.method, Some(Method::Bye));
    assert_eq!(m.cseq, None);
    assert_eq!(m.cseq_method.as_deref(), Some("BYE"));
    assert_eq!(m.branch.as_deref(), Some("q"));
    assert_eq!(m.from_tag.as_deref(), Some("f"));
    assert_eq!(m.to_uri, None);
    assert!(!m.has_sdp);
}

#[test]
fn users_and_hosts_are_cut_out_of_addresses() {
    assert_eq!(user_of("\"A\" <sip:alice@h:5060>;tag=1").as_deref(), Some("alice"));
    assert_eq!(user_of("<tel:+4912345;phone-context=x>").as_deref(), Some("tel:+4912345"));
    assert_eq!(user_of("<sips:@host.example>"), None);
    assert_eq!(host_of("<sip:bob@10.0.0.9:5080;transport=udp>"), "10.0.0.9:5080");
    assert_eq!(param("a=\"q\"", "A"), Some("q"));
    assert_eq!(param("", "a"), None);
}

#[test]
fn a_reason_header_gives_a_cause() {
    let raw = b"BYE sip:x SIP/2.0\r\nReason: SIP;cause=480;text=\"gone away\"\r\n\r\n";
    assert_eq!(reason_from_raw(raw), Some((480, "gone away".to_string())));
    let plain = b"BYE sip:x SIP/2.0\r\nReason: Q.850 ;cause=16\r\n\r\n";
    assert_eq!(reason_from_raw(plain), Some((16, String::new())));
    let lower = b"BYE sip:x SIP/2.0\r\nreason: SIP;cause=480\r\n\r\n";
    assert_eq!(reason_from_raw(lower), None);
    assert_eq!(reason_from_raw(b"BYE sip:x SIP/2.0\r\nReason: odd\r\n\r\n"), None);
    assert_eq!(reason_from_raw(b"BYE sip:x SIP/2.0\r\n\r\n"), None);
    assert_eq!(reason_from_raw(&[0xff, 0xfe]), None);
}

#[test]
fn headers_are_read_line_by_line() {
    let raw = b"INVITE sip:x SIP/2.0\r\nUser-Agent:  Phone 1 \r\nServer: s\r\n\r\n";
    assert_eq!(sip_header(raw, "user-agent").as_deref(), Some("Phone 1"));
    assert_eq!(sip_header(raw, "Server").as_deref(), Some("s"));
    assert_eq!(sip_header(raw, "Allow"), None);
}

#[test]
fn rtp_headers_are_read_in_network_order() {
    let p = [0x80u8, 0x88, 0x12, 0x34, 0, 0, 0, 160, 0xde, 0xad, 0xbe, 0xef];
    assert!(is_rtp_like(&p));
    assert_eq!(
        parse_rtp_header(&p),
        Some(RtpHeader {
            version: 2,
            payload_type: 8,
            sequence_number: 0x1234,
            timestamp: 160,
            ssrc: 0xdead_beef,
        })
    );
    assert!(parse_rtp_header(&p[..11]).is_none());
    let mut other = p;
    other[0] = 0x40;
    assert!(!is_rtp_like(&other));
    assert!(parse_rtp_header(&other).is_none());
}

#[test]
fn payload_types_have_clock_rates() {
    assert_eq!(rtp_clock_rate_for_payload_type(0), 8000);
    assert_eq!(rtp_clock_rate_for_payload_type(9), 8000);
    assert_eq!(rtp_clock_rate_for_payload_type(96), 48000);
}

#[test]
fn codecs_have_impairments() {
    let p = |ie, bpl| CodecParams {
        ie_tenths: ie,
        bpl_tenths: bpl,
    };
    assert_eq!(codec_params(Some("pcma/8000"), None), p(0, 251));
    assert_eq!(codec_params(Some("G.729"), Some(0)), p(100, 190));
    assert_eq!(codec_params(Some("G.723"), None), p(150, 130));
    assert_eq!(codec_params(Some("g.722"), None), p(40, 157));
    assert_eq!(codec_params(Some("telephone-event"), None), p(0, 250));
    assert_eq!(codec_params(None, Some(8)), p(0, 251));
    assert_eq!(codec_params(None, Some(99)), p(100, 100));
    assert_eq!(codec_params(Some("x"), None), p(100, 100));
}

#[test]
fn a_filter_is_a_list_of_rules() {
    let rules = parse(" caller:alice  IP:10.0.0.1 callid:x bob ");
    let fields: Vec<Field> = rules.iter().map(|r| r.field).collect();
    assert_eq!(
        fields,
        vec![Field::Caller, Field::Ip, Field::CallId, Field::Any]
    );
    assert_eq!(rules[0].text, "alice");
    assert_eq!(rules[1].text, "10.0.0.1");
    let mut c = Call::new("xyz".into());
    c.from_user = Some("ALICE2".into());
    c.to_user = Some("bob".into());
    c.ips = vec![IpAddr::V4(0x0a00_0001)];
    assert!(sipmon::filter::matches(&c, &rules));
    c.to_user = None;
    assert!(!sipmon::filter::matches(&c, &rules));
    assert!(sipmon::filter::matches(&c, &parse("")));
    // A whole address is matched as a whole, a part of one anywhere.
    c.ips = vec![IpAddr::V4(0x0a00_000b)];
    assert!(!sipmon::filter::matches(&c, &parse("ip:10.0.0.1")));
    assert!(sipmon::filter::matches(&c, &parse("ip:0.0.11")));
}

#[test]
fn addresses_are_written_as_usual() {
    assert_eq!(IpAddr::V4(0xc0a8_0001).to_text(), "192.168.0.1");
    assert_eq!(IpAddr::V6(1).to_text(), "::1");
    assert_eq!(IpAddr::V6(0).to_text(), "::");
    assert_eq!(
        IpAddr::V6(0x2001_0db8_0000_0001_0000_0000_0000_00ff).to_text(),
        "2001:db8:0:1::ff"
    );
    assert_eq!(IpAddr::V6(0xffff_0102_0304).to_text(), "::ffff:1.2.3.4");
    assert_eq!(
        SocketAddr {
            ip: IpAddr::V6(1),
            port: 80,
        }
        .to_text(),
        "[::1]:80"
    );
    assert_eq!(flow().src.to_text(), "10.0.0.1:5060");
    assert_eq!(flow().reverse().src.to_text(), "10.0.0.2:5060");
}

/// An IPv4 packet with a UDP datagram of three bytes from 10.0.0.1:5060 to
/// 10.0.0.2:5061.
fn packet() -> Vec<u8> {
    let mut p = vec![
        0x45, 0, 0, 31, 0, 0, 0x40, 0, 64, 17, 0, 0, 10, 0, 0, 1, 10, 0, 0, 2,
    ];
    p.extend_from_slice(&[0x13, 0xc4, 0x13, 0xc5, 0, 11, 0, 0]);
    p.extend_from_slice(b"abc");
    p
}

fn ethernet(tag: bool) -> Vec<u8> {
    let mut f = vec![0u8; 12];
    if tag {
        f.extend_from_slice(&[0x81, 0, 0, 7]);
    }
    f.extend_from_slice(&[8, 0]);
    f.extend_from_slice(&packet());
    f
}

#[test]
fn a_datagram_is_found_in_its_frame() {
    for (link, frame) in [
        (LINK_RAW, packet()),
        (LINK_ETHERNET, ethernet(false)),
        (LINK_ETHERNET, ethernet(true)),
        (LINK_COOKED, [&[0u8; 14][..], &[8, 0], &packet()].concat()),
    ] {
        let d = udp_datagram(link, &frame).unwrap();
        assert_eq!(&frame[d.lo..d.hi], b"abc");
        assert_eq!(d.flow.src.to_text(), "10.0.0.1:5060");
        assert_eq!(d.flow.dst.to_text(), "10.0.0.2:5061");
    }
    // Padding after the datagram does not belong to it; a cut one is short.
    let mut padded = packet();
    padded.extend_from_slice(&[0; 9]);
    assert_eq!(udp_datagram(LINK_RAW, &padded).unwrap().hi, 31);
    assert_eq!(udp_datagram(LINK_RAW, &packet()[..30]).unwrap().hi, 30);
}

#[test]
fn a_datagram_is_found_in_ipv6() {
    let mut p = vec![0x60, 0, 0, 0, 0, 9, 17, 64];
    p.extend_from_slice(&1u128.to_be_bytes());
    p.extend_from_slice(&(0xff02u128 << 112).to_be_bytes());
    p.extend_from_slice(&[0, 1, 0, 2, 0, 9, 0, 0, b'z']);
    let d = udp_datagram(LINK_RAW, &p).unwrap();
    assert_eq!(d.flow.src.to_text(), "[::1]:1");
    assert_eq!(d.flow.dst.to_text(), "[ff02::]:2");
    assert_eq!(&p[d.lo..d.hi], b"z");
}

#[test]
fn other_frames_hold_no_datagram() {
    assert!(udp_datagram(77, &packet()).is_none());
    assert!(udp_datagram(LINK_RAW, &packet()[..19]).is_none());
    assert!(udp_datagram(LINK_RAW, &packet()[..27]).is_none());
    let mut tcp = packet();
    tcp[9] = 6;
    assert!(udp_datagram(LINK_RAW, &tcp).is_none());
    let mut fragment = packet();
    fragment[7] = 1;
    assert!(udp_datagram(LINK_RAW, &fragment).is_none());
    let mut arp = ethernet(false);
    arp[13] = 6;
    assert!(udp_datagram(LINK_ETHERNET, &arp).is_none());
}

#[test]
fn pcap_files_are_read_in_either_byte_order() {
    let mut head = vec![0u8; 24];
    head[..4].copy_from_slice(&0xa1b2_c3d4u32.to_le_bytes());
    head[20] = 1;
    let f = file_format(&head).unwrap();
    assert_eq!(
        f,
        PcapFormat {
            big_endian: false,
            nanos: false,
            link: 1
        }
    );
    let mut rec = vec![0u8; 16];
    rec[0] = 2;
    rec[4] = 5;
    rec[8] = 60;
    let h = frame_header(f, &rec);
    assert_eq!((h.ts_us, h.len), (2_000_005, 60));
    head[..4].copy_from_slice(&0xa1b2_3c4du32.to_be_bytes());
    head[20..].copy_from_slice(&113u32.to_be_bytes());
    let f = file_format(&head).unwrap();
    assert!(f.big_endian && f.nanos);
    assert_eq!(f.link, 113);
    let rec = [0, 0, 0, 2, 0, 0, 0x13, 0x88, 0, 0, 0, 60, 0, 0, 0, 60];
    let h = frame_header(f, &rec);
    assert_eq!((h.ts_us, h.len), (2_000_005, 60));
    assert!(file_format(&[0; 24]).is_none());
    assert!(file_format(&head[..23]).is_none());
}

#[test]
fn a_quoted_reason_text_is_read_whole() {
    let raw = b"BYE sip:x SIP/2.0\r\nReason: Q.850;cause=16;text=\"Normal call clearing\"\r\n\r\n";
    assert_eq!(
        reason_from_raw(raw),
        Some((16, "Normal call clearing".to_string()))
    );
    let raw = b"BYE sip:x SIP/2.0\r\nReason: SIP ;cause=200 ;text=\"a;b c\";x=1\r\n\r\n";
    assert_eq!(reason_from_raw(raw), Some((200, "a;b c".to_string())));
}

#[test]
fn a_parameter_is_found_by_its_whole_name() {
    assert_eq!(param("FROM-TAG=a;tag=b", "tag"), Some("b"));
    assert_eq!(param("from-tag=a", "tag"), None);
    assert_eq!(param("x;tag=\"p q\";y", "tag"), Some("p q"));
    assert_eq!(param("tag=a", "tag"), Some("a"));
}

#[test]
fn a_socket_address_is_read() {
    let v4 = |n, port| {
        Some(SocketAddr {
            ip: IpAddr::V4(n),
            port,
        })
    };
    let v6 = |n, port| {
        Some(SocketAddr {
            ip: IpAddr::V6(n),
            port,
        })
    };
    assert_eq!(read_sock("10.0.0.1:5070"), v4(0x0a00_0001, 5070));
    assert_eq!(read_sock("255.255.255.255:65535"), v4(u32::MAX, 65535));
    assert_eq!(
        read_sock("[2001:db8::1]:5060"),
        v6(0x2001_0db8_0000_0000_0000_0000_0000_0001, 5060)
    );
    assert_eq!(read_sock("[::]:1"), v6(0, 1));
    assert_eq!(read_sock("[::ffff:1.2.3.4]:9"), v6(0xffff_0102_0304, 9));
    assert_eq!(
        read_sock("[1:2:3:4:5:6:7:8]:0"),
        v6(0x0001_0002_0003_0004_0005_0006_0007_0008, 0)
    );
    for wrong in [
        "",
        "10.0.0.1",
        "10.0.0.1:",
        "10.0.0.1:65536",
        "10.0.0.256:1",
        "10.0.0.01:1",
        "10.0.0:1",
        "host.example:5060",
        "[::1]",
        "::1:5060",
        "[1:2:3]:4",
        "[1::2::3]:4",
        "[12345::]:4",
    ] {
        assert_eq!(read_sock(wrong), None, "{wrong}");
    }
    for text in ["10.0.0.1:5060", "[2001:db8:0:1::ff]:7", "[::1]:80"] {
        assert_eq!(read_sock(text).unwrap().to_text(), text);
    }
}

#[test]
fn a_contact_is_an_address_where_it_names_one() {
    assert_eq!(
        extract_sockaddr("<sip:alice@10.0.0.1:5070;transport=udp>;expires=60"),
        Some(SocketAddr {
            ip: IpAddr::V4(0x0a00_0001),
            port: 5070,
        })
    );
    assert_eq!(
        extract_sockaddr("<sip:[2001:db8::1]:5060>"),
        Some(SocketAddr {
            ip: IpAddr::V6(0x2001_0db8_0000_0000_0000_0000_0000_0001),
            port: 5060,
        })
    );
    assert_eq!(extract_sockaddr("<sip:alice@pc33.example:5060>"), None);
    assert_eq!(extract_sockaddr("<sip:alice@10.0.0.1>"), None);
}

#[test]
fn a_limit_changes_only_what_is_kept() {
    let whole = parse_sip(3, flow(), INVITE.as_bytes(), None).unwrap();
    let cut = parse_sip(3, flow(), INVITE.as_bytes(), Some(10)).unwrap();
    assert_eq!(&cut.raw[..], &whole.raw[..10]);
    assert_eq!(cut.call_id, whole.call_id);
    assert_eq!(cut.from_tag, whole.from_tag);
    assert_eq!(cut.contact_addr, whole.contact_addr);
    assert_eq!(cut.route_count, whole.route_count);
    assert_eq!(cut.has_sdp, whole.has_sdp);
}

#[test]
fn pcapng_blocks_are_read_in_either_byte_order() {
    let mut head = vec![0x0a, 0x0d, 0x0d, 0x0a, 28, 0, 0, 0];
    head.extend_from_slice(&0x1a2b_3c4du32.to_le_bytes());
    assert_eq!(opens_section(&head), Some(false));
    head[8..].copy_from_slice(&0x1a2b_3c4du32.to_be_bytes());
    assert_eq!(opens_section(&head), Some(true));
    head[8] = 0;
    assert_eq!(opens_section(&head), None);
    assert_eq!(opens_section(&head[..11]), None);

    // An interface without options counts microseconds.
    let plain = [1u8, 0, 0, 0, 0, 0, 4, 0];
    assert_eq!(
        read_interface(&plain, false),
        Some(Interface {
            link: 1,
            per_second: 1_000_000,
        })
    );
    // A name, then nanoseconds as the unit of time.
    let mut named = vec![0u8, 113, 0, 0, 0, 4, 0, 0];
    named.extend_from_slice(&[0, 2, 0, 3, b'e', b't', b'h', 0]);
    named.extend_from_slice(&[0, 9, 0, 1, 9, 0, 0, 0, 0, 0, 0, 0]);
    assert_eq!(
        read_interface(&named, true),
        Some(Interface {
            link: 113,
            per_second: 1_000_000_000,
        })
    );
    named[20] = 0x80 + 10;
    assert_eq!(read_interface(&named, true).unwrap().per_second, 1024);
    named[20] = 20;
    assert_eq!(read_interface(&named, true), None);
    assert_eq!(read_interface(&named[..7], true), None);

    let mut body = vec![2u8, 0, 0, 0, 1, 0, 0, 0, 5, 0, 0, 0, 3, 0, 0, 0, 9, 0, 0, 0];
    body.extend_from_slice(b"abc\0");
    let p = read_packet(&body, false).unwrap();
    assert_eq!(
        p,
        Packet {
            interface: 2,
            time: 0x1_0000_0005,
            lo: 20,
            hi: 23,
        }
    );
    assert_eq!(&body[p.lo..p.hi], b"abc");
    body[12] = 5;
    assert_eq!(read_packet(&body, false), None);
    assert_eq!(read_packet(&body[..19], false), None);

    assert_eq!(to_micros(1_500, 1_000_000_000), Some(1));
    assert_eq!(to_micros(3, 2), Some(1_500_000));
    assert_eq!(to_micros(u64::MAX, 1), None);
}

#[test]
fn the_first_via_ends_at_a_comma_outside_quotes() {
    let branch = |via: &str| {
        let raw = format!(
            "OPTIONS sip:x SIP/2.0\r\nVia: {via}\r\nCall-ID: v\r\nCSeq: 1 OPTIONS\r\n\r\n"
        );
        parse_sip(0, flow(), raw.as_bytes(), None).unwrap().branch
    };
    assert_eq!(branch("SIP/2.0/UDP a , SIP/2.0/UDP b;branch=z2"), None);
    assert_eq!(
        branch("SIP/2.0/UDP a;x=\"p,q\\\",r\";branch=z1, SIP/2.0/UDP b").as_deref(),
        Some("z1")
    );
    // Open quotes and an empty first value are refused.
    assert_eq!(branch("SIP/2.0/UDP a;branch=z1;x=\"p"), None);
    assert_eq!(branch(", SIP/2.0/UDP b;branch=z2"), None);
}
