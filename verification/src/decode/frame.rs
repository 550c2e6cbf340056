//! The UDP datagram in a captured frame.
use crate::addr::{Flow5Tuple, IpAddr, Proto, SocketAddr};
use crate::decode::rtp::{be16, be32, read_be16, read_be32};
use vstd::prelude::*;

verus! {

/// The link type of Ethernet frames.
pub const LINK_ETHERNET: u32 = 1;

/// The link type of bare IP packets.
pub const LINK_RAW: u32 = 101;

/// The link type of frames that Linux captures on all interfaces.
pub const LINK_COOKED: u32 = 113;

/// A UDP datagram in a frame: its flow, and where its payload lies.
#[derive(Clone, Copy, PartialEq, Eq, Structural, Debug)]
pub struct Datagram {
    /// The flow.
    pub flow: Flow5Tuple,
    /// Where the payload begins.
    pub lo: usize,
    /// Where the payload ends.
    pub hi: usize,
}

/// Whether an EtherType is that of IPv4 or IPv6.
pub open spec fn is_ip(kind: int) -> bool {
    kind == 0x0800 || kind == 0x86dd
}

/// Where the IP packet of a frame begins. An Ethernet frame may have one
/// VLAN tag.
pub open spec fn packet_at(link: u32, p: Seq<u8>) -> Option<int> {
    if link == LINK_RAW {
        Some(0)
    } else if link == LINK_ETHERNET && p.len() >= 18 && be16(p, 12) == 0x8100 && is_ip(be16(p, 16)) {
        Some(18)
    } else if link == LINK_ETHERNET && p.len() >= 14 && is_ip(be16(p, 12)) {
        Some(14)
    } else if link == LINK_COOKED && p.len() >= 16 && is_ip(be16(p, 14)) {
        Some(16)
    } else {
        None
    }
}

/// The number that sixteen bytes write in network order.
pub open spec fn be128(p: Seq<u8>, i: int) -> int {
    ((be32(p, i) * 0x1_0000_0000 + be32(p, i + 4)) * 0x1_0000_0000 + be32(p, i + 8)) * 0x1_0000_0000
        + be32(p, i + 12)
}

/// Where UDP begins in the IP packet at `at`, with the two addresses. Only the
/// first fragment of a packet has it.
pub open spec fn udp_at(p: Seq<u8>, at: int) -> Option<(IpAddr, IpAddr, int)> {
    if at + 20 <= p.len() && p[at] as int / 16 == 4 && p[at] % 16 >= 5 && p[at + 9] == 17 && be16(
        p,
        at + 6,
    ) % 0x2000 == 0 {
        Some(
            (
                IpAddr::V4(be32(p, at + 12) as u32),
                IpAddr::V4(be32(p, at + 16) as u32),
                at + (p[at] as int % 16) * 4,
            ),
        )
    } else if at + 40 <= p.len() && p[at] as int / 16 == 6 && p[at + 6] == 17 {
        Some(
            (
                IpAddr::V6(be128(p, at + 8) as u128),
                IpAddr::V6(be128(p, at + 24) as u128),
                at + 40,
            ),
        )
    } else {
        None
    }
}

/// The UDP datagram of a frame. Where the capture cut it short, the payload is
/// what is left of it.
pub open spec fn datagram_of(link: u32, p: Seq<u8>) -> Option<Datagram> {
    match packet_at(link, p) {
        None => None,
        Some(at) => match udp_at(p, at) {
            None => None,
            Some((src, dst, u)) => if u + 8 > p.len() || be16(p, u + 4) < 8 {
                None
            } else {
                let end = u + be16(p, u + 4);
                Some(
                    Datagram {
                        flow: Flow5Tuple {
                            proto: Proto::Udp,
                            src: SocketAddr { ip: src, port: be16(p, u) as u16 },
                            dst: SocketAddr { ip: dst, port: be16(p, u + 2) as u16 },
                        },
                        lo: (u + 8) as usize,
                        hi: if end <= p.len() {
                            end as usize
                        } else {
                            p.len() as usize
                        },
                    },
                )
            },
        },
    }
}

fn read_be128(p: &[u8], i: usize) -> (r: u128)
    requires
        i + 16 <= p.len(),
    ensures
        r == be128(p@, i as int),
{
    let a: u128 = read_be32(p, i) as u128;
    let b: u128 = read_be32(p, i + 4) as u128;
    let c: u128 = read_be32(p, i + 8) as u128;
    let d: u128 = read_be32(p, i + 12) as u128;
    ((a * 0x1_0000_0000 + b) * 0x1_0000_0000 + c) * 0x1_0000_0000 + d
}

fn find_packet(link: u32, p: &[u8]) -> (r: Option<usize>)
    ensures
        match r {
            Some(at) => packet_at(link, p@) == Some(at as int) && at <= 18,
            None => packet_at(link, p@) is None,
        },
{
    if link == LINK_RAW {
        return Some(0);
    }
    if link == LINK_ETHERNET && p.len() >= 14 {
        let kind = read_be16(p, 12);
        if p.len() >= 18 && kind == 0x8100 {
            let inner = read_be16(p, 16);
            if inner == 0x0800 || inner == 0x86dd {
                return Some(18);
            }
        }
        if kind == 0x0800 || kind == 0x86dd {
            return Some(14);
        }
    }
    if link == LINK_COOKED && p.len() >= 16 {
        let kind = read_be16(p, 14);
        if kind == 0x0800 || kind == 0x86dd {
            return Some(16);
        }
    }
    None
}

fn find_udp(p: &[u8], at: usize) -> (r: Option<(IpAddr, IpAddr, usize)>)
    requires
        at <= 18,
    ensures
        match r {
            Some((src, dst, u)) => udp_at(p@, at as int) == Some((src, dst, u as int)) && u <= 78,
            None => udp_at(p@, at as int) is None,
        },
{
    let n = p.len();
    if n >= at + 20 && p[at] / 16 == 4 {
        if p[at] % 16 >= 5 && p[at + 9] == 17 && read_be16(p, at + 6) % 0x2000 == 0 {
            let words: usize = (p[at] % 16) as usize;
            return Some(
                (
                    IpAddr::V4(read_be32(p, at + 12)),
                    IpAddr::V4(read_be32(p, at + 16)),
                    at + words * 4,
                ),
            );
        }
        return None;
    }
    if n >= at + 40 && p[at] / 16 == 6 && p[at + 6] == 17 {
        return Some(
            (IpAddr::V6(read_be128(p, at + 8)), IpAddr::V6(read_be128(p, at + 24)), at + 40),
        );
    }
    None
}

/// Finds the UDP datagram of a frame.
pub fn udp_datagram(link: u32, frame: &[u8]) -> (r: Option<Datagram>)
    ensures
        r == datagram_of(link, frame@),
        r matches Some(d) ==> d.lo <= d.hi <= frame@.len(),
{
    let at = match find_packet(link, frame) {
        Some(at) => at,
        None => {
            return None;
        },
    };
    let (src, dst, u) = match find_udp(frame, at) {
        Some(x) => x,
        None => {
            return None;
        },
    };
    let n = frame.len();
    if n < u + 8 {
        return None;
    }
    let len: usize = read_be16(frame, u + 4) as usize;
    if len < 8 {
        return None;
    }
    let hi: usize = if len <= n - u {
        u + len
    } else {
        n
    };
    Some(
        Datagram {
            flow: Flow5Tuple {
                proto: Proto::Udp,
                src: SocketAddr { ip: src, port: read_be16(frame, u) },
                dst: SocketAddr { ip: dst, port: read_be16(frame, u + 2) },
            },
            lo: u + 8,
            hi,
        },
    )
}

/// Where the packet of a frame begins: at once in a bare packet, behind fourteen
/// bytes of Ethernet, eighteen with a tag, and sixteen of a cooked frame, each time
/// behind a protocol number of IPv4 or IPv6.
pub proof fn a_packet_begins_behind_its_link_header(link: u32, p: Seq<u8>)
    ensures
        link == 101 ==> packet_at(link, p) == Some(0int),
        link == 1 && p.len() >= 18 && p[12] == 0x81 && p[13] == 0 && ((p[16] == 8 && p[17] == 0) || (
        p[16] == 0x86 && p[17] == 0xdd)) ==> packet_at(link, p) == Some(18int),
        link == 1 && p.len() >= 14 && ((p[12] == 8 && p[13] == 0) || (p[12] == 0x86 && p[13]
            == 0xdd)) ==> packet_at(link, p) == Some(14int),
        link == 113 && p.len() >= 16 && ((p[14] == 8 && p[15] == 0) || (p[14] == 0x86 && p[15]
            == 0xdd)) ==> packet_at(link, p) == Some(16int),
        link != 101 && link != 1 && link != 113 ==> packet_at(link, p) is None,
        link == 1 && p.len() < 14 ==> packet_at(link, p) is None,
        link == 113 && p.len() < 16 ==> packet_at(link, p) is None,
{
}

/// The number that four bytes write.
pub open spec fn four_bytes(p: Seq<u8>, i: int) -> int {
    p[i] * 0x100_0000 + p[i + 1] * 0x1_0000 + p[i + 2] * 0x100 + p[i + 3]
}

/// A packet of IPv4 carries UDP where its protocol is 17 and it is the first or only
/// fragment. The source stands before the destination, and the datagram follows as
/// many words of header as its first byte tells.
pub proof fn a_packet_of_version_4_names_its_ends(p: Seq<u8>, at: int, words: int)
    requires
        0 <= at,
        at + 20 <= p.len(),
        0 <= words < 16,
        p[at] == 64 + words,
    ensures
        udp_at(p, at) is Some <==> words >= 5 && p[at + 9] == 17 && p[at + 7] == 0 && p[at + 6]
            % 32 == 0,
        udp_at(p, at) matches Some((src, dst, u)) ==> {
            &&& src matches IpAddr::V4(a) && a == four_bytes(p, at + 12)
            &&& dst matches IpAddr::V4(b) && b == four_bytes(p, at + 16)
            &&& u == at + 4 * words
        },
{
}

/// A packet of IPv6 carries UDP where its next header is 17. The source stands before
/// the destination, and the datagram follows forty bytes of header.
pub proof fn a_packet_of_version_6_names_its_ends(p: Seq<u8>, at: int)
    requires
        0 <= at,
        at + 40 <= p.len(),
        96 <= p[at] < 112,
    ensures
        udp_at(p, at) is Some <==> p[at + 6] == 17,
        udp_at(p, at) matches Some((src, dst, u)) ==> {
            &&& src matches IpAddr::V6(a) && a == ((four_bytes(p, at + 8) * 0x1_0000_0000
                + four_bytes(p, at + 12)) * 0x1_0000_0000 + four_bytes(p, at + 16))
                * 0x1_0000_0000 + four_bytes(p, at + 20)
            &&& dst matches IpAddr::V6(b) && b == ((four_bytes(p, at + 24) * 0x1_0000_0000
                + four_bytes(p, at + 28)) * 0x1_0000_0000 + four_bytes(p, at + 32))
                * 0x1_0000_0000 + four_bytes(p, at + 36)
            &&& u == at + 40
        },
{
    lemma_four(p, at + 8);
    lemma_four(p, at + 12);
    lemma_four(p, at + 16);
    lemma_four(p, at + 20);
    lemma_four(p, at + 24);
    lemma_four(p, at + 28);
    lemma_four(p, at + 32);
    lemma_four(p, at + 36);
}

proof fn lemma_four(p: Seq<u8>, i: int)
    ensures
        be32(p, i) == four_bytes(p, i),
        0 <= four_bytes(p, i) < 0x1_0000_0000,
{
}

/// A datagram goes from the first port to the second. Its payload stands behind its
/// eight bytes of header, up to its length or the end of the frame.
pub proof fn a_datagram_goes_from_port_to_port(link: u32, p: Seq<u8>, at: int, src: IpAddr, dst: IpAddr, u: int)
    requires
        packet_at(link, p) == Some(at),
        udp_at(p, at) == Some((src, dst, u)),
        p.len() <= usize::MAX,
    ensures
        datagram_of(link, p) is Some <==> u + 8 <= p.len() && p[u + 4] * 256 + p[u + 5] >= 8,
        datagram_of(link, p) matches Some(d) ==> {
            &&& d.flow.proto == Proto::Udp
            &&& d.flow.src.ip == src && d.flow.src.port == p[u] * 256 + p[u + 1]
            &&& d.flow.dst.ip == dst && d.flow.dst.port == p[u + 2] * 256 + p[u + 3]
            &&& d.lo == u + 8
            &&& u + p[u + 4] * 256 + p[u + 5] <= p.len() ==> d.hi == u + p[u + 4] * 256 + p[u + 5]
            &&& u + p[u + 4] * 256 + p[u + 5] > p.len() ==> d.hi == p.len()
        },
{
}

/// There is no datagram where there is no packet, or none of UDP.
pub proof fn no_packet_has_no_datagram(link: u32, p: Seq<u8>)
    ensures
        packet_at(link, p) is None ==> datagram_of(link, p) is None,
        packet_at(link, p) matches Some(at) ==> (udp_at(p, at) is None ==> datagram_of(link, p) is None),
{
}

} // verus!
