//! The RTP fixed header, and telling RTP from RTCP.
use vstd::prelude::*;

verus! {

/// The fixed header of an RTP packet.
#[derive(Clone, Copy, PartialEq, Eq, Structural, Debug)]
pub struct RtpHeader {
    /// The protocol version.
    pub version: u8,
    /// The payload type.
    pub payload_type: u8,
    /// The sequence number.
    pub sequence_number: u16,
    /// The media timestamp.
    pub timestamp: u32,
    /// The synchronization source.
    pub ssrc: u32,
}

/// What kind of packet a payload is.
#[derive(Clone, Copy, PartialEq, Eq, Structural, Debug)]
pub enum MediaKind {
    /// RTP.
    Rtp,
    /// RTCP.
    Rtcp,
    /// Neither.
    Other,
}

/// The version in the top two bits of the first byte.
pub open spec fn version_of(p: Seq<u8>) -> int {
    p[0] as int / 64
}

/// The number that two bytes write in network order.
pub open spec fn be16(p: Seq<u8>, i: int) -> int {
    p[i] as int * 256 + p[i + 1] as int
}

/// The number that four bytes write in network order.
pub open spec fn be32(p: Seq<u8>, i: int) -> int {
    be16(p, i) * 65536 + be16(p, i + 2)
}

/// Whether a payload starts with the version of RTP and RTCP.
pub open spec fn rtp_like(p: Seq<u8>) -> bool {
    p.len() >= 2 && version_of(p) == 2
}

/// The RTP header at the start of a payload: twelve bytes, version 2.
pub open spec fn rtp_header(p: Seq<u8>) -> Option<RtpHeader> {
    if p.len() >= 12 && version_of(p) == 2 {
        Some(
            RtpHeader {
                version: 2,
                payload_type: (p[1] as int % 128) as u8,
                sequence_number: be16(p, 2) as u16,
                timestamp: be32(p, 4) as u32,
                ssrc: be32(p, 8) as u32,
            },
        )
    } else {
        None
    }
}

/// The kind of a payload: RTCP packet types are 200 to 207, and fill the
/// whole second byte.
pub open spec fn kind_of(p: Seq<u8>) -> MediaKind {
    if !rtp_like(p) {
        MediaKind::Other
    } else if 200 <= p[1] <= 207 {
        MediaKind::Rtcp
    } else {
        MediaKind::Rtp
    }
}

/// Reads two bytes in network order.
pub fn read_be16(p: &[u8], i: usize) -> (r: u16)
    requires
        i + 2 <= p.len(),
    ensures
        r == be16(p@, i as int),
{
    (p[i] as u16) * 256 + p[i + 1] as u16
}

/// Reads four bytes in network order.
pub fn read_be32(p: &[u8], i: usize) -> (r: u32)
    requires
        i + 4 <= p.len(),
    ensures
        r == be32(p@, i as int),
{
    (read_be16(p, i) as u32) * 65536 + read_be16(p, i + 2) as u32
}

/// Whether `payload` looks like an RTP or RTCP packet.
pub fn is_rtp_like(payload: &[u8]) -> (r: bool)
    ensures
        r == rtp_like(payload@),
{
    payload.len() >= 2 && payload[0] / 64 == 2
}

/// Reads the RTP header at the start of a payload.
pub fn parse_rtp_header(payload: &[u8]) -> (r: Option<RtpHeader>)
    ensures
        r == rtp_header(payload@),
{
    if payload.len() < 12 || payload[0] / 64 != 2 {
        return None;
    }
    Some(
        RtpHeader {
            version: 2,
            payload_type: payload[1] % 128,
            sequence_number: read_be16(payload, 2),
            timestamp: read_be32(payload, 4),
            ssrc: read_be32(payload, 8),
        },
    )
}

/// Tells RTP, RTCP and other payloads apart.
pub fn classify(payload: &[u8]) -> (r: MediaKind)
    ensures
        r == kind_of(payload@),
{
    if !is_rtp_like(payload) {
        return MediaKind::Other;
    }
    let pt: u8 = payload[1];
    if 200 <= pt && pt <= 207 {
        MediaKind::Rtcp
    } else {
        MediaKind::Rtp
    }
}

/// The media clock of a payload type: 48 kHz for the dynamic types, else
/// 8 kHz.
pub open spec fn clock_rate_of(payload_type: u8) -> u32 {
    if 96 <= payload_type <= 127 {
        48000
    } else {
        8000
    }
}

/// The media clock of a payload type, in Hz.
pub fn rtp_clock_rate_for_payload_type(payload_type: u8) -> (r: u32)
    ensures
        r == clock_rate_of(payload_type),
{
    match payload_type {
        0 | 8 | 9 | 18 => 8000,
        96..=127 => 48000,
        _ => 8000,
    }
}

/// An RTP header is read only from a payload that is classified as RTP or
/// RTCP.
pub proof fn a_header_is_of_an_rtp_like_payload(p: Seq<u8>)
    ensures
        rtp_header(p) is Some ==> rtp_like(p) && kind_of(p) != MediaKind::Other,
{
}

/// A header is read from every payload of twelve bytes or more whose first two bits
/// write version 2, and from no other. Written back in network order, each of its
/// fields gives the bytes that it was read from.
pub proof fn a_header_gives_back_its_bytes(p: Seq<u8>)
    ensures
        rtp_header(p) is Some <==> p.len() >= 12 && 128 <= p[0] < 192,
        rtp_header(p) matches Some(h) ==> {
            &&& h.version == 2
            &&& h.payload_type == p[1] || h.payload_type + 128 == p[1]
            &&& h.payload_type < 128
            &&& h.sequence_number as int / 256 == p[2] && h.sequence_number as int % 256 == p[3]
            &&& h.timestamp as int / 0x100_0000 == p[4] && (h.timestamp as int / 0x1_0000) % 256
                == p[5] && (h.timestamp as int / 0x100) % 256 == p[6] && h.timestamp as int % 256
                == p[7]
            &&& h.ssrc as int / 0x100_0000 == p[8] && (h.ssrc as int / 0x1_0000) % 256 == p[9] && (
            h.ssrc as int / 0x100) % 256 == p[10] && h.ssrc as int % 256 == p[11]
        },
{
}

/// A payload of version 2 is RTCP where its second byte is 200 to 207, and RTP
/// where it is anything else. Every other payload is neither.
pub proof fn the_second_byte_tells_rtcp(p: Seq<u8>)
    ensures
        kind_of(p) == MediaKind::Other <==> p.len() < 2 || p[0] < 128 || p[0] >= 192,
        kind_of(p) == MediaKind::Rtcp <==> p.len() >= 2 && 128 <= p[0] < 192 && 200 <= p[1] < 208,
        kind_of(p) == MediaKind::Rtp <==> p.len() >= 2 && 128 <= p[0] < 192 && (p[1] < 200 || p[1]
            >= 208),
        rtp_like(p) <==> p.len() >= 2 && 128 <= p[0] < 192,
{
}

/// The dynamic payload types, 96 to 127, run at 48 kHz and all others at 8 kHz.
pub proof fn dynamic_types_run_at_48_khz(pt: u8)
    ensures
        clock_rate_of(pt) == 48000 <==> 96 <= pt <= 127,
        clock_rate_of(pt) == 8000 <==> pt < 96 || pt > 127,
{
}

} // verus!
