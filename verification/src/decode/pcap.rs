//! The headers of the classic pcap file format.
use crate::decode::rtp::{be32, read_be32};
use vstd::prelude::*;

verus! {

/// The length of the header of a file.
pub const FILE_HEADER_LEN: usize = 24;

/// The length of the header of a frame.
pub const FRAME_HEADER_LEN: usize = 16;

/// How a file is written.
#[derive(Clone, Copy, PartialEq, Eq, Structural, Debug)]
pub struct PcapFormat {
    /// Whether numbers are written with the highest byte first.
    pub big_endian: bool,
    /// Whether times are in nanoseconds.
    pub nanos: bool,
    /// The link type of the frames.
    pub link: u32,
}

/// What the header of a frame says.
#[derive(Clone, Copy, PartialEq, Eq, Structural, Debug)]
pub struct FrameHeader {
    /// Capture time in microseconds.
    pub ts_us: u64,
    /// The number of bytes that follow.
    pub len: u32,
}

/// The number that four bytes write with the lowest byte first.
pub open spec fn le32(p: Seq<u8>, i: int) -> int {
    p[i] as int + p[i + 1] as int * 0x100 + p[i + 2] as int * 0x1_0000 + p[i + 3] as int * 0x100_0000
}

/// The number that four bytes write.
pub open spec fn word(p: Seq<u8>, i: int, big_endian: bool) -> int {
    if big_endian {
        be32(p, i)
    } else {
        le32(p, i)
    }
}

/// Whether a file begins with the mark of its byte order and unit of time.
pub open spec fn marked(p: Seq<u8>, big_endian: bool, nanos: bool) -> bool {
    word(p, 0, big_endian) == if nanos {
        0xa1b2_3c4dint
    } else {
        0xa1b2_c3d4int
    }
}

/// How a file is written, by its header; none where it is no pcap file.
pub open spec fn format_of(p: Seq<u8>) -> Option<PcapFormat> {
    if p.len() < FILE_HEADER_LEN {
        None
    } else if marked(p, true, false) {
        Some(PcapFormat { big_endian: true, nanos: false, link: (word(p, 20, true) % 0x1_0000) as u32 })
    } else if marked(p, true, true) {
        Some(PcapFormat { big_endian: true, nanos: true, link: (word(p, 20, true) % 0x1_0000) as u32 })
    } else if marked(p, false, false) {
        Some(
            PcapFormat {
                big_endian: false,
                nanos: false,
                link: (word(p, 20, false) % 0x1_0000) as u32,
            },
        )
    } else if marked(p, false, true) {
        Some(
            PcapFormat {
                big_endian: false,
                nanos: true,
                link: (word(p, 20, false) % 0x1_0000) as u32,
            },
        )
    } else {
        None
    }
}

/// What the header of a frame says.
pub open spec fn frame_of(f: PcapFormat, p: Seq<u8>) -> FrameHeader {
    let part = word(p, 4, f.big_endian);
    FrameHeader {
        ts_us: (word(p, 0, f.big_endian) * 1_000_000 + if f.nanos {
            part / 1000
        } else {
            part
        }) as u64,
        len: word(p, 8, f.big_endian) as u32,
    }
}

/// Reads the number that four bytes write.
pub fn read_word(p: &[u8], i: usize, big_endian: bool) -> (r: u32)
    requires
        i + 4 <= p.len(),
    ensures
        r == word(p@, i as int, big_endian),
{
    if big_endian {
        read_be32(p, i)
    } else {
        p[i] as u32 + p[i + 1] as u32 * 0x100 + p[i + 2] as u32 * 0x1_0000 + p[i + 3] as u32
            * 0x100_0000
    }
}

/// How a file is written, by its header; none where it is no pcap file.
pub fn file_format(head: &[u8]) -> (r: Option<PcapFormat>)
    ensures
        r == format_of(head@),
{
    if head.len() < FILE_HEADER_LEN {
        return None;
    }
    let big = read_word(head, 0, true);
    if big == 0xa1b2_c3d4 || big == 0xa1b2_3c4d {
        return Some(
            PcapFormat {
                big_endian: true,
                nanos: big == 0xa1b2_3c4d,
                link: read_word(head, 20, true) % 0x1_0000,
            },
        );
    }
    let little = read_word(head, 0, false);
    if little == 0xa1b2_c3d4 || little == 0xa1b2_3c4d {
        return Some(
            PcapFormat {
                big_endian: false,
                nanos: little == 0xa1b2_3c4d,
                link: read_word(head, 20, false) % 0x1_0000,
            },
        );
    }
    None
}

/// What the header of a frame says.
pub fn frame_header(f: PcapFormat, head: &[u8]) -> (r: FrameHeader)
    requires
        head.len() >= FRAME_HEADER_LEN,
    ensures
        r == frame_of(f, head@),
{
    let secs: u64 = read_word(head, 0, f.big_endian) as u64;
    let part: u64 = read_word(head, 4, f.big_endian) as u64;
    let micros: u64 = if f.nanos {
        part / 1000
    } else {
        part
    };
    FrameHeader { ts_us: secs * 1_000_000 + micros, len: read_word(head, 8, f.big_endian) }
}

/// A word is four bytes, the first the most worth or the least.
pub proof fn a_word_is_four_bytes(p: Seq<u8>, i: int)
    ensures
        word(p, i, true) == p[i] * 0x100_0000 + p[i + 1] * 0x1_0000 + p[i + 2] * 0x100 + p[i + 3],
        word(p, i, false) == p[i + 3] * 0x100_0000 + p[i + 2] * 0x1_0000 + p[i + 1] * 0x100 + p[i],
{
}

/// The first four bytes of a capture file tell its byte order and the unit of its
/// times, and its last two the kind of link.
pub proof fn a_capture_tells_its_format(p: Seq<u8>)
    requires
        p.len() >= 24,
    ensures
        p[0] == 0xa1 && p[1] == 0xb2 && p[2] == 0xc3 && p[3] == 0xd4 ==> format_of(p) == Some(
            PcapFormat { big_endian: true, nanos: false, link: (p[22] * 256 + p[23]) as u32 },
        ),
        p[0] == 0xa1 && p[1] == 0xb2 && p[2] == 0x3c && p[3] == 0x4d ==> format_of(p) == Some(
            PcapFormat { big_endian: true, nanos: true, link: (p[22] * 256 + p[23]) as u32 },
        ),
        p[0] == 0xd4 && p[1] == 0xc3 && p[2] == 0xb2 && p[3] == 0xa1 ==> format_of(p) == Some(
            PcapFormat { big_endian: false, nanos: false, link: (p[21] * 256 + p[20]) as u32 },
        ),
        p[0] == 0x4d && p[1] == 0x3c && p[2] == 0xb2 && p[3] == 0xa1 ==> format_of(p) == Some(
            PcapFormat { big_endian: false, nanos: true, link: (p[21] * 256 + p[20]) as u32 },
        ),
        p[0] != 0xa1 && p[0] != 0xd4 && p[0] != 0x4d ==> format_of(p) is None,
{
}

/// There is no format in fewer than twenty-four bytes.
pub proof fn a_short_file_has_no_format(p: Seq<u8>)
    requires
        p.len() < 24,
    ensures
        format_of(p) is None,
{
}

/// The header of a frame tells its time, in seconds and a part in micro- or
/// nanoseconds, and how many bytes were captured.
pub proof fn a_frame_tells_its_time_and_length(f: PcapFormat, p: Seq<u8>)
    requires
        p.len() >= 16,
    ensures
        ({
            let h = frame_of(f, p);
            let secs = word(p, 0, f.big_endian);
            let part = word(p, 4, f.big_endian);
            &&& !f.nanos ==> h.ts_us == secs * 1_000_000 + part
            &&& f.nanos ==> (h.ts_us - secs * 1_000_000) * 1000 <= part < (h.ts_us - secs * 1_000_000)
                * 1000 + 1000
            &&& h.len == word(p, 8, f.big_endian)
        }),
{
}

} // verus!
