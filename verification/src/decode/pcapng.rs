//! The blocks of the pcapng file format.
use crate::decode::pcap::{read_word, word};
use vstd::prelude::*;

verus! {

/// The kind of the block that opens a section.
pub const SECTION_BLOCK: u32 = 0x0a0d_0d0a;

/// The kind of the block that describes an interface.
pub const INTERFACE_BLOCK: u32 = 1;

/// The kind of the block that holds a packet.
pub const PACKET_BLOCK: u32 = 6;

/// The option of an interface that tells the unit of its times.
pub const TIME_UNIT_OPTION: u16 = 9;

/// An interface of a section.
#[derive(Clone, Copy, PartialEq, Eq, Structural, Debug)]
pub struct Interface {
    /// The link type of its frames.
    pub link: u32,
    /// How many units of time make a second; not zero.
    pub per_second: u64,
}

/// A packet of a section.
#[derive(Clone, Copy, PartialEq, Eq, Structural, Debug)]
pub struct Packet {
    /// The number of its interface.
    pub interface: u32,
    /// Capture time in units of its interface.
    pub time: u64,
    /// Where its bytes start in the block's body.
    pub lo: usize,
    /// Where they end.
    pub hi: usize,
}

/// The number that two bytes write.
pub open spec fn half(p: Seq<u8>, i: int, big_endian: bool) -> int {
    if big_endian {
        p[i] as int * 0x100 + p[i + 1] as int
    } else {
        p[i] as int + p[i + 1] as int * 0x100
    }
}

/// Whether numbers are written with the highest byte first in the section that a
/// file's bytes open; none where they open no section.
pub open spec fn section_order(p: Seq<u8>) -> Option<bool> {
    if p.len() < 12 || word(p, 0, true) != SECTION_BLOCK {
        None
    } else if word(p, 8, true) == 0x1a2b_3c4d {
        Some(true)
    } else if word(p, 8, false) == 0x1a2b_3c4d {
        Some(false)
    } else {
        None
    }
}

/// Where the value of an option starts, and its length, in the options from
/// position `i` on.
pub open spec fn option_at(p: Seq<u8>, big_endian: bool, code: u16, i: int) -> Option<(int, int)>
    decreases p.len() - i,
{
    if i < 0 || i + 4 > p.len() {
        None
    } else {
        let n = half(p, i + 2, big_endian);
        if half(p, i, big_endian) == 0 || n < 0 || i + 4 + n > p.len() {
            None
        } else if half(p, i, big_endian) == code {
            Some((i + 4, n))
        } else if i + 4 + (n + 3) / 4 * 4 > p.len() {
            None
        } else {
            option_at(p, big_endian, code, i + 4 + (n + 3) / 4 * 4)
        }
    }
}

/// `base` to the power of `n`.
pub open spec fn power(base: int, n: int) -> int
    decreases n,
{
    if n <= 0 {
        1
    } else {
        power(base, n - 1) * base
    }
}

/// How many units of time make a second: a power of two where the highest bit is
/// set, else one of ten. None where there are too many.
pub open spec fn units(b: u8) -> Option<u64> {
    let n = if b >= 128 {
        power(2, b - 128)
    } else {
        power(10, b as int)
    };
    if n <= u64::MAX {
        Some(n as u64)
    } else {
        None
    }
}

/// The interface that the body of a block describes. Times are in microseconds
/// where nothing else is said.
pub open spec fn interface_of(p: Seq<u8>, big_endian: bool) -> Option<Interface> {
    if p.len() < 8 {
        None
    } else {
        let link = half(p, 0, big_endian) as u32;
        match option_at(p, big_endian, TIME_UNIT_OPTION, 8) {
            Some((v, n)) if n >= 1 => match units(p[v]) {
                Some(per_second) => Some(Interface { link, per_second }),
                None => None,
            },
            _ => Some(Interface { link, per_second: 1_000_000 }),
        }
    }
}

/// The packet that the body of a block holds.
pub open spec fn packet_of(p: Seq<u8>, big_endian: bool) -> Option<Packet> {
    if p.len() < 20 || 20 + word(p, 12, big_endian) > p.len() {
        None
    } else {
        Some(
            Packet {
                interface: word(p, 0, big_endian) as u32,
                time: (word(p, 4, big_endian) * 0x1_0000_0000 + word(p, 8, big_endian)) as u64,
                lo: 20,
                hi: (20 + word(p, 12, big_endian)) as usize,
            },
        )
    }
}

/// A time in microseconds; none where it does not fit.
pub open spec fn micros_of(time: u64, per_second: u64) -> Option<u64> {
    let us = time as int * 1_000_000 / per_second as int;
    if us <= u64::MAX {
        Some(us as u64)
    } else {
        None
    }
}

fn read_half(p: &[u8], i: usize, big_endian: bool) -> (r: u16)
    requires
        i + 2 <= p.len(),
    ensures
        r == half(p@, i as int, big_endian),
{
    if big_endian {
        p[i] as u16 * 0x100 + p[i + 1] as u16
    } else {
        p[i] as u16 + p[i + 1] as u16 * 0x100
    }
}

/// Whether numbers are written with the highest byte first in the section that a
/// file's bytes open; none where they open no section.
pub fn opens_section(head: &[u8]) -> (r: Option<bool>)
    ensures
        r == section_order(head@),
{
    if head.len() < 12 || read_word(head, 0, true) != SECTION_BLOCK {
        None
    } else if read_word(head, 8, true) == 0x1a2b_3c4d {
        Some(true)
    } else if read_word(head, 8, false) == 0x1a2b_3c4d {
        Some(false)
    } else {
        None
    }
}

fn find_option(p: &[u8], big_endian: bool, code: u16, from: usize) -> (r: Option<(usize, usize)>)
    requires
        from <= p.len(),
    ensures
        match r {
            Some(x) => {
                &&& option_at(p@, big_endian, code, from as int) == Some((x.0 as int, x.1 as int))
                &&& x.0 + x.1 <= p.len()
            },
            None => option_at(p@, big_endian, code, from as int) is None,
        },
{
    let len = p.len();
    let mut i: usize = from;
    while i <= len && len - i >= 4
        invariant
            len == p.len(),
            i <= len,
            option_at(p@, big_endian, code, from as int) == option_at(
                p@,
                big_endian,
                code,
                i as int,
            ),
        decreases len - i,
    {
        let kind = read_half(p, i, big_endian);
        let n: usize = read_half(p, i + 2, big_endian) as usize;
        if kind == 0 || n > len - i - 4 {
            return None;
        }
        if kind == code {
            return Some((i + 4, n));
        }
        let step: usize = (n + 3) / 4 * 4;
        if step > len - i - 4 {
            return None;
        }
        i = i + 4 + step;
    }
    None
}

proof fn lemma_power_grows(base: int, i: int, n: int)
    requires
        base >= 1,
        i <= n,
    ensures
        1 <= power(base, i) <= power(base, n),
    decreases n,
{
    if n > 0 {
        if i < n {
            lemma_power_grows(base, i, n - 1);
        } else {
            lemma_power_grows(base, n - 1, n - 1);
        }
        let v = power(base, n - 1);
        assert(v <= v * base) by (nonlinear_arith)
            requires
                v >= 1,
                base >= 1,
        ;
    }
}

fn read_units(b: u8) -> (r: Option<u64>)
    ensures
        r == units(b),
        r matches Some(n) ==> n >= 1,
{
    let (base, n): (u64, u8) = if b >= 128 {
        (2, b - 128)
    } else {
        (10, b)
    };
    let mut r: u64 = 1;
    let mut i: u8 = 0;
    while i < n
        invariant
            i <= n,
            base == 2 || base == 10,
            r == power(base as int, i as int),
            units(b) == if power(base as int, n as int) <= u64::MAX {
                Some(power(base as int, n as int) as u64)
            } else {
                None
            },
        decreases n - i,
    {
        proof {
            lemma_power_grows(base as int, i + 1, n as int);
        }
        r = match r.checked_mul(base) {
            Some(x) => x,
            None => {
                return None;
            },
        };
        i += 1;
    }
    proof {
        lemma_power_grows(base as int, 0, n as int);
    }
    Some(r)
}

/// Reads the interface that the body of a block describes.
pub fn read_interface(body: &[u8], big_endian: bool) -> (r: Option<Interface>)
    ensures
        r == interface_of(body@, big_endian),
        r matches Some(f) ==> f.per_second > 0,
{
    if body.len() < 8 {
        return None;
    }
    let link = read_half(body, 0, big_endian) as u32;
    if let Some((v, n)) = find_option(body, big_endian, TIME_UNIT_OPTION, 8) {
        if n >= 1 {
            return match read_units(body[v]) {
                Some(per_second) => Some(Interface { link, per_second }),
                None => None,
            };
        }
    }
    Some(Interface { link, per_second: 1_000_000 })
}

/// Reads the packet that the body of a block holds.
pub fn read_packet(body: &[u8], big_endian: bool) -> (r: Option<Packet>)
    ensures
        r == packet_of(body@, big_endian),
        r matches Some(x) ==> x.lo <= x.hi <= body.len(),
{
    let len = body.len();
    if len < 20 {
        return None;
    }
    let n: u32 = read_word(body, 12, big_endian);
    if n as u64 > (len - 20) as u64 {
        return None;
    }
    let high: u64 = read_word(body, 4, big_endian) as u64;
    let low: u64 = read_word(body, 8, big_endian) as u64;
    Some(
        Packet {
            interface: read_word(body, 0, big_endian),
            time: high * 0x1_0000_0000 + low,
            lo: 20,
            hi: 20 + n as usize,
        },
    )
}

/// A time in microseconds; none where it does not fit.
pub fn to_micros(time: u64, per_second: u64) -> (r: Option<u64>)
    requires
        per_second > 0,
    ensures
        r == micros_of(time, per_second),
{
    let us: u128 = time as u128 * 1_000_000 / per_second as u128;
    if us <= u64::MAX as u128 {
        Some(us as u64)
    } else {
        None
    }
}

/// A section starts with its kind and tells its byte order by how it writes a known
/// number.
pub proof fn a_section_tells_its_byte_order(p: Seq<u8>)
    ensures
        section_order(p) == Some(true) <==> p.len() >= 12 && p[0] == 10 && p[1] == 13 && p[2] == 13
            && p[3] == 10 && p[8] == 0x1a && p[9] == 0x2b && p[10] == 0x3c && p[11] == 0x4d,
        section_order(p) == Some(false) <==> p.len() >= 12 && p[0] == 10 && p[1] == 13 && p[2] == 13
            && p[3] == 10 && p[8] == 0x4d && p[9] == 0x3c && p[10] == 0x2b && p[11] == 0x1a,
{
}

/// An option is a code, a length and as many bytes, with the next one behind it at a
/// multiple of four. The search ends at the code, at the end mark, or where the bytes
/// end.
pub proof fn an_option_is_code_length_and_value(
    p: Seq<u8>,
    big_endian: bool,
    code: u16,
    i: int,
    next: int,
)
    requires
        0 <= i,
        i + 4 <= p.len(),
        code != 0,
        ({
            let n = half(p, i + 2, big_endian);
            i + 4 + n <= next < i + 8 + n && (next - i) % 4 == 0
        }),
    ensures
        ({
            let c = half(p, i, big_endian);
            let n = half(p, i + 2, big_endian);
            &&& c == 0 ==> option_at(p, big_endian, code, i) is None
            &&& c == code && i + 4 + n <= p.len() ==> option_at(p, big_endian, code, i) == Some(
                (i + 4, n),
            )
            &&& i + 4 + n > p.len() ==> option_at(p, big_endian, code, i) is None
            &&& c != 0 && c != code && next <= p.len() ==> option_at(p, big_endian, code, i)
                == option_at(p, big_endian, code, next)
        }),
{
    let n = half(p, i + 2, big_endian);
    assert((n + 3) / 4 * 4 == next - i - 4);
}

/// A half word is two bytes, the first the most worth or the least.
pub proof fn a_half_word_is_two_bytes(p: Seq<u8>, i: int)
    ensures
        half(p, i, true) == p[i] * 256 + p[i + 1],
        half(p, i, false) == p[i + 1] * 256 + p[i],
{
}

/// Units of time go by powers of ten, or of two where the top bit is set.
pub proof fn units_are_powers(b: u8, n: int)
    requires
        n == if b >= 128 {
            vstd::arithmetic::power::pow(2, (b - 128) as nat)
        } else {
            vstd::arithmetic::power::pow(10, b as nat)
        },
    ensures
        n <= u64::MAX ==> units(b) is Some && units(b)->0 == n,
        n > u64::MAX ==> units(b) is None,
{
    if b >= 128 {
        lemma_power_is_pow(2, b - 128);
        vstd::arithmetic::power::lemma_pow_positive(2, (b - 128) as nat);
    } else {
        lemma_power_is_pow(10, b as int);
        vstd::arithmetic::power::lemma_pow_positive(10, b as nat);
    }
}

proof fn lemma_power_is_pow(base: int, n: int)
    requires
        n >= 0,
    ensures
        power(base, n) == vstd::arithmetic::power::pow(base, n as nat),
    decreases n,
{
    reveal(vstd::arithmetic::power::pow);
    if n > 0 {
        lemma_power_is_pow(base, n - 1);
        assert(power(base, n - 1) * base == base * power(base, n - 1)) by (nonlinear_arith);
    }
}

/// An interface tells its link in its first two bytes. Its times are in microseconds
/// unless its option of code 9 says otherwise.
pub proof fn an_interface_tells_its_link_and_unit(p: Seq<u8>, big_endian: bool)
    ensures
        p.len() < 8 ==> interface_of(p, big_endian) is None,
        interface_of(p, big_endian) matches Some(i) ==> i.link == half(p, 0, big_endian),
        p.len() >= 8 && option_at(p, big_endian, 9, 8) is None ==> interface_of(p, big_endian) is Some
            && interface_of(p, big_endian)->0.per_second == 1_000_000,
        p.len() >= 8 ==> (option_at(p, big_endian, 9, 8) matches Some((v, n)) ==> {
            &&& n >= 1 ==> (interface_of(p, big_endian) is Some <==> units(p[v]) is Some)
            &&& n >= 1 && units(p[v]) is Some ==> interface_of(p, big_endian)->0.per_second == units(
                p[v],
            )->0
            &&& n < 1 ==> interface_of(p, big_endian) is Some && interface_of(
                p,
                big_endian,
            )->0.per_second == 1_000_000
        }),
{
}

/// A packet names its interface, its time in two words, the higher first, and its
/// bytes, which stand behind twenty bytes of header.
pub proof fn a_packet_tells_its_time_and_bytes(p: Seq<u8>, big_endian: bool)
    requires
        p.len() <= usize::MAX,
    ensures
        packet_of(p, big_endian) is Some <==> p.len() >= 20 && 20 + word(p, 12, big_endian) <= p.len(),
        packet_of(p, big_endian) matches Some(k) ==> {
            &&& k.interface == word(p, 0, big_endian)
            &&& k.time as int / 0x1_0000_0000 == word(p, 4, big_endian)
            &&& k.time as int % 0x1_0000_0000 == word(p, 8, big_endian)
            &&& k.lo == 20
            &&& k.hi - k.lo == word(p, 12, big_endian)
        },
{
}

/// A time in units is the same time in whole microseconds, as long as that can be
/// told.
pub proof fn a_time_is_told_in_microseconds(time: u64, per_second: u64)
    requires
        per_second > 0,
    ensures
        micros_of(time, per_second) matches Some(us) ==> us * per_second <= time * 1_000_000 < (us
            + 1) * per_second,
        micros_of(time, per_second) is None ==> time * 1_000_000 > u64::MAX * per_second,
{
    let t = time as int * 1_000_000;
    let d = per_second as int;
    let us = t / d;
    assert(us * d <= t < (us + 1) * d && us >= 0) by (nonlinear_arith)
        requires
            us == t / d,
            d > 0,
            t >= 0,
    ;
    if us > u64::MAX {
        assert(us * d > u64::MAX * d) by (nonlinear_arith)
            requires
                us > u64::MAX,
                d > 0,
        ;
    }
}

} // verus!
