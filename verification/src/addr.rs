//! Network addresses and flows.
use crate::digits::{dec, hex, push_dec, push_hex};
use vstd::prelude::*;
use vstd::string::StringExecFns;

verus! {

/// An IP address, as the number that its octets write in network order.
#[derive(Clone, Copy, PartialEq, Eq, Structural, Debug)]
pub enum IpAddr {
    /// An IPv4 address.
    V4(u32),
    /// An IPv6 address.
    V6(u128),
}

/// An IP address and a port.
#[derive(Clone, Copy, PartialEq, Eq, Structural, Debug)]
pub struct SocketAddr {
    /// The address.
    pub ip: IpAddr,
    /// The port.
    pub port: u16,
}

/// A transport protocol.
#[derive(Clone, Copy, PartialEq, Eq, Structural, Debug)]
pub enum Proto {
    /// UDP.
    Udp,
    /// TCP.
    Tcp,
}

/// The directed flow that a packet belongs to.
#[derive(Clone, Copy, PartialEq, Eq, Structural, Debug)]
pub struct Flow5Tuple {
    /// The transport.
    pub proto: Proto,
    /// The sender.
    pub src: SocketAddr,
    /// The receiver.
    pub dst: SocketAddr,
}

/// An [`IpAddr`] in integers: whether it is IPv6, and its number. The order of
/// these pairs is the order of addresses: IPv4 before IPv6, then by octets.
pub type IpKey = (bool, u128);

/// A [`SocketAddr`] in integers.
pub type SockKey = (bool, u128, u16);

/// A [`Flow5Tuple`] in integers: whether it is TCP, sender, receiver.
pub type FlowKey = (bool, SockKey, SockKey);

impl IpAddr {
    /// The address in integers.
    pub open spec fn spec_key(self) -> IpKey {
        match self {
            IpAddr::V4(n) => (false, n as u128),
            IpAddr::V6(n) => (true, n),
        }
    }

    /// The address in integers.
    pub fn key(self) -> (r: IpKey)
        ensures
            r == self.spec_key(),
    {
        match self {
            IpAddr::V4(n) => (false, n as u128),
            IpAddr::V6(n) => (true, n),
        }
    }

    /// Whether `self` comes before `other` in the order of addresses.
    pub open spec fn before(self, other: IpAddr) -> bool {
        let a = self.spec_key();
        let b = other.spec_key();
        (!a.0 && b.0) || (a.0 == b.0 && a.1 < b.1)
    }
}

impl SocketAddr {
    /// The address in integers.
    pub open spec fn spec_key(self) -> SockKey {
        (self.ip.spec_key().0, self.ip.spec_key().1, self.port)
    }

    /// The address in integers.
    pub fn key(self) -> (r: SockKey)
        ensures
            r == self.spec_key(),
    {
        let k = self.ip.key();
        (k.0, k.1, self.port)
    }
}

impl Flow5Tuple {
    /// The flow in integers.
    pub open spec fn spec_key(self) -> FlowKey {
        (self.proto == Proto::Tcp, self.src.spec_key(), self.dst.spec_key())
    }

    /// The flow in integers.
    pub fn key(self) -> (r: FlowKey)
        ensures
            r == self.spec_key(),
    {
        (self.proto == Proto::Tcp, self.src.key(), self.dst.key())
    }

    /// The flow in the other direction.
    pub fn reverse(&self) -> (r: Flow5Tuple)
        ensures
            r.proto == self.proto,
            r.src == self.dst,
            r.dst == self.src,
    {
        Flow5Tuple { proto: self.proto, src: self.dst, dst: self.src }
    }
}

/// Equal keys are keys of equal addresses.
pub proof fn ip_key_is_injective(a: IpAddr, b: IpAddr)
    ensures
        a.spec_key() == b.spec_key() ==> a == b,
{
}

/// Equal keys are keys of equal socket addresses.
pub proof fn sock_key_is_injective(a: SocketAddr, b: SocketAddr)
    ensures
        a.spec_key() == b.spec_key() ==> a == b,
{
    ip_key_is_injective(a.ip, b.ip);
}

/// Equal keys are keys of equal flows.
pub proof fn flow_key_is_injective(a: Flow5Tuple, b: Flow5Tuple)
    ensures
        a.spec_key() == b.spec_key() ==> a == b,
{
    sock_key_is_injective(a.src, b.src);
    sock_key_is_injective(a.dst, b.dst);
}

/// Octet `i` of an IPv4 address, the leftmost first.
pub open spec fn octet(n: u32, i: int) -> u32 {
    (n >> ((24 - 8 * i) as u32)) & 0xff
}

/// The sixteen-bit group `i` of an IPv6 address, the leftmost first.
pub open spec fn group(n: u128, i: int) -> u128 {
    (n >> ((112 - 16 * i) as u128)) & 0xffff
}

/// How many groups from `i` on are zero.
pub open spec fn zero_run(n: u128, i: int) -> int
    decreases 8 - i,
{
    if i >= 8 || group(n, i) != 0 {
        0
    } else {
        1 + zero_run(n, i + 1)
    }
}

/// The first of `0..k` (or 0) that starts a run of zero groups no shorter than
/// any other of them.
pub open spec fn longest_run(n: u128, k: int) -> int
    decreases k,
{
    if k <= 0 {
        0
    } else if zero_run(n, k - 1) > zero_run(n, longest_run(n, k - 1)) {
        k - 1
    } else {
        longest_run(n, k - 1)
    }
}

/// Groups `lo..hi` in hexadecimal, joined by colons.
pub open spec fn groups_text(n: u128, lo: int, hi: int) -> Seq<char>
    decreases hi - lo,
{
    if hi <= lo {
        Seq::empty()
    } else if hi == lo + 1 {
        hex(group(n, lo) as nat)
    } else {
        groups_text(n, lo, hi - 1).push(':') + hex(group(n, hi - 1) as nat)
    }
}

/// An IPv4 address in dotted decimal.
pub open spec fn v4_text(n: u32) -> Seq<char> {
    dec(octet(n, 0) as nat).push('.') + dec(octet(n, 1) as nat).push('.') + dec(
        octet(n, 2) as nat,
    ).push('.') + dec(octet(n, 3) as nat)
}

/// An IPv6 address in its canonical text (RFC 5952).
pub open spec fn v6_text(n: u128) -> Seq<char> {
    let start = longest_run(n, 8);
    let run = zero_run(n, start);
    if (n >> 32u128) == 0xffff {
        "::ffff:"@ + v4_text((n & 0xffff_ffff) as u32)
    } else if run > 1 {
        groups_text(n, 0, start) + "::"@ + groups_text(n, start + run, 8)
    } else {
        groups_text(n, 0, 8)
    }
}

/// The text of an address.
pub open spec fn ip_text(ip: IpAddr) -> Seq<char> {
    match ip {
        IpAddr::V4(n) => v4_text(n),
        IpAddr::V6(n) => v6_text(n),
    }
}

/// The text of a socket address: an IPv6 address stands in brackets.
pub open spec fn sock_text(a: SocketAddr) -> Seq<char> {
    match a.ip {
        IpAddr::V4(n) => v4_text(n) + ":"@ + dec(a.port as nat),
        IpAddr::V6(n) => "["@ + v6_text(n) + "]:"@ + dec(a.port as nat),
    }
}

fn push_v4(out: &mut String, n: u32)
    ensures
        final(out)@ == old(out)@ + v4_text(n),
{
    proof {
        reveal_strlit(".");
    }
    push_dec(out, ((n >> 24u32) & 0xff) as u64);
    out.append(".");
    push_dec(out, ((n >> 16u32) & 0xff) as u64);
    out.append(".");
    push_dec(out, ((n >> 8u32) & 0xff) as u64);
    out.append(".");
    push_dec(out, ((n >> 0u32) & 0xff) as u64);
    assert(out@ =~= old(out)@ + v4_text(n));
}

fn group_at(n: u128, i: usize) -> (r: u64)
    requires
        i < 8,
    ensures
        r == group(n, i as int),
{
    let shift: u128 = 112 - 16 * (i as u128);
    let g: u128 = (n >> shift) & 0xffff;
    assert(g <= 0xffff) by (bit_vector)
        requires
            g == (n >> shift) & 0xffff,
    ;
    g as u64
}

fn run_at(n: u128, i: usize) -> (r: usize)
    requires
        i <= 8,
    ensures
        r == zero_run(n, i as int),
        i + r <= 8,
    decreases 8 - i,
{
    if i >= 8 || group_at(n, i) != 0 {
        0
    } else {
        1 + run_at(n, i + 1)
    }
}

fn push_groups(out: &mut String, n: u128, lo: usize, hi: usize)
    requires
        lo <= 8,
        hi <= 8,
    ensures
        final(out)@ == old(out)@ + groups_text(n, lo as int, hi as int),
    decreases hi,
{
    if hi > lo {
        if hi > lo + 1 {
            proof {
                reveal_strlit(":");
            }
            push_groups(out, n, lo, hi - 1);
            out.append(":");
        }
        push_hex(out, group_at(n, hi - 1));
    }
    assert(out@ =~= old(out)@ + groups_text(n, lo as int, hi as int));
}

fn push_v6(out: &mut String, n: u128)
    ensures
        final(out)@ == old(out)@ + v6_text(n),
{
    let mut start: usize = 0;
    let mut i: usize = 0;
    while i < 8
        invariant
            i <= 8,
            start < 8,
            start == longest_run(n, i as int),
        decreases 8 - i,
    {
        if run_at(n, i) > run_at(n, start) {
            start = i;
        }
        i += 1;
    }
    let run = run_at(n, start);
    if (n >> 32u128) == 0xffff {
        out.append("::ffff:");
        push_v4(out, (n & 0xffff_ffff) as u32);
    } else if run > 1 {
        push_groups(out, n, 0, start);
        out.append("::");
        push_groups(out, n, start + run, 8);
    } else {
        push_groups(out, n, 0, 8);
    }
    assert(out@ =~= old(out)@ + v6_text(n));
}

/// Appends the text of an address.
pub fn push_ip(out: &mut String, ip: IpAddr)
    ensures
        final(out)@ == old(out)@ + ip_text(ip),
{
    match ip {
        IpAddr::V4(n) => push_v4(out, n),
        IpAddr::V6(n) => push_v6(out, n),
    }
}

/// Appends the text of a socket address.
pub fn push_sock(out: &mut String, a: SocketAddr)
    ensures
        final(out)@ == old(out)@ + sock_text(a),
{
    match a.ip {
        IpAddr::V4(n) => {
            push_v4(out, n);
            out.append(":");
        },
        IpAddr::V6(n) => {
            out.append("[");
            push_v6(out, n);
            out.append("]:");
        },
    }
    push_dec(out, a.port as u64);
    assert(out@ =~= old(out)@ + sock_text(a));
}

impl IpAddr {
    /// The text of the address.
    pub fn to_text(self) -> (r: String)
        ensures
            r@ == ip_text(self),
    {
        let mut out = String::new();
        push_ip(&mut out, self);
        assert(out@ =~= ip_text(self));
        out
    }
}

impl SocketAddr {
    /// The text of the address.
    pub fn to_text(self) -> (r: String)
        ensures
            r@ == sock_text(self),
    {
        let mut out = String::new();
        push_sock(&mut out, self);
        assert(out@ =~= sock_text(self));
        out
    }
}

/// The octets of an address are its digits to the base 256, the highest first.
pub proof fn the_octets_make_the_address(n: u32)
    ensures
        n == octet(n, 0) * 0x100_0000 + octet(n, 1) * 0x1_0000 + octet(n, 2) * 0x100 + octet(n, 3),
        forall|i: int| 0 <= i < 4 ==> #[trigger] octet(n, i) <= 255,
{
    let a = octet(n, 0);
    let b = octet(n, 1);
    let c = octet(n, 2);
    let d = octet(n, 3);
    assert(a == (n >> 24u32) & 0xff && b == (n >> 16u32) & 0xff && c == (n >> 8u32) & 0xff && d == (n
        >> 0u32) & 0xff);
    assert(a <= 255 && b <= 255 && c <= 255 && d <= 255 && n == a * 0x100_0000 + b * 0x1_0000 + c
        * 0x100 + d) by (bit_vector)
        requires
            a == (n >> 24u32) & 0xff,
            b == (n >> 16u32) & 0xff,
            c == (n >> 8u32) & 0xff,
            d == (n >> 0u32) & 0xff,
    ;
    assert forall|i: int| 0 <= i < 4 implies #[trigger] octet(n, i) <= 255 by {
        assert(i == 0 || i == 1 || i == 2 || i == 3);
    }
}

/// An address of four octets is written as four numbers with dots between them.
pub proof fn four_octets_are_written_with_dots(a: u8, b: u8, c: u8, d: u8, n: u32)
    requires
        n == a * 0x100_0000 + b * 0x1_0000 + c * 0x100 + d,
    ensures
        v4_text(n) == dec(a as nat) + "."@ + dec(b as nat) + "."@ + dec(c as nat) + "."@ + dec(
            d as nat,
        ),
        ip_text(IpAddr::V4(n)) == v4_text(n),
{
    the_octets_make_the_address(n);
    let w = octet(n, 0);
    let x = octet(n, 1);
    let y = octet(n, 2);
    let z = octet(n, 3);
    assert(w <= 255 && x <= 255 && y <= 255 && z <= 255);
    assert(w == a && x == b && y == c && z == d);
    reveal_strlit(".");
    assert(v4_text(n) =~= dec(a as nat) + "."@ + dec(b as nat) + "."@ + dec(c as nat) + "."@ + dec(
        d as nat,
    ));
}

/// An address with a port is written with a colon before the port; an address of
/// sixteen bytes stands in brackets.
pub proof fn a_port_is_written_behind_a_colon(n: u32, m: u128, port: u16)
    ensures
        sock_text(SocketAddr { ip: IpAddr::V4(n), port }) == v4_text(n) + ":"@ + dec(port as nat),
        sock_text(SocketAddr { ip: IpAddr::V6(m), port }) == "["@ + ip_text(IpAddr::V6(m)) + "]:"@
            + dec(port as nat),
{
}

/// A run of groups is of zeros, up to a group that is none or the last group.
pub proof fn a_run_is_of_zeros(n: u128, i: int)
    requires
        0 <= i <= 8,
    ensures
        0 <= zero_run(n, i) <= 8 - i,
        forall|j: int| i <= j < i + zero_run(n, i) ==> #[trigger] group(n, j) == 0,
        i + zero_run(n, i) < 8 ==> group(n, i + zero_run(n, i)) != 0,
    decreases 8 - i,
{
    if i < 8 && group(n, i) == 0 {
        a_run_is_of_zeros(n, i + 1);
    }
}

proof fn lemma_longest_run(n: u128, k: int)
    requires
        0 <= k <= 8,
    ensures
        0 <= longest_run(n, k) < 8,
        k > 0 ==> longest_run(n, k) < k,
        forall|i: int|
            0 <= i < k ==> #[trigger] zero_run(n, i) <= zero_run(n, longest_run(n, k)),
        forall|i: int|
            0 <= i < longest_run(n, k) ==> #[trigger] zero_run(n, i) < zero_run(n, longest_run(n, k)),
    decreases k,
{
    if k > 0 {
        lemma_longest_run(n, k - 1);
    }
}

/// The run that is left out is the longest, and the first of the longest.
pub proof fn the_first_longest_run_is_left_out(n: u128)
    ensures
        0 <= longest_run(n, 8) < 8,
        forall|i: int| 0 <= i < 8 ==> #[trigger] zero_run(n, i) <= zero_run(n, longest_run(n, 8)),
        forall|i: int|
            0 <= i < longest_run(n, 8) ==> #[trigger] zero_run(n, i) < zero_run(n, longest_run(n, 8)),
{
    lemma_longest_run(n, 8);
}

/// An address of sixteen bytes that stands for one of four is written with that. Of
/// any other the groups are written in hexadecimal with colons between them, and the
/// longest run of zeros, of two groups or more, as two colons.
pub proof fn groups_are_written_with_colons(n: u128)
    ensures
        n as int / 0x1_0000_0000 == 0xffff ==> ip_text(IpAddr::V6(n)) == "::ffff:"@ + v4_text(
            (n as int % 0x1_0000_0000) as u32,
        ),
        n as int / 0x1_0000_0000 != 0xffff ==> {
            let at = longest_run(n, 8);
            let run = zero_run(n, at);
            &&& run >= 2 ==> ip_text(IpAddr::V6(n)) == groups_text(n, 0, at) + "::"@ + groups_text(
                n,
                at + run,
                8,
            )
            &&& run < 2 ==> ip_text(IpAddr::V6(n)) == groups_text(n, 0, 8)
        },
        groups_text(n, 0, 2) == hex(group(n, 0) as nat) + ":"@ + hex(group(n, 1) as nat),
{
    let high = n >> 32u128;
    let low = n & 0xffff_ffff;
    assert(high == n / 0x1_0000_0000 && low == n % 0x1_0000_0000 && low <= 0xffff_ffff)
        by (bit_vector)
        requires
            high == n >> 32u128,
            low == n & 0xffff_ffff,
    ;
    reveal_strlit(":");
    reveal_with_fuel(groups_text, 3);
    assert(groups_text(n, 0, 2) =~= hex(group(n, 0) as nat) + ":"@ + hex(group(n, 1) as nat));
}

/// Groups in a row are written one after the other with a colon between them.
pub proof fn one_group_more_is_written_behind_a_colon(n: u128, lo: int, hi: int)
    requires
        0 <= lo < hi <= 8,
    ensures
        hi == lo + 1 ==> groups_text(n, lo, hi) == hex(group(n, lo) as nat),
        hi > lo + 1 ==> groups_text(n, lo, hi) == groups_text(n, lo, hi - 1) + ":"@ + hex(
            group(n, hi - 1) as nat,
        ),
        groups_text(n, lo, lo).len() == 0,
{
    reveal_strlit(":");
    if hi > lo + 1 {
        assert(groups_text(n, lo, hi) =~= groups_text(n, lo, hi - 1) + ":"@ + hex(
            group(n, hi - 1) as nat,
        ));
    }
}

/// Addresses come in order: those of four bytes before those of sixteen, and each
/// kind by its number.
pub proof fn addresses_are_ordered_by_number(a: u32, b: u32, x: u128, y: u128)
    ensures
        IpAddr::V4(a).before(IpAddr::V4(b)) <==> a < b,
        IpAddr::V6(x).before(IpAddr::V6(y)) <==> x < y,
        IpAddr::V4(a).before(IpAddr::V6(x)),
        !IpAddr::V6(x).before(IpAddr::V4(a)),
{
}

} // verus!
