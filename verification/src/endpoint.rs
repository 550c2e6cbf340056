//! Addresses and ports read from text.
use crate::addr::{octet, sock_text, the_octets_make_the_address, v4_text, IpAddr, SocketAddr};
use crate::digits::{
    a_value_goes_digit_by_digit, dec, dec_value, digit, hex, is_digit,
    reading_a_number_undoes_writing_it,
};
use crate::text::{
    a_search_ends_at_the_first, a_text_is_found_where_it_first_stands, chars_of, find_any, find_in,
    find_seq, find_text, letters_at, Range, Span,
};
use vstd::prelude::*;

verus! {

/// What a character is worth as a digit; sixteen where it is none.
pub open spec fn worth(c: char) -> int {
    if '0' <= c <= '9' {
        c as int - '0' as int
    } else if 'a' <= c <= 'f' {
        c as int - 'a' as int + 10
    } else if 'A' <= c <= 'F' {
        c as int - 'A' as int + 10
    } else {
        16
    }
}

/// Whether every character of `lo..hi` is a digit in a base.
pub open spec fn digits_in(s: Seq<char>, base: int, lo: int, hi: int) -> bool {
    forall|i: int| lo <= i < hi ==> worth(#[trigger] s[i]) < base
}

/// The number that the digits of `lo..hi` write in a base.
pub open spec fn value_in(s: Seq<char>, base: int, lo: int, hi: int) -> int
    decreases hi - lo,
{
    if hi <= lo {
        0
    } else {
        value_in(s, base, lo, hi - 1) * base + worth(s[hi - 1])
    }
}

/// The number, at most `max`, that a span writes in a base.
pub open spec fn number_in(s: Seq<char>, base: int, max: int, r: Range) -> Option<int> {
    if r.lo < r.hi && digits_in(s, base, r.lo, r.hi) && value_in(s, base, r.lo, r.hi) <= max {
        Some(value_in(s, base, r.lo, r.hi))
    } else {
        None
    }
}

/// The octet that a span writes: up to three decimal digits without a leading
/// zero.
pub open spec fn octet_in(s: Seq<char>, r: Range) -> Option<int> {
    if r.hi - r.lo <= 3 && (r.hi - r.lo == 1 || s[r.lo] != '0') {
        number_in(s, 10, 255, r)
    } else {
        None
    }
}

/// The IPv4 address that a span writes: four octets with dots between them.
pub open spec fn v4_in(s: Seq<char>, r: Range) -> Option<u32> {
    let a = find_in(s, seq!['.'], r.lo, r.hi);
    let b = find_in(s, seq!['.'], a + 1, r.hi);
    let c = find_in(s, seq!['.'], b + 1, r.hi);
    if c < r.hi {
        match (
            octet_in(s, Range { lo: r.lo, hi: a }),
            octet_in(s, Range { lo: a + 1, hi: b }),
            octet_in(s, Range { lo: b + 1, hi: c }),
            octet_in(s, Range { lo: c + 1, hi: r.hi }),
        ) {
            (Some(w), Some(x), Some(y), Some(z)) => Some(
                (w * 0x100_0000 + x * 0x1_0000 + y * 0x100 + z) as u32,
            ),
            _ => None,
        }
    } else {
        None
    }
}

/// The group of an IPv6 address that a span writes: up to four hexadecimal
/// digits.
pub open spec fn group_in(s: Seq<char>, r: Range) -> Option<u16> {
    if r.hi - r.lo <= 4 {
        match number_in(s, 16, 0xffff, r) {
            Some(n) => Some(n as u16),
            None => None,
        }
    } else {
        None
    }
}

/// The groups that a span writes with colons between them. Where `v4`, the last
/// two can be an IPv4 address.
pub open spec fn groups_in(s: Seq<char>, v4: bool, r: Range) -> Option<Seq<u16>>
    decreases r.hi - r.lo,
{
    let e = find_in(s, seq![':'], r.lo, r.hi);
    let first = Range { lo: r.lo, hi: e };
    if e >= r.hi || e < r.lo {
        match (group_in(s, r), v4_in(s, r)) {
            (Some(g), _) => Some(seq![g]),
            (None, Some(n)) if v4 => Some(seq![(n / 0x1_0000) as u16, (n % 0x1_0000) as u16]),
            _ => None,
        }
    } else {
        match (group_in(s, first), groups_in(s, v4, Range { lo: e + 1, hi: r.hi })) {
            (Some(g), Some(rest)) => Some(seq![g] + rest),
            _ => None,
        }
    }
}

/// The groups that a span writes; none where it is empty.
pub open spec fn some_groups(s: Seq<char>, v4: bool, r: Range) -> Option<Seq<u16>> {
    if r.lo >= r.hi {
        Some(Seq::empty())
    } else {
        groups_in(s, v4, r)
    }
}

/// The IPv6 address of eight groups.
pub open spec fn v6_of(g: Seq<u16>) -> u128 {
    (g[0] * 0x1_0000_0000_0000_0000_0000_0000_0000 + g[1] * 0x1_0000_0000_0000_0000_0000_0000 + g[2]
        * 0x1_0000_0000_0000_0000_0000 + g[3] * 0x1_0000_0000_0000_0000 + g[4] * 0x1_0000_0000_0000
        + g[5] * 0x1_0000_0000 + g[6] * 0x1_0000 + g[7]) as u128
}

/// The IPv6 address that a span writes: eight groups, or fewer with `::` once in
/// place of the zeros between them.
pub open spec fn v6_in(s: Seq<char>, r: Range) -> Option<u128> {
    let gap = find_text(s, seq![':', ':'], false, r.lo, r.hi);
    if gap > r.hi {
        match groups_in(s, true, r) {
            Some(g) if g.len() == 8 => Some(v6_of(g)),
            _ => None,
        }
    } else {
        match (
            some_groups(s, false, Range { lo: r.lo, hi: gap }),
            some_groups(s, true, Range { lo: gap + 2, hi: r.hi }),
        ) {
            (Some(a), Some(b)) if a.len() + b.len() <= 7 => Some(
                v6_of(a + Seq::new((8 - a.len() - b.len()) as nat, |i: int| 0u16) + b),
            ),
            _ => None,
        }
    }
}

/// The address and port that a span writes: an IPv4 address, or an IPv6 address
/// in brackets, then a colon and the port. A zone behind an IPv6 address is
/// read, and left out.
pub open spec fn sock_in(s: Seq<char>, r: Range) -> Option<SocketAddr> {
    if r.lo < r.hi && s[r.lo] == '[' {
        let e = find_in(s, seq![']'], r.lo + 1, r.hi);
        let z = find_in(s, seq!['%'], r.lo + 1, e);
        if e + 1 < r.hi && s[e + 1] == ':' && (z == e || number_in(
            s,
            10,
            u32::MAX as int,
            Range { lo: z + 1, hi: e },
        ) is Some) {
            match (
                v6_in(s, Range { lo: r.lo + 1, hi: z }),
                number_in(s, 10, 0xffff, Range { lo: e + 2, hi: r.hi }),
            ) {
                (Some(n), Some(p)) => Some(SocketAddr { ip: IpAddr::V6(n), port: p as u16 }),
                _ => None,
            }
        } else {
            None
        }
    } else {
        let c = find_in(s, seq![':'], r.lo, r.hi);
        match (
            v4_in(s, Range { lo: r.lo, hi: c }),
            number_in(s, 10, 0xffff, Range { lo: c + 1, hi: r.hi }),
        ) {
            (Some(n), Some(p)) => Some(SocketAddr { ip: IpAddr::V4(n), port: p as u16 }),
            _ => None,
        }
    }
}

fn digit_worth(c: char) -> (r: u32)
    ensures
        r == worth(c),
{
    if '0' <= c && c <= '9' {
        (c as u8 - '0' as u8) as u32
    } else if 'a' <= c && c <= 'f' {
        (c as u8 - 'a' as u8) as u32 + 10
    } else if 'A' <= c && c <= 'F' {
        (c as u8 - 'A' as u8) as u32 + 10
    } else {
        16
    }
}

proof fn lemma_value_grows(s: Seq<char>, base: int, lo: int, mid: int, hi: int)
    requires
        1 <= base,
        0 <= lo <= mid <= hi,
    ensures
        0 <= value_in(s, base, lo, mid) <= value_in(s, base, lo, hi),
    decreases hi - lo,
{
    if mid < hi {
        lemma_value_grows(s, base, lo, mid, hi - 1);
        let v = value_in(s, base, lo, hi - 1);
        assert(v <= v * base) by (nonlinear_arith)
            requires
                0 <= v,
                1 <= base,
        ;
    } else if lo < hi {
        lemma_value_grows(s, base, lo, hi - 1, hi - 1);
        let v = value_in(s, base, lo, hi - 1);
        assert(0 <= v * base) by (nonlinear_arith)
            requires
                0 <= v,
                1 <= base,
        ;
    }
}

fn read_number(s: &Vec<char>, base: u32, max: u32, r: Span) -> (n: Option<u32>)
    requires
        r@.within(s@.len()),
        2 <= base <= 16,
    ensures
        match n {
            Some(x) => number_in(s@, base as int, max as int, r@) == Some(x as int),
            None => number_in(s@, base as int, max as int, r@) is None,
        },
{
    if r.lo >= r.hi {
        return None;
    }
    let mut i: usize = r.lo;
    let mut n: u64 = 0;
    while i < r.hi
        invariant
            r.lo <= i <= r.hi <= s@.len(),
            2 <= base <= 16,
            digits_in(s@, base as int, r.lo as int, i as int),
            n == value_in(s@, base as int, r.lo as int, i as int),
            n <= max,
        decreases r.hi - i,
    {
        let d = digit_worth(s[i]);
        if d >= base {
            assert(worth(s@[i as int]) >= base);
            return None;
        }
        assert(n * base <= 0xffff_ffff * 16) by (nonlinear_arith)
            requires
                n <= 0xffff_ffff,
                base <= 16,
        ;
        n = n * base as u64 + d as u64;
        i += 1;
        assert(n == value_in(s@, base as int, r.lo as int, i as int));
        if n > max as u64 {
            proof {
                lemma_value_grows(s@, base as int, r.lo as int, i as int, r.hi as int);
            }
            return None;
        }
    }
    Some(n as u32)
}

fn read_octet(s: &Vec<char>, r: Span) -> (n: Option<u32>)
    requires
        r@.within(s@.len()),
    ensures
        match n {
            Some(x) => octet_in(s@, r@) == Some(x as int) && x <= 255,
            None => octet_in(s@, r@) is None,
        },
{
    if r.lo < r.hi && r.hi - r.lo <= 3 && (r.hi - r.lo == 1 || s[r.lo] != '0') {
        read_number(s, 10, 255, r)
    } else {
        None
    }
}

fn read_v4(s: &Vec<char>, r: Span) -> (n: Option<u32>)
    requires
        r@.within(s@.len()),
    ensures
        n == v4_in(s@, r@),
{
    assert(['.']@ =~= seq!['.']);
    let a = find_any(s, &['.'], r.lo, r.hi);
    if a >= r.hi {
        return None;
    }
    let b = find_any(s, &['.'], a + 1, r.hi);
    if b >= r.hi {
        return None;
    }
    let c = find_any(s, &['.'], b + 1, r.hi);
    if c >= r.hi {
        return None;
    }
    match (
        read_octet(s, Span { lo: r.lo, hi: a }),
        read_octet(s, Span { lo: a + 1, hi: b }),
        read_octet(s, Span { lo: b + 1, hi: c }),
        read_octet(s, Span { lo: c + 1, hi: r.hi }),
    ) {
        (Some(w), Some(x), Some(y), Some(z)) => Some(
            w * 0x100_0000 + x * 0x1_0000 + y * 0x100 + z,
        ),
        _ => None,
    }
}

fn read_group(s: &Vec<char>, r: Span) -> (n: Option<u16>)
    requires
        r@.within(s@.len()),
    ensures
        n == group_in(s@, r@),
{
    if r.hi - r.lo > 4 {
        return None;
    }
    match read_number(s, 16, 0xffff, r) {
        Some(x) => Some(x as u16),
        None => None,
    }
}

fn read_groups(s: &Vec<char>, v4: bool, r: Span) -> (g: Option<Vec<u16>>)
    requires
        r@.within(s@.len()),
    ensures
        match g {
            Some(x) => groups_in(s@, v4, r@) == Some(x@),
            None => groups_in(s@, v4, r@) is None,
        },
{
    let mut out: Vec<u16> = Vec::new();
    let mut lo: usize = r.lo;
    assert([':']@ =~= seq![':']);
    assert(groups_in(s@, v4, r@) matches Some(x) ==> out@ + x =~= x);
    loop
        invariant
            r.lo <= lo <= r.hi <= s@.len(),
            [':']@ == seq![':'],
            match groups_in(s@, v4, Range { lo: lo as int, hi: r.hi as int }) {
                Some(rest) => groups_in(s@, v4, r@) == Some(out@ + rest),
                None => groups_in(s@, v4, r@) is None,
            },
        decreases r.hi - lo,
    {
        let e = find_any(s, &[':'], lo, r.hi);
        let ghost now = Range { lo: lo as int, hi: r.hi as int };
        let ghost was = out@;
        if e >= r.hi {
            if let Some(x) = read_group(s, Span { lo, hi: r.hi }) {
                out.push(x);
                assert(out@ =~= was + seq![x]);
                return Some(out);
            }
            if !v4 {
                return None;
            }
            return match read_v4(s, Span { lo, hi: r.hi }) {
                Some(n) => {
                    out.push((n / 0x1_0000) as u16);
                    out.push((n % 0x1_0000) as u16);
                    assert(out@ =~= was + seq![(n / 0x1_0000) as u16, (n % 0x1_0000) as u16]);
                    Some(out)
                },
                None => None,
            };
        }
        match read_group(s, Span { lo, hi: e }) {
            Some(x) => {
                out.push(x);
                proof {
                    let rest = groups_in(s@, v4, Range { lo: e + 1, hi: r.hi as int });
                    if let Some(t) = rest {
                        assert(groups_in(s@, v4, now) == Some(seq![x] + t));
                        assert(was + (seq![x] + t) =~= out@ + t);
                    }
                }
            },
            None => {
                return None;
            },
        }
        lo = e + 1;
    }
}

fn read_some_groups(s: &Vec<char>, v4: bool, r: Span) -> (g: Option<Vec<u16>>)
    requires
        r@.within(s@.len()),
    ensures
        match g {
            Some(x) => some_groups(s@, v4, r@) == Some(x@),
            None => some_groups(s@, v4, r@) is None,
        },
{
    if r.lo >= r.hi {
        let none: Vec<u16> = Vec::new();
        assert(none@ =~= Seq::<u16>::empty());
        Some(none)
    } else {
        read_groups(s, v4, r)
    }
}

fn join_groups(g: &Vec<u16>) -> (r: u128)
    requires
        g@.len() == 8,
    ensures
        r == v6_of(g@),
{
    g[0] as u128 * 0x1_0000_0000_0000_0000_0000_0000_0000 + g[1] as u128
        * 0x1_0000_0000_0000_0000_0000_0000 + g[2] as u128 * 0x1_0000_0000_0000_0000_0000
        + g[3] as u128 * 0x1_0000_0000_0000_0000 + g[4] as u128 * 0x1_0000_0000_0000
        + g[5] as u128 * 0x1_0000_0000 + g[6] as u128 * 0x1_0000 + g[7] as u128
}

fn read_v6(s: &Vec<char>, r: Span) -> (n: Option<u128>)
    requires
        r@.within(s@.len()),
    ensures
        n == v6_in(s@, r@),
{
    let mut needle: Vec<char> = Vec::new();
    needle.push(':');
    needle.push(':');
    assert(needle@ =~= seq![':', ':']);
    let gap = match find_seq(s, &needle, false, r.lo, r.hi) {
        Some(p) => p,
        None => {
            return match read_groups(s, true, r) {
                Some(g) => if g.len() == 8 {
                    Some(join_groups(&g))
                } else {
                    None
                },
                None => None,
            };
        },
    };
    let mut head = match read_some_groups(s, false, Span { lo: r.lo, hi: gap }) {
        Some(g) => g,
        None => {
            return None;
        },
    };
    let mut tail = match read_some_groups(s, true, Span { lo: gap + 2, hi: r.hi }) {
        Some(g) => g,
        None => {
            return None;
        },
    };
    if head.len() > 7 || tail.len() > 7 - head.len() {
        return None;
    }
    let zeros: usize = 8 - head.len() - tail.len();
    let ghost a = head@;
    let ghost b = tail@;
    let mut i: usize = 0;
    while i < zeros
        invariant
            i <= zeros,
            head@ == a + Seq::new(i as nat, |i: int| 0u16),
        decreases zeros - i,
    {
        head.push(0);
        i += 1;
        assert(head@ =~= a + Seq::new(i as nat, |i: int| 0u16));
    }
    head.append(&mut tail);
    assert(head@ =~= a + Seq::new((8 - a.len() - b.len()) as nat, |i: int| 0u16) + b);
    Some(join_groups(&head))
}

/// Reads the address and port that a text writes.
pub fn read_sock(text: &str) -> (r: Option<SocketAddr>)
    ensures
        r == sock_in(text@, Range { lo: 0, hi: text@.len() as int }),
{
    let s = chars_of(text);
    let n = s.len();
    assert([']']@ =~= seq![']']);
    assert(['%']@ =~= seq!['%']);
    assert([':']@ =~= seq![':']);
    if n > 0 && s[0] == '[' {
        let e = find_any(&s, &[']'], 1, n);
        let z = find_any(&s, &['%'], 1, e);
        if n - e < 2 || s[e + 1] != ':' {
            return None;
        }
        if z < e {
            if read_number(&s, 10, u32::MAX, Span { lo: z + 1, hi: e }).is_none() {
                return None;
            }
        }
        match (
            read_v6(&s, Span { lo: 1, hi: z }),
            read_number(&s, 10, 0xffff, Span { lo: e + 2, hi: n }),
        ) {
            (Some(ip), Some(p)) => Some(SocketAddr { ip: IpAddr::V6(ip), port: p as u16 }),
            _ => None,
        }
    } else {
        let c = find_any(&s, &[':'], 0, n);
        if c >= n {
            return None;
        }
        match (
            read_v4(&s, Span { lo: 0, hi: c }),
            read_number(&s, 10, 0xffff, Span { lo: c + 1, hi: n }),
        ) {
            (Some(ip), Some(p)) => Some(SocketAddr { ip: IpAddr::V4(ip), port: p as u16 }),
            _ => None,
        }
    }
}

/// A digit is worth its number: 0 to 9, and a to f in either case from 10 on.
pub proof fn a_digit_is_worth_its_number(c: char)
    ensures
        48 <= c as int <= 57 ==> worth(c) == c as int - 48,
        97 <= c as int <= 102 ==> worth(c) == c as int - 87,
        65 <= c as int <= 70 ==> worth(c) == c as int - 55,
        (c as int) < 48 || 57 < c as int && (c as int) < 65 || 70 < c as int && (c as int) < 97
            || c as int > 102 ==> worth(c) == 16,
{
    assert('0' as int == 48 && '9' as int == 57 && 'a' as int == 97 && 'f' as int == 102
        && 'A' as int == 65 && 'F' as int == 70);
}

/// What is read of a number that is written in decimal.
proof fn lemma_reads_dec(s: Seq<char>, lo: int, n: nat)
    requires
        0 <= lo,
        lo + dec(n).len() <= s.len(),
        forall|i: int| 0 <= i < dec(n).len() ==> s[lo + i] == #[trigger] dec(n)[i],
    ensures
        digits_in(s, 10, lo, lo + dec(n).len()),
        value_in(s, 10, lo, lo + dec(n).len()) == n,
        n < 100 ==> dec(n).len() <= 2,
        n < 1000 ==> dec(n).len() <= 3,
    decreases n,
{
    reading_a_number_undoes_writing_it(n);
    let d = dec(n);
    let k = d.len() as int;
    assert forall|i: int| lo <= i < lo + k implies worth(#[trigger] s[i]) < 10 by {
        assert(s[lo + (i - lo)] == d[i - lo]);
        assert(is_digit(d[i - lo]));
        a_digit_is_worth_its_number(s[i]);
    }
    assert(s[lo + (k - 1)] == d[k - 1]);
    a_digit_is_worth_its_number(s[lo + k - 1]);
    assert(is_digit(d[k - 1]));
    a_value_goes_digit_by_digit(d, 0, k);
    if n < 10 {
        assert(value_in(s, 10, lo, lo) == 0);
        assert(dec_value(d, 0, 0) == 0);
    } else {
        let e = dec(n / 10);
        assert(d == e.push(digit((n % 10) as int)));
        assert forall|i: int| 0 <= i < e.len() implies s[lo + i] == #[trigger] e[i] by {
            assert(d[i] == e[i]);
        }
        lemma_reads_dec(s, lo, n / 10);
        assert('0' as int == 48);
        assert(d[k - 1] as int == 48 + n % 10);
    }
}

proof fn lemma_place(s: Seq<char>, c: char, lo: int, hi: int, at: int)
    requires
        0 <= lo <= at <= hi <= s.len(),
        at < hi ==> s[at] == c,
        forall|i: int| lo <= i < at ==> #[trigger] s[i] != c,
    ensures
        find_in(s, seq![c], lo, hi) == at,
{
    let stops = seq![c];
    assert(stops[0] == c);
    assert(stops.contains(c));
    a_search_ends_at_the_first(s, stops, lo, hi);
    let f = find_in(s, stops, lo, hi);
    if f < at {
        assert(stops.contains(s[f]));
        assert(s[f] == c);
    } else if at < f {
        assert(!stops.contains(s[at]));
    }
}

proof fn lemma_reads_octet(s: Seq<char>, lo: int, n: nat)
    requires
        0 <= lo,
        n <= 255,
        lo + dec(n).len() <= s.len(),
        forall|i: int| 0 <= i < dec(n).len() ==> s[lo + i] == #[trigger] dec(n)[i],
    ensures
        octet_in(s, Range { lo, hi: lo + dec(n).len() }) == Some(n as int),
        forall|i: int|
            lo <= i < lo + dec(n).len() ==> (#[trigger] s[i]) != '.' && s[i] != ':' && s[i] != '[',
{
    assert('.' as int == 46 && ':' as int == 58 && '[' as int == 91 && '0' as int == 48);
    reading_a_number_undoes_writing_it(n);
    lemma_reads_dec(s, lo, n);
    let d = dec(n);
    assert(s[lo + 0] == d[0]);
    assert forall|i: int| lo <= i < lo + d.len() implies (#[trigger] s[i]) != '.' && s[i] != ':'
        && s[i] != '[' by {
        assert(s[lo + (i - lo)] == d[i - lo]);
        assert(is_digit(d[i - lo]));
    }
}

proof fn lemma_reads_v4(s: Seq<char>, n: u32, hi: int)
    requires
        hi == v4_text(n).len(),
        hi <= s.len(),
        forall|i: int| 0 <= i < hi ==> #[trigger] s[i] == v4_text(n)[i],
    ensures
        v4_in(s, Range { lo: 0, hi }) == Some(n),
        forall|i: int| 0 <= i < hi ==> (#[trigger] s[i]) != ':' && s[i] != '[',
        hi > 0,
{
    the_octets_make_the_address(n);
    let w = octet(n, 0) as nat;
    let x = octet(n, 1) as nat;
    let y = octet(n, 2) as nat;
    let z = octet(n, 3) as nat;
    assert(w <= 255 && x <= 255 && y <= 255 && z <= 255);
    let t = v4_text(n);
    let a = dec(w).len() as int;
    let b = a + 1 + dec(x).len();
    let c = b + 1 + dec(y).len();
    assert(hi == c + 1 + dec(z).len());
    assert forall|i: int| 0 <= i < dec(w).len() implies s[0 + i] == #[trigger] dec(w)[i] by {
        assert(s[i] == t[i]);
    }
    assert forall|i: int| 0 <= i < dec(x).len() implies s[a + 1 + i] == #[trigger] dec(x)[i] by {
        assert(s[a + 1 + i] == t[a + 1 + i]);
    }
    assert forall|i: int| 0 <= i < dec(y).len() implies s[b + 1 + i] == #[trigger] dec(y)[i] by {
        assert(s[b + 1 + i] == t[b + 1 + i]);
    }
    assert forall|i: int| 0 <= i < dec(z).len() implies s[c + 1 + i] == #[trigger] dec(z)[i] by {
        assert(s[c + 1 + i] == t[c + 1 + i]);
    }
    assert(s[a] == t[a] && t[a] == '.');
    assert(s[b] == t[b] && t[b] == '.');
    assert(s[c] == t[c] && t[c] == '.');
    lemma_reads_octet(s, 0, w);
    lemma_reads_octet(s, a + 1, x);
    lemma_reads_octet(s, b + 1, y);
    lemma_reads_octet(s, c + 1, z);
    lemma_place(s, '.', 0, hi, a);
    lemma_place(s, '.', a + 1, hi, b);
    lemma_place(s, '.', b + 1, hi, c);
    assert forall|i: int| 0 <= i < hi implies (#[trigger] s[i]) != ':' && s[i] != '[' by {
        assert('.' != ':' && '.' != '[');
        assert(i < a || i == a || a + 1 <= i < b || i == b || b + 1 <= i < c || i == c || c + 1 <= i);
    }
}

/// Reading an address undoes writing it.
pub proof fn reading_an_address_undoes_writing_it(n: u32)
    ensures
        v4_in(v4_text(n), Range { lo: 0, hi: v4_text(n).len() as int }) == Some(n),
{
    lemma_reads_v4(v4_text(n), n, v4_text(n).len() as int);
}

/// Reading an address and a port undoes writing them.
pub proof fn reading_an_endpoint_undoes_writing_it(n: u32, port: u16)
    ensures
        ({
            let a = SocketAddr { ip: IpAddr::V4(n), port };
            sock_in(sock_text(a), Range { lo: 0, hi: sock_text(a).len() as int }) == Some(a)
        }),
{
    let a = SocketAddr { ip: IpAddr::V4(n), port };
    let s = sock_text(a);
    let c = v4_text(n).len() as int;
    let p = dec(port as nat);
    let hi = s.len() as int;
    reveal_strlit(":");
    assert(s == v4_text(n) + ":"@ + p);
    assert forall|i: int| 0 <= i < c implies #[trigger] s[i] == v4_text(n)[i] by {}
    lemma_reads_v4(s, n, c);
    assert(s[c] == ':');
    lemma_place(s, ':', 0, hi, c);
    assert forall|i: int| 0 <= i < p.len() implies s[c + 1 + i] == #[trigger] p[i] by {}
    lemma_reads_dec(s, c + 1, port as nat);
    reading_a_number_undoes_writing_it(port as nat);
    assert(hi == c + 1 + p.len());
    assert(s[0] != '[');
}

/// A number is digits of its base, one at least, up to a greatest value.
pub proof fn a_number_is_digits_of_its_base(s: Seq<char>, base: int, max: int, r: Range)
    ensures
        number_in(s, base, max, r) is Some <==> r.lo < r.hi && (forall|i: int|
            r.lo <= i < r.hi ==> worth(#[trigger] s[i]) < base) && value_in(s, base, r.lo, r.hi) <= max,
        number_in(s, base, max, r) matches Some(n) ==> n == value_in(s, base, r.lo, r.hi),
        r.hi <= r.lo ==> value_in(s, base, r.lo, r.hi) == 0,
        r.lo < r.hi ==> value_in(s, base, r.lo, r.hi) == base * value_in(s, base, r.lo, r.hi - 1)
            + worth(s[r.hi - 1]),
{
    if r.lo < r.hi {
        let v = value_in(s, base, r.lo, r.hi - 1);
        assert(v * base == base * v) by (nonlinear_arith);
    }
}

/// An octet is of up to three digits, does not start with a zero unless it is one,
/// and is at most 255. A group is of up to four hexadecimal digits.
pub proof fn octets_and_groups_are_short(s: Seq<char>, r: Range)
    requires
        r.within(s.len()),
    ensures
        octet_in(s, r) matches Some(n) ==> 1 <= r.hi - r.lo <= 3 && n <= 255 && (r.hi - r.lo > 1
            ==> s[r.lo] as int != 48) && n == value_in(s, 10, r.lo, r.hi),
        1 <= r.hi - r.lo <= 3 && (r.hi - r.lo > 1 ==> s[r.lo] as int != 48) && (forall|i: int|
            r.lo <= i < r.hi ==> worth(#[trigger] s[i]) < 10) && value_in(s, 10, r.lo, r.hi) <= 255
            ==> octet_in(s, r) is Some,
        group_in(s, r) is Some <==> 1 <= r.hi - r.lo <= 4 && (forall|i: int|
            r.lo <= i < r.hi ==> worth(#[trigger] s[i]) < 16) && value_in(s, 16, r.lo, r.hi) <= 0xffff,
        group_in(s, r) is Some && value_in(s, 16, r.lo, r.hi) >= 0 ==> group_in(s, r)->0 == value_in(
            s,
            16,
            r.lo,
            r.hi,
        ),
{
    assert('0' as int == 48);
}

/// Groups stand with colons between them.
pub proof fn groups_stand_between_colons(s: Seq<char>, v4: bool, r: Range, e: int)
    requires
        r.within(s.len()),
        r.lo <= e <= r.hi,
        e < r.hi ==> s[e] as int == 58,
        forall|i: int| r.lo <= i < e ==> (#[trigger] s[i]) as int != 58,
    ensures
        e < r.hi ==> {
            let first = group_in(s, Range { lo: r.lo, hi: e });
            let rest = groups_in(s, v4, Range { lo: e + 1, hi: r.hi });
            &&& groups_in(s, v4, r) is Some <==> first is Some && rest is Some
            &&& groups_in(s, v4, r) matches Some(g) ==> g.len() == rest->0.len() + 1 && g[0]
                == first->0 && g.skip(1) == rest->0
        },
        e == r.hi && group_in(s, r) is Some ==> groups_in(s, v4, r) == Some(seq![group_in(s, r)->0]),
        e == r.hi && group_in(s, r) is None && v4 && v4_in(s, r) is Some ==> groups_in(s, v4, r) is Some && {
            let g = groups_in(s, v4, r)->0;
            g.len() == 2 && g[0] * 0x1_0000 + g[1] == v4_in(s, r)->0
        },
        e == r.hi && group_in(s, r) is None && (!v4 || v4_in(s, r) is None) ==> groups_in(s, v4, r) is None,
{
    assert(':' as int == 58);
    assert forall|i: int| r.lo <= i < e implies #[trigger] s[i] != ':' by {
        assert(s[i] as int != 58);
    }
    lemma_place(s, ':', r.lo, r.hi, e);
    if e < r.hi {
        let rest = groups_in(s, v4, Range { lo: e + 1, hi: r.hi });
        if rest is Some && group_in(s, Range { lo: r.lo, hi: e }) is Some {
            assert(groups_in(s, v4, r)->0.skip(1) =~= rest->0);
        }
    }
}

proof fn lemma_reads_hex(s: Seq<char>, lo: int, n: nat)
    requires
        0 <= lo,
        lo + hex(n).len() <= s.len(),
        forall|i: int| 0 <= i < hex(n).len() ==> s[lo + i] == #[trigger] hex(n)[i],
    ensures
        hex(n).len() > 0,
        digits_in(s, 16, lo, lo + hex(n).len()),
        value_in(s, 16, lo, lo + hex(n).len()) == n,
        n < 0x100 ==> hex(n).len() <= 2,
        n < 0x1000 ==> hex(n).len() <= 3,
        n < 0x1_0000 ==> hex(n).len() <= 4,
    decreases n,
{
    assert('0' as int == 48 && 'a' as int == 97);
    let d = hex(n);
    let k = d.len() as int;
    if n < 16 {
        assert(value_in(s, 16, lo, lo) == 0);
        assert(s[lo + 0] == d[0]);
        a_digit_is_worth_its_number(s[lo]);
    } else {
        let e = hex(n / 16);
        assert(d == e.push(digit((n % 16) as int)));
        assert forall|i: int| 0 <= i < e.len() implies s[lo + i] == #[trigger] e[i] by {
            assert(d[i] == e[i]);
        }
        lemma_reads_hex(s, lo, n / 16);
        assert(s[lo + (k - 1)] == d[k - 1]);
        a_digit_is_worth_its_number(s[lo + k - 1]);
        assert(worth(s[lo + k - 1]) == n % 16);
    }
}

/// Reading a group undoes writing it.
pub proof fn reading_a_group_undoes_writing_it(n: u16)
    ensures
        group_in(hex(n as nat), Range { lo: 0, hi: hex(n as nat).len() as int }) == Some(n),
{
    lemma_reads_hex(hex(n as nat), 0, n as nat);
}

/// Eight groups make an address, the first the most worth.
pub proof fn eight_groups_make_an_address(g: Seq<u16>)
    requires
        g.len() == 8,
    ensures
        v6_of(g) as int == g[0] * 0x1_0000_0000_0000_0000_0000_0000_0000 + g[1]
            * 0x1_0000_0000_0000_0000_0000_0000 + g[2] * 0x1_0000_0000_0000_0000_0000 + g[3]
            * 0x1_0000_0000_0000_0000 + g[4] * 0x1_0000_0000_0000 + g[5] * 0x1_0000_0000 + g[6]
            * 0x1_0000 + g[7],
{
}

/// An address of sixteen bytes is eight groups, or fewer with two colons that stand
/// for the groups of zeros that are missing, one at least.
pub proof fn two_colons_stand_for_zeros(s: Seq<char>, r: Range, gap: int)
    requires
        r.within(s.len()),
        r.lo <= gap <= r.hi,
        gap < r.hi ==> gap + 2 <= r.hi && s[gap] as int == 58 && s[gap + 1] as int == 58,
        forall|i: int|
            r.lo <= i < gap && i + 1 < r.hi ==> !(s[i] as int == 58 && #[trigger] s[i + 1] as int == 58),
    ensures
        gap == r.hi ==> {
            let g = groups_in(s, true, r);
            &&& v6_in(s, r) is Some <==> g is Some && g->0.len() == 8
            &&& v6_in(s, r) is Some ==> v6_in(s, r) == Some(v6_of(g->0))
        },
        gap < r.hi ==> {
            let a = some_groups(s, false, Range { lo: r.lo, hi: gap });
            let b = some_groups(s, true, Range { lo: gap + 2, hi: r.hi });
            &&& v6_in(s, r) is Some <==> a is Some && b is Some && a->0.len() + b->0.len() <= 7
            &&& v6_in(s, r) is Some ==> exists|g: Seq<u16>|
                {
                    &&& g.len() == 8 && v6_in(s, r) == Some(#[trigger] v6_of(g))
                    &&& g.take(a->0.len() as int) == a->0
                    &&& g.skip(8 - b->0.len()) == b->0
                    &&& forall|i: int| a->0.len() <= i < 8 - b->0.len() ==> #[trigger] g[i] == 0
                }
        },
{
    assert(':' as int == 58);
    let pair = seq![':', ':'];
    a_text_is_found_where_it_first_stands(s, pair, false, r.lo, r.hi);
    let f = find_text(s, pair, false, r.lo, r.hi);
    assert forall|at: int| r.lo <= at <= r.hi implies (#[trigger] letters_at(
        s,
        pair,
        false,
        at,
        r.hi,
    ) <==> at + 2 <= r.hi && s[at] as int == 58 && s[at + 1] as int == 58) by {
        if letters_at(s, pair, false, at, r.hi) {
            assert(s[at + 0] == pair[0] && s[at + 1] == pair[1]);
        }
    }
    if gap < r.hi {
        assert(letters_at(s, pair, false, gap, r.hi));
        if f < gap {
            assert(letters_at(s, pair, false, f, r.hi));
            assert(s[f + 1] as int == 58);
        }
        assert(f == gap);
        let a = some_groups(s, false, Range { lo: r.lo, hi: gap });
        let b = some_groups(s, true, Range { lo: gap + 2, hi: r.hi });
        if a is Some && b is Some && a->0.len() + b->0.len() <= 7 {
            let g = a->0 + Seq::new((8 - a->0.len() - b->0.len()) as nat, |i: int| 0u16) + b->0;
            assert(g.take(a->0.len() as int) =~= a->0);
            assert(g.skip(8 - b->0.len()) =~= b->0);
            assert(v6_in(s, r) == Some(v6_of(g)));
        }
    } else {
        if f <= r.hi {
            assert(letters_at(s, pair, false, f, r.hi));
            assert(s[f + 1] as int == 58);
        }
    }
}

/// An address in brackets is followed by a colon and a port.
pub proof fn an_address_in_brackets_has_a_port(s: Seq<char>, r: Range, e: int)
    requires
        r.within(s.len()),
        r.lo < e,
        e + 1 < r.hi,
        s[r.lo] as int == 91,
        s[e] as int == 93,
        s[e + 1] as int == 58,
        forall|i: int| r.lo < i < e ==> (#[trigger] s[i]) as int != 93 && s[i] as int != 37,
    ensures
        ({
            let n = v6_in(s, Range { lo: r.lo + 1, hi: e });
            let p = number_in(s, 10, 0xffff, Range { lo: e + 2, hi: r.hi });
            &&& sock_in(s, r) is Some <==> n is Some && p is Some
            &&& sock_in(s, r) matches Some(a) ==> a.ip == IpAddr::V6(n->0) && (p->0 >= 0 ==> a.port
                == p->0)
        }),
{
    assert('[' as int == 91 && ']' as int == 93 && ':' as int == 58 && '%' as int == 37);
    assert forall|i: int| r.lo + 1 <= i < e implies #[trigger] s[i] != ']' && s[i] != '%' by {
        assert(s[i] as int != 93 && s[i] as int != 37);
    }
    lemma_place(s, ']', r.lo + 1, r.hi, e);
    lemma_place(s, '%', r.lo + 1, e, e);
}

} // verus!
