//! Numbers as text.
use crate::text::{Range, Span};
use vstd::prelude::*;
use vstd::string::StringExecFns;

verus! {

/// Whether every character of `lo..hi` is a decimal digit.
pub open spec fn all_digits(s: Seq<char>, lo: int, hi: int) -> bool {
    forall|i: int| lo <= i < hi ==> '0' <= #[trigger] s[i] <= '9'
}

/// The number that the decimal digits of `lo..hi` write.
pub open spec fn dec_value(s: Seq<char>, lo: int, hi: int) -> int
    decreases hi - lo,
{
    if hi <= lo {
        0
    } else {
        dec_value(s, lo, hi - 1) * 10 + (s[hi - 1] as int - '0' as int)
    }
}

/// The `u32` that a span writes: an optional `+`, then one or more decimal
/// digits of a number that fits.
pub open spec fn u32_of(s: Seq<char>, r: Range) -> Option<u32> {
    let lo = if r.lo < r.hi && s[r.lo] == '+' {
        r.lo + 1
    } else {
        r.lo
    };
    if lo < r.hi && all_digits(s, lo, r.hi) && dec_value(s, lo, r.hi) <= u32::MAX {
        Some(dec_value(s, lo, r.hi) as u32)
    } else {
        None
    }
}

/// The character of one digit of a number in base sixteen or less.
pub open spec fn digit(d: int) -> char {
    if d < 10 {
        ('0' as int + d) as char
    } else {
        ('a' as int + d - 10) as char
    }
}

/// A number in decimal.
pub open spec fn dec(n: nat) -> Seq<char>
    decreases n,
{
    if n < 10 {
        seq![digit(n as int)]
    } else {
        dec(n / 10).push(digit((n % 10) as int))
    }
}

/// A number in lower-case hexadecimal.
pub open spec fn hex(n: nat) -> Seq<char>
    decreases n,
{
    if n < 16 {
        seq![digit(n as int)]
    } else {
        hex(n / 16).push(digit((n % 16) as int))
    }
}

proof fn lemma_dec_value_grows(s: Seq<char>, lo: int, mid: int, hi: int)
    requires
        0 <= lo <= mid <= hi,
        all_digits(s, lo, hi),
    ensures
        0 <= dec_value(s, lo, mid) <= dec_value(s, lo, hi),
    decreases hi - lo,
{
    if mid < hi {
        lemma_dec_value_grows(s, lo, mid, hi - 1);
    } else if lo < hi {
        lemma_dec_value_grows(s, lo, hi - 1, hi - 1);
    }
}

/// Reads the `u32` that a span writes.
pub fn parse_u32(s: &Vec<char>, r: Span) -> (n: Option<u32>)
    requires
        r@.within(s@.len()),
    ensures
        n == u32_of(s@, r@),
{
    let lo: usize = if r.lo < r.hi && s[r.lo] == '+' {
        r.lo + 1
    } else {
        r.lo
    };
    if lo >= r.hi {
        return None;
    }
    let mut i: usize = lo;
    let mut n: u64 = 0;
    while i < r.hi
        invariant
            r.lo <= lo <= i <= r.hi <= s@.len(),
            lo == (if r.lo < r.hi && s@[r.lo as int] == '+' {
                r.lo + 1
            } else {
                r.lo as int
            }),
            all_digits(s@, lo as int, i as int),
            n == dec_value(s@, lo as int, i as int),
            n <= u32::MAX,
        decreases r.hi - i,
    {
        let c = s[i];
        if c < '0' || c > '9' {
            assert(!('0' <= s@[i as int] <= '9'));
            return None;
        }
        let d: u64 = (c as u8 - '0' as u8) as u64;
        n = n * 10 + d;
        i += 1;
        assert(n == dec_value(s@, lo as int, i as int));
        if n > u32::MAX as u64 {
            proof {
                if all_digits(s@, lo as int, r.hi as int) {
                    lemma_dec_value_grows(s@, lo as int, i as int, r.hi as int);
                }
            }
            return None;
        }
    }
    Some(n as u32)
}

fn digit_text(d: u8) -> (r: &'static str)
    requires
        d < 16,
    ensures
        r@ == seq![digit(d as int)],
{
    proof {
        reveal_strlit("0");
        reveal_strlit("1");
        reveal_strlit("2");
        reveal_strlit("3");
        reveal_strlit("4");
        reveal_strlit("5");
        reveal_strlit("6");
        reveal_strlit("7");
        reveal_strlit("8");
        reveal_strlit("9");
        reveal_strlit("a");
        reveal_strlit("b");
        reveal_strlit("c");
        reveal_strlit("d");
        reveal_strlit("e");
        reveal_strlit("f");
    }
    match d {
        0 => "0",
        1 => "1",
        2 => "2",
        3 => "3",
        4 => "4",
        5 => "5",
        6 => "6",
        7 => "7",
        8 => "8",
        9 => "9",
        10 => "a",
        11 => "b",
        12 => "c",
        13 => "d",
        14 => "e",
        _ => "f",
    }
}

/// Appends a number in decimal.
pub fn push_dec(out: &mut String, n: u64)
    ensures
        final(out)@ == old(out)@ + dec(n as nat),
    decreases n,
{
    if n >= 10 {
        push_dec(out, n / 10);
    }
    out.append(digit_text((n % 10) as u8));
    assert(out@ =~= old(out)@ + dec(n as nat));
}

/// Appends a number in lower-case hexadecimal.
pub fn push_hex(out: &mut String, n: u64)
    ensures
        final(out)@ == old(out)@ + hex(n as nat),
    decreases n,
{
    if n >= 16 {
        push_hex(out, n / 16);
    }
    out.append(digit_text((n % 16) as u8));
    assert(out@ =~= old(out)@ + hex(n as nat));
}

/// A digit of a decimal number, by its code.
pub open spec fn is_digit(c: char) -> bool {
    48 <= c as int <= 57
}

/// Digits are the characters from 0 to 9.
pub proof fn digits_are_nought_to_nine(s: Seq<char>, lo: int, hi: int)
    ensures
        all_digits(s, lo, hi) <==> forall|i: int| lo <= i < hi ==> is_digit(#[trigger] s[i]),
{
    assert('0' as int == 48 && '9' as int == 57);
    if all_digits(s, lo, hi) {
        assert forall|i: int| lo <= i < hi implies is_digit(#[trigger] s[i]) by {
            assert('0' <= s[i] <= '9');
        }
    }
}

/// The value of digits does not change with what stands round them.
proof fn lemma_value_of_part(s: Seq<char>, t: Seq<char>, lo: int, hi: int)
    requires
        forall|i: int| lo <= i < hi ==> #[trigger] s[i] == t[i],
    ensures
        dec_value(s, lo, hi) == dec_value(t, lo, hi),
    decreases hi - lo,
{
    if lo < hi {
        lemma_value_of_part(s, t, lo, hi - 1);
    }
}

/// Reading a number undoes writing it: what is written has only digits, does not
/// start with 0 unless it is 0, and has the number as its value.
pub proof fn reading_a_number_undoes_writing_it(n: nat)
    ensures
        dec(n).len() > 0,
        forall|i: int| 0 <= i < dec(n).len() ==> is_digit(#[trigger] dec(n)[i]),
        n > 0 ==> dec(n)[0] as int != 48,
        n < 10 ==> dec(n).len() == 1,
        dec_value(dec(n), 0, dec(n).len() as int) == n,
        n <= u32::MAX ==> u32_of(dec(n), Range { lo: 0, hi: dec(n).len() as int }) == Some(n as u32),
    decreases n,
{
    assert('0' as int == 48 && '9' as int == 57 && '+' as int == 43);
    let d = dec(n);
    let k = d.len() as int;
    if n < 10 {
        assert(dec_value(d, 0, 0) == 0);
        assert(d[0] as int == 48 + n);
    } else {
        reading_a_number_undoes_writing_it(n / 10);
        let e = dec(n / 10);
        assert(d == e.push(digit((n % 10) as int)));
        lemma_value_of_part(d, e, 0, k - 1);
        assert(d[k - 1] as int == 48 + n % 10);
        assert forall|i: int| 0 <= i < d.len() implies is_digit(#[trigger] d[i]) by {
            if i < k - 1 {
                assert(d[i] == e[i]);
            }
        }
        assert(d[0] == e[0]);
    }
    digits_are_nought_to_nine(d, 0, k);
    assert(is_digit(d[0]));
}

/// A value is that of the digits before the last, ten times, and the last.
pub proof fn a_value_goes_digit_by_digit(s: Seq<char>, lo: int, hi: int)
    ensures
        hi <= lo ==> dec_value(s, lo, hi) == 0,
        lo < hi ==> dec_value(s, lo, hi) == 10 * dec_value(s, lo, hi - 1) + s[hi - 1] as int - 48,
{
    assert('0' as int == 48);
}

/// What is read as a number: digits, with a plus sign before them or without, and
/// one at least, as long as their value fits.
pub proof fn a_number_is_digits_that_fit(s: Seq<char>, lo: int, hi: int)
    requires
        0 <= lo < hi <= s.len(),
    ensures
        s[lo] as int != 43 ==> {
            &&& u32_of(s, Range { lo, hi }) is Some <==> (forall|i: int|
                lo <= i < hi ==> is_digit(#[trigger] s[i])) && dec_value(s, lo, hi) <= u32::MAX
            &&& u32_of(s, Range { lo, hi }) matches Some(n) ==> n == dec_value(s, lo, hi)
        },
        s[lo] as int == 43 ==> u32_of(s, Range { lo, hi }) == if lo + 1 < hi && s[lo + 1] as int
            != 43 {
            u32_of(s, Range { lo: lo + 1, hi })
        } else {
            None
        },
        u32_of(s, Range { lo: hi, hi }) is None,
{
    assert('+' as int == 43 && '0' as int == 48 && '9' as int == 57);
    digits_are_nought_to_nine(s, lo, hi);
    lemma_value_nonneg(s, lo, hi);
    if s[lo] as int == 43 {
        digits_are_nought_to_nine(s, lo + 1, hi);
        if lo + 1 < hi {
            assert(s[lo + 1] as int == 43 ==> !is_digit(s[lo + 1]));
            lemma_value_nonneg(s, lo + 1, hi);
        }
    }
}

proof fn lemma_value_nonneg(s: Seq<char>, lo: int, hi: int)
    ensures
        all_digits(s, lo, hi) ==> dec_value(s, lo, hi) >= 0,
    decreases hi - lo,
{
    if lo < hi && all_digits(s, lo, hi) {
        assert('0' <= s[hi - 1] <= '9');
        assert(all_digits(s, lo, hi - 1));
        lemma_value_nonneg(s, lo, hi - 1);
    }
}

} // verus!
