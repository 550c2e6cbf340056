//! The bits of a 64-bit word, as a sequence of booleans.
use vstd::prelude::*;

verus! {

/// Whether bit `i` of `m` is set; bit 0 is the lowest.
pub open spec fn bit(m: u64, i: int) -> bool {
    (m >> (i as u64)) & 1 == 1
}

/// The 64 bits of `m`, the lowest first.
pub open spec fn bits(m: u64) -> Seq<bool> {
    Seq::new(64, |i: int| bit(m, i))
}

/// How many members of a sequence are true.
pub open spec fn trues(s: Seq<bool>) -> nat
    decreases s.len(),
{
    if s.len() == 0 {
        0
    } else {
        trues(s.drop_last()) + if s.last() {
            1nat
        } else {
            0nat
        }
    }
}

/// `n` copies of `b`.
pub open spec fn copies(n: nat, b: bool) -> Seq<bool> {
    Seq::new(n, |i: int| b)
}

pub proof fn lemma_trues_of_sum(a: Seq<bool>, b: Seq<bool>)
    ensures
        trues(a + b) == trues(a) + trues(b),
    decreases b.len(),
{
    if b.len() == 0 {
        assert(a + b =~= a);
    } else {
        assert((a + b).drop_last() =~= a + b.drop_last());
        assert((a + b).last() == b.last());
        lemma_trues_of_sum(a, b.drop_last());
    }
}

pub proof fn lemma_trues_of_copies(n: nat, b: bool)
    ensures
        trues(copies(n, b)) == if b {
            n
        } else {
            0
        },
    decreases n,
{
    if n > 0 {
        assert(copies(n, b).drop_last() =~= copies((n - 1) as nat, b));
        lemma_trues_of_copies((n - 1) as nat, b);
    }
}

pub proof fn lemma_trues_bound(s: Seq<bool>)
    ensures
        trues(s) <= s.len(),
    decreases s.len(),
{
    if s.len() > 0 {
        lemma_trues_bound(s.drop_last());
    }
}

/// Clearing a bit that is set lowers the number of set bits by one; clearing
/// one that is not changes nothing.
pub proof fn lemma_trues_of_clear(s: Seq<bool>, i: int)
    requires
        0 <= i < s.len(),
    ensures
        trues(s.update(i, false)) == trues(s) - if s[i] {
            1int
        } else {
            0int
        },
{
    let a = s.subrange(0, i);
    let z = s.subrange(i + 1, s.len() as int);
    assert(s =~= a + seq![s[i]] + z);
    assert(s.update(i, false) =~= a + seq![false] + z);
    lemma_trues_of_sum(a + seq![s[i]], z);
    lemma_trues_of_sum(a, seq![s[i]]);
    lemma_trues_of_sum(a + seq![false], z);
    lemma_trues_of_sum(a, seq![false]);
    assert(seq![s[i]].drop_last() =~= Seq::<bool>::empty());
    assert(seq![false].drop_last() =~= Seq::<bool>::empty());
}

/// The number of bits that are set.
pub(crate) fn count_ones(m: u64) -> (r: u32)
    ensures
        r == trues(bits(m)),
{
    let mut n: u32 = 0;
    let mut i: u64 = 0;
    while i < 64
        invariant
            i <= 64,
            n <= i,
            n == trues(bits(m).take(i as int)),
        decreases 64 - i,
    {
        assert(bits(m).take(i + 1).drop_last() =~= bits(m).take(i as int));
        if (m >> i) & 1 == 1 {
            n += 1;
        }
        i += 1;
    }
    assert(bits(m).take(64) =~= bits(m));
    n
}

/// `m` moved up by `d` bits, with ones in the `n` lowest of the bits that
/// come free.
pub(crate) fn shift_in(m: u64, d: u32, n: u32) -> (r: u64)
    requires
        d > 0,
        n == if d > 64 {
            64
        } else {
            d - 1
        },
    ensures
        bits(r) == Seq::new(
            64,
            |i: int|
                if i < d {
                    i < n
                } else {
                    bits(m)[i - d]
                },
        ),
{
    let up: u64 = if d >= 64 {
        0
    } else {
        m << d
    };
    let low: u64 = if n >= 64 {
        u64::MAX
    } else {
        assert(1u64 << n >= 1) by (bit_vector)
            requires
                n < 64,
        ;
        (1u64 << n) - 1
    };
    let r = up | low;
    assert forall|i: int| 0 <= i < 64 implies bits(r)[i] == if i < d {
        i < n
    } else {
        bits(m)[i - d]
    } by {
        let j = i as u64;
        if n >= 64 {
            assert(((up | u64::MAX) >> j) & 1 == 1) by (bit_vector)
                requires
                    j < 64,
            ;
        } else if d >= 64 {
            assert(((0u64 | ((1u64 << n) - 1) as u64) >> j) & 1 == if j < n {
                1u64
            } else {
                0u64
            }) by (bit_vector)
                requires
                    j < 64,
                    n < 64,
            ;
        } else {
            let k = (j - d) as u64;
            assert(j < d ==> (((m << d) | ((1u64 << n) - 1) as u64) >> j) & 1 == if j < n {
                1u64
            } else {
                0u64
            }) by (bit_vector)
                requires
                    j < 64,
                    n < d,
                    d < 64,
            ;
            assert(j >= d ==> (((m << d) | ((1u64 << n) - 1) as u64) >> j) & 1 == (m >> k) & 1)
                by (bit_vector)
                requires
                    j < 64,
                    n < d,
                    d < 64,
                    j >= d ==> k == j - d,
            ;
        }
    }
    assert(bits(r) =~= Seq::new(
        64,
        |i: int|
            if i < d {
                i < n
            } else {
                bits(m)[i - d]
            },
    ));
    r
}

/// The number of ones among the `d` highest bits.
pub(crate) fn ones_on_top(m: u64, d: u32) -> (r: u32)
    ensures
        r == trues(
            bits(m).subrange(
                if d >= 64 {
                    0
                } else {
                    64 - d
                },
                64,
            ),
        ),
{
    if d >= 64 {
        assert(bits(m).subrange(0, 64) =~= bits(m));
        return count_ones(m);
    }
    if d == 0 {
        return 0;
    }
    let k: u32 = 64 - d;
    let top = m >> k;
    proof {
        let kept = bits(m).subrange(k as int, 64);
        assert forall|i: int| 0 <= i < 64 implies bits(top)[i] == (kept + copies(k as nat, false))[i] by {
            let j = i as u64;
            let q = (j + k) as u64;
            assert(((m >> k) >> j) & 1 == if q < 64 {
                (m >> q) & 1
            } else {
                0
            }) by (bit_vector)
                requires
                    j < 64,
                    0 < k < 64,
                    q == j + k,
            ;
        }
        assert(bits(top) =~= kept + copies(k as nat, false));
        lemma_trues_of_sum(kept, copies(k as nat, false));
        lemma_trues_of_copies(k as nat, false);
    }
    count_ones(top)
}

/// `m` with bit `i` cleared.
pub(crate) fn clear_bit(m: u64, i: u32) -> (r: u64)
    requires
        i < 64,
    ensures
        bits(r) == bits(m).update(i as int, false),
        r == m & !(1u64 << i),
{
    let r = m & !(1u64 << i);
    assert forall|n: int| 0 <= n < 64 implies bits(r)[n] == bits(m).update(i as int, false)[n] by {
        let j = n as u64;
        assert(((m & !(1u64 << i)) >> j) & 1 == if j == i {
            0
        } else {
            (m >> j) & 1
        }) by (bit_vector)
            requires
                j < 64,
                i < 64,
        ;
    }
    assert(bits(r) =~= bits(m).update(i as int, false));
    r
}

/// The places of `s` that hold true.
pub open spec fn true_places(s: Seq<bool>) -> Set<int> {
    vstd::set_lib::set_int_range(0, s.len() as int).filter(|i: int| s[i])
}

/// The count of a sequence is the number of the places that hold true.
pub proof fn the_count_is_of_the_true_places(s: Seq<bool>)
    ensures
        trues(s) == true_places(s).len(),
        true_places(s).finite(),
        forall|i: int| #[trigger] true_places(s).contains(i) <==> 0 <= i < s.len() && s[i],
    decreases s.len(),
{
    let n = s.len() as int;
    vstd::set_lib::lemma_int_range(0, n);
    vstd::set_lib::set_int_range(0, n).lemma_len_filter(|i: int| s[i]);
    if n > 0 {
        let t = s.drop_last();
        the_count_is_of_the_true_places(t);
        vstd::set_lib::lemma_int_range(0, n - 1);
        if s.last() {
            assert(true_places(s) =~= true_places(t).insert(n - 1));
            assert(!true_places(t).contains(n - 1));
        } else {
            assert(true_places(s) =~= true_places(t));
        }
    } else {
        assert(true_places(s) =~= Set::empty());
    }
}

/// The bits of a number are its digits to the base two, the lowest first.
pub proof fn the_bits_are_the_digits(m: u64, i: u64)
    requires
        i < 64,
    ensures
        bits(m).len() == 64,
        bits(m)[i as int] == ((m >> i) % 2 == 1),
        bits(m)[0] == (m % 2 == 1),
        m == 0 ==> !bits(m)[i as int],
{
    assert((m >> i) & 1 == (m >> i) % 2) by (bit_vector);
    assert((m >> 0) & 1 == m % 2) by (bit_vector);
    assert(m == 0 ==> (m >> i) & 1 == 0) by (bit_vector);
}

} // verus!
