//! Double-precision values, carried by their bits.
//!
//! The library moves, keeps and compares these values. Arithmetic on them is
//! the caller's.
use vstd::prelude::*;

verus! {

/// An IEEE 754 double, by its bits.
#[derive(Clone, Copy, PartialEq, Eq, Structural, Debug)]
pub struct Double {
    /// The sign, exponent and fraction bits.
    pub bits: u64,
}

/// The number of magnitudes: the weight of the sign bit.
pub const SIGN: u64 = 0x8000_0000_0000_0000;

/// The magnitude bits of infinity; larger magnitudes are not numbers.
pub const INFINITY: u64 = 0x7ff0_0000_0000_0000;

impl Double {
    /// Zero.
    pub open spec fn spec_zero() -> Double {
        Double { bits: 0 }
    }

    /// Zero.
    pub fn zero() -> (r: Double)
        ensures
            r == Double::spec_zero(),
    {
        Double { bits: 0 }
    }

    /// Whether this is not a number.
    pub open spec fn nan(self) -> bool {
        self.bits as int % SIGN as int > INFINITY
    }

    /// A number that orders the values that are numbers.
    pub open spec fn rank(self) -> int {
        if self.bits < SIGN {
            self.bits as int
        } else {
            SIGN as int - self.bits as int
        }
    }

    /// The lesser of two values; the other one where one is not a number.
    pub open spec fn spec_min(self, other: Double) -> Double {
        if self.nan() || (!other.nan() && other.rank() < self.rank()) {
            other
        } else {
            self
        }
    }

    /// The greater of two values; the other one where one is not a number.
    pub open spec fn spec_max(self, other: Double) -> Double {
        if self.nan() || (!other.nan() && other.rank() > self.rank()) {
            other
        } else {
            self
        }
    }

    fn is_nan(self) -> (r: bool)
        ensures
            r == self.nan(),
    {
        self.bits % SIGN > INFINITY
    }

    fn rank_of(self) -> (r: i128)
        ensures
            r == self.rank(),
    {
        if self.bits < SIGN {
            self.bits as i128
        } else {
            SIGN as i128 - self.bits as i128
        }
    }

    /// The lesser of two values; the other one where one is not a number.
    pub fn min(self, other: Double) -> (r: Double)
        ensures
            r == self.spec_min(other),
    {
        if self.is_nan() || (!other.is_nan() && other.rank_of() < self.rank_of()) {
            other
        } else {
            self
        }
    }

    /// The greater of two values; the other one where one is not a number.
    pub fn max(self, other: Double) -> (r: Double)
        ensures
            r == self.spec_max(other),
    {
        if self.is_nan() || (!other.is_nan() && other.rank_of() > self.rank_of()) {
            other
        } else {
            self
        }
    }
}

/// The least of a sequence of values.
pub open spec fn least(v: Seq<Double>) -> Option<Double>
    decreases v.len(),
{
    if v.len() == 0 {
        None
    } else {
        match least(v.drop_last()) {
            None => Some(v.last()),
            Some(m) => Some(m.spec_min(v.last())),
        }
    }
}

/// The greatest of a sequence of values.
pub open spec fn greatest(v: Seq<Double>) -> Option<Double>
    decreases v.len(),
{
    if v.len() == 0 {
        None
    } else {
        match greatest(v.drop_last()) {
            None => Some(v.last()),
            Some(m) => Some(m.spec_max(v.last())),
        }
    }
}

/// The least of some values.
pub fn least_of(v: &Vec<Double>) -> (r: Option<Double>)
    ensures
        r == least(v@),
{
    let mut r: Option<Double> = None;
    let mut i: usize = 0;
    while i < v.len()
        invariant
            i <= v@.len(),
            r == least(v@.take(i as int)),
        decreases v@.len() - i,
    {
        assert(v@.take(i + 1).drop_last() =~= v@.take(i as int));
        r = match r {
            None => Some(v[i]),
            Some(m) => Some(m.min(v[i])),
        };
        i += 1;
    }
    assert(v@.take(i as int) =~= v@);
    r
}

/// The greatest of some values.
pub fn greatest_of(v: &Vec<Double>) -> (r: Option<Double>)
    ensures
        r == greatest(v@),
{
    let mut r: Option<Double> = None;
    let mut i: usize = 0;
    while i < v.len()
        invariant
            i <= v@.len(),
            r == greatest(v@.take(i as int)),
        decreases v@.len() - i,
    {
        assert(v@.take(i + 1).drop_last() =~= v@.take(i as int));
        r = match r {
            None => Some(v[i]),
            Some(m) => Some(m.max(v[i])),
        };
        i += 1;
    }
    assert(v@.take(i as int) =~= v@);
    r
}

/// No value of a sequence of numbers lies below the least or above the
/// greatest, and both are values of the sequence.
pub proof fn least_and_greatest_bound_the_values(v: Seq<Double>, i: int)
    requires
        0 <= i < v.len(),
        forall|j: int| 0 <= j < v.len() ==> !(#[trigger] v[j]).nan(),
    ensures
        least(v) is Some,
        greatest(v) is Some,
        v.contains(least(v)->0),
        v.contains(greatest(v)->0),
        least(v)->0.rank() <= v[i].rank() <= greatest(v)->0.rank(),
    decreases v.len(),
{
    let w = v.drop_last();
    if w.len() == 0 {
        assert(v.last() == v[0]);
    } else {
        assert forall|j: int| 0 <= j < w.len() implies !(#[trigger] w[j]).nan() by {
            assert(w[j] == v[j]);
        }
        let k = if i < w.len() {
            i
        } else {
            0
        };
        least_and_greatest_bound_the_values(w, k);
        let a = choose|a: int| 0 <= a < w.len() && w[a] == least(w)->0;
        let b = choose|b: int| 0 <= b < w.len() && w[b] == greatest(w)->0;
        assert(v[a] == least(w)->0 && v[b] == greatest(w)->0);
        assert(v[v.len() - 1] == v.last());
        if i < w.len() {
            assert(w[i] == v[i]);
        }
    }
}

/// The order of the values: by their bits where they are positive, by their bits
/// backwards where they are negative, every negative one below every positive one.
/// The two zeros are of one rank.
pub proof fn ranks_follow_sign_and_bits(a: Double, b: Double)
    ensures
        a.bits < 0x8000_0000_0000_0000 && b.bits < 0x8000_0000_0000_0000 ==> (a.rank() < b.rank()
            <==> a.bits < b.bits),
        a.bits >= 0x8000_0000_0000_0000 && b.bits >= 0x8000_0000_0000_0000 ==> (a.rank() < b.rank()
            <==> a.bits > b.bits),
        a.bits >= 0x8000_0000_0000_0000 && b.bits < 0x8000_0000_0000_0000 ==> a.rank() <= b.rank(),
        a.bits == 0x8000_0000_0000_0000 && b.bits == 0 ==> a.rank() == b.rank(),
        a.nan() <==> 0x7ff0_0000_0000_0000 < a.bits < 0x8000_0000_0000_0000 || a.bits
            > 0xfff0_0000_0000_0000,
{
}

/// The lesser and the greater of two numbers are the two, in their order. What is
/// not a number gives way to one that is.
pub proof fn the_lesser_and_the_greater_of_two(a: Double, b: Double)
    ensures
        !a.nan() && !b.nan() ==> {
            &&& a.spec_min(b) == a || a.spec_min(b) == b
            &&& a.spec_max(b) == a || a.spec_max(b) == b
            &&& a.spec_min(b).rank() <= a.rank() && a.spec_min(b).rank() <= b.rank()
            &&& a.spec_max(b).rank() >= a.rank() && a.spec_max(b).rank() >= b.rank()
        },
        a.nan() ==> a.spec_min(b) == b && a.spec_max(b) == b,
        b.nan() && !a.nan() ==> a.spec_min(b) == a && a.spec_max(b) == a,
{
}

} // verus!
