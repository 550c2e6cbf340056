//! Aggregated call metrics.
use crate::double::Double;
use vstd::prelude::*;

verus! {

/// A sum of values, with their number.
#[derive(Clone, Copy, PartialEq, Eq, Structural, Debug)]
pub struct Sum {
    /// The sum.
    pub total: Double,
    /// How many values went into it.
    pub n: u64,
}

/// What the calls of one heatmap cell add up to.
#[derive(Clone, Copy, PartialEq, Eq, Structural, Debug)]
pub struct MetricSet {
    /// Calls.
    pub calls: u64,
    /// Calls that were answered.
    pub answered: u64,
    /// Calls that failed.
    pub failed: u64,
    /// Post-dial delay in milliseconds.
    pub pdd_ms: Sum,
    /// Jitter in milliseconds.
    pub jitter_ms: Sum,
    /// Loss in percent.
    pub loss_pct: Sum,
    /// Round-trip time in milliseconds.
    pub rtt_ms: Sum,
    /// Opinion score.
    pub mos: Sum,
}

impl Sum {
    /// The sum of no values.
    pub open spec fn spec_none() -> Sum {
        Sum { total: Double::spec_zero(), n: 0 }
    }

    /// The sum of no values.
    pub fn none() -> (r: Sum)
        ensures
            r == Sum::spec_none(),
    {
        Sum { total: Double::zero(), n: 0 }
    }

    /// Whether `next` is this sum with an optional value added by `plus`.
    pub open spec fn takes<F: Fn(Double, Double) -> Double>(
        self,
        x: Option<Double>,
        plus: &F,
        next: Sum,
    ) -> bool {
        match x {
            Some(v) => next.n == self.n + 1 && call_ensures(plus, (self.total, v), next.total),
            None => next == self,
        }
    }

    /// Adds an optional value; `plus` adds two values.
    pub fn take<F: Fn(Double, Double) -> Double>(&mut self, x: Option<Double>, plus: &F)
        requires
            old(self).n < u64::MAX,
            forall|a: Double, b: Double| call_requires(plus, (a, b)),
        ensures
            old(self).takes(x, plus, *final(self)),
    {
        if let Some(v) = x {
            self.total = plus(self.total, v);
            self.n += 1;
        }
    }
}

impl MetricSet {
    /// What no calls add up to.
    pub open spec fn spec_none() -> MetricSet {
        MetricSet {
            calls: 0,
            answered: 0,
            failed: 0,
            pdd_ms: Sum::spec_none(),
            jitter_ms: Sum::spec_none(),
            loss_pct: Sum::spec_none(),
            rtt_ms: Sum::spec_none(),
            mos: Sum::spec_none(),
        }
    }

    /// What no calls add up to.
    pub fn none() -> (r: MetricSet)
        ensures
            r == MetricSet::spec_none(),
    {
        MetricSet {
            calls: 0,
            answered: 0,
            failed: 0,
            pdd_ms: Sum::none(),
            jitter_ms: Sum::none(),
            loss_pct: Sum::none(),
            rtt_ms: Sum::none(),
            mos: Sum::none(),
        }
    }

    /// Whether every counter can still grow.
    pub open spec fn has_room(self) -> bool {
        &&& self.calls < u64::MAX
        &&& self.answered < u64::MAX
        &&& self.failed < u64::MAX
        &&& self.pdd_ms.n < u64::MAX
        &&& self.jitter_ms.n < u64::MAX
        &&& self.loss_pct.n < u64::MAX
        &&& self.rtt_ms.n < u64::MAX
        &&& self.mos.n < u64::MAX
    }
}

/// A sum takes a value that is there: it counts one more and its total goes on from
/// where it was. Nothing changes where there is no value.
pub proof fn a_sum_takes_what_is_there<F: Fn(Double, Double) -> Double>(
    s: Sum,
    x: Option<Double>,
    plus: &F,
    next: Sum,
)
    requires
        s.takes(x, plus, next),
    ensures
        x is None ==> next.n == s.n && next.total == s.total,
        x matches Some(v) ==> next.n == s.n + 1 && call_ensures(plus, (s.total, v), next.total),
{
}

/// Nothing is counted at first.
pub proof fn nothing_is_counted_at_first()
    ensures
        Sum::spec_none().n == 0 && Sum::spec_none().total.bits == 0,
        MetricSet::spec_none().calls == 0,
        MetricSet::spec_none().answered == 0,
        MetricSet::spec_none().failed == 0,
        MetricSet::spec_none().pdd_ms.n == 0 && MetricSet::spec_none().jitter_ms.n == 0,
        MetricSet::spec_none().loss_pct.n == 0 && MetricSet::spec_none().rtt_ms.n == 0,
        MetricSet::spec_none().mos.n == 0,
{
}

} // verus!
