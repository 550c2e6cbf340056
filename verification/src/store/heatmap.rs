//! Call metrics by time and key.
use crate::double::Double;
use crate::model::stats::MetricSet;
use crate::order::{comes_first, lemma_order_covers, listed, sorts, stable_order, Rank};
use crate::table::{lists, Key, Table};
use vstd::prelude::*;

verus! {

/// Microseconds in a second.
pub const SECOND: u64 = 1_000_000;

/// What the calls of one key add up to, in slices of time.
pub struct Heatmap {
    bucket_secs: u64,
    cells: Table<u64, Table<String, MetricSet>>,
}

/// The cells of a heatmap: start of the slice, key, metrics.
pub type Cells = Map<u64, Map<Seq<char>, MetricSet>>;

/// What one call adds to a cell.
#[derive(Clone, Copy, PartialEq, Eq, Structural, Debug)]
pub struct CallMetrics {
    /// Whether it was answered.
    pub answered: bool,
    /// Whether it failed.
    pub failed: bool,
    /// The post-dial delay in milliseconds.
    pub pdd_ms: Option<Double>,
    /// The jitter in milliseconds.
    pub jitter_ms: Option<Double>,
    /// The loss in percent.
    pub loss_pct: Option<Double>,
    /// The round-trip time in milliseconds.
    pub rtt_ms: Option<Double>,
    /// The opinion score.
    pub mos: Option<Double>,
}

/// The start of the slice that a time falls in.
pub open spec fn slice_of(bucket_secs: u64, ts_us: u64) -> u64 {
    if bucket_secs == 0 {
        0
    } else {
        (ts_us as int / SECOND as int / bucket_secs as int * bucket_secs as int * SECOND) as u64
    }
}

/// The metrics of a cell, also where it is empty.
pub open spec fn cell_at(m: Cells, bucket: u64, key: Seq<char>) -> MetricSet {
    if m.contains_key(bucket) && m[bucket].contains_key(key) {
        m[bucket][key]
    } else {
        MetricSet::spec_none()
    }
}

/// The cells with the metrics of one of them replaced.
pub open spec fn with_cell(m: Cells, bucket: u64, key: Seq<char>, x: MetricSet) -> Cells {
    m.insert(
        bucket,
        (if m.contains_key(bucket) {
            m[bucket]
        } else {
            Map::empty()
        }).insert(key, x),
    )
}

/// Whether a slice of `secs` seconds that starts at `start` ended before a
/// time.
pub open spec fn is_over(secs: u64, start: u64, cutoff_us: u64) -> bool {
    start < cutoff_us && start + secs * SECOND <= cutoff_us
}

/// Cells without the slices that ended before a time.
pub open spec fn without_old(m: Cells, secs: u64, cutoff_us: u64) -> Cells {
    m.restrict(Set::new(|b: u64| !is_over(secs, b, cutoff_us)))
}

/// Whether `next` is a cell with one call added to it.
pub open spec fn adds_call<F: Fn(Double, Double) -> Double>(
    was: MetricSet,
    c: CallMetrics,
    plus: &F,
    next: MetricSet,
) -> bool {
    &&& next.calls == was.calls + 1
    &&& next.answered == was.answered + if c.answered {
        1int
    } else {
        0int
    }
    &&& next.failed == was.failed + if c.failed {
        1int
    } else {
        0int
    }
    &&& was.pdd_ms.takes(c.pdd_ms, plus, next.pdd_ms)
    &&& was.jitter_ms.takes(c.jitter_ms, plus, next.jitter_ms)
    &&& was.loss_pct.takes(c.loss_pct, plus, next.loss_pct)
    &&& was.rtt_ms.takes(c.rtt_ms, plus, next.rtt_ms)
    &&& was.mos.takes(c.mos, plus, next.mos)
}

/// Whether `(bucket, key)` is a cell.
pub open spec fn is_cell(m: Cells, bucket: u64, key: Seq<char>) -> bool {
    m.contains_key(bucket) && m[bucket].contains_key(key)
}

/// Whether a list holds the cells, each once, by the start of their slice.
pub open spec fn lists_cells(v: Seq<(u64, String, MetricSet)>, m: Cells) -> bool {
    &&& forall|i: int|
        0 <= i < v.len() ==> is_cell(m, (#[trigger] v[i]).0, v[i].1@) && v[i].2
            == m[v[i].0][v[i].1@]
    &&& forall|b: u64, k: Seq<char>| #[trigger]
        is_cell(m, b, k) ==> exists|i: int|
            0 <= i < v.len() && (#[trigger] v[i]).0 == b && v[i].1@ == k
    &&& forall|i: int, j: int|
        0 <= i < j < v.len() ==> (#[trigger] v[i]).0 <= (#[trigger] v[j]).0 && !(v[i].0 == v[j].0
            && v[i].1@ == v[j].1@)
}

impl Heatmap {
    /// The cells.
    pub closed spec fn cells_model(&self) -> Cells {
        self.cells@.map_values(|t: Table<String, MetricSet>| t@)
    }

    /// The length of a slice in seconds.
    pub closed spec fn secs(&self) -> u64 {
        self.bucket_secs
    }

    /// The cells by slice and key.
    pub fn cells(&self) -> (r: &Table<u64, Table<String, MetricSet>>)
        ensures
            r@.map_values(|t: Table<String, MetricSet>| t@) == self.cells_model(),
    {
        &self.cells
    }

    /// A heatmap without cells.
    pub fn new(bucket_secs: u64) -> (r: Heatmap)
        ensures
            r.secs() == bucket_secs,
            r.cells_model() == Cells::empty(),
    {
        let r = Heatmap { bucket_secs, cells: Table::new() };
        assert(r.cells_model() =~= Cells::empty());
        r
    }

    /// The length of a slice in seconds.
    pub fn bucket_secs(&self) -> (r: u64)
        ensures
            r == self.secs(),
    {
        self.bucket_secs
    }

    fn bucket_of(&self, ts_us: u64) -> (r: u64)
        ensures
            r == slice_of(self.secs(), ts_us),
    {
        if self.bucket_secs == 0 {
            return 0;
        }
        let secs: u64 = ts_us / SECOND;
        let n: u64 = secs / self.bucket_secs;
        assert(n * self.bucket_secs <= secs) by (nonlinear_arith)
            requires
                n == secs / self.bucket_secs,
                self.bucket_secs > 0,
        ;
        n * self.bucket_secs * SECOND
    }

    /// Adds a call to the cell of its time and key. `plus` adds two values.
    pub fn record_call<F: Fn(Double, Double) -> Double>(
        &mut self,
        ts_us: u64,
        key: String,
        call: CallMetrics,
        plus: &F,
    )
        requires
            cell_at(old(self).cells_model(), slice_of(old(self).secs(), ts_us), key@).has_room(),
            forall|a: Double, b: Double| call_requires(plus, (a, b)),
        ensures
            final(self).secs() == old(self).secs(),
            ({
                let b = slice_of(old(self).secs(), ts_us);
                let was = cell_at(old(self).cells_model(), b, key@);
                let next = cell_at(final(self).cells_model(), b, key@);
                &&& adds_call(was, call, plus, next)
                &&& final(self).cells_model() == with_cell(
                    old(self).cells_model(),
                    b,
                    key@,
                    next,
                )
            }),
    {
        let bucket = self.bucket_of(ts_us);
        let ghost was = self.cells_model();
        let mut cell = match self.cells.get(&bucket) {
            Some(t) => match t.get(&key) {
                Some(c) => *c,
                None => MetricSet::none(),
            },
            None => MetricSet::none(),
        };
        assert(cell == cell_at(was, bucket, key@));
        cell.calls += 1;
        if call.answered {
            cell.answered += 1;
        }
        if call.failed {
            cell.failed += 1;
        }
        cell.pdd_ms.take(call.pdd_ms, plus);
        cell.jitter_ms.take(call.jitter_ms, plus);
        cell.loss_pct.take(call.loss_pct, plus);
        cell.rtt_ms.take(call.rtt_ms, plus);
        cell.mos.take(call.mos, plus);
        let ghost id = key@;
        if !self.cells.contains_key(&bucket) {
            self.cells.insert(bucket, Table::new());
        }
        if let Some(t) = self.cells.get_mut(&bucket) {
            t.insert(key, cell);
        }
        assert(self.cells_model() =~= with_cell(was, bucket, id, cell));
    }

    /// The cells, each once, by the start of their slice.
    pub fn flat(&self) -> (r: Vec<(u64, String, MetricSet)>)
        ensures
            lists_cells(r@, self.cells_model()),
    {
        let starts = self.cells.keys();
        let mut ranks: Vec<Rank> = Vec::new();
        let mut n: usize = 0;
        while n < starts.len()
            invariant
                n <= starts@.len(),
                ranks@.len() == n,
                forall|i: int| 0 <= i < n ==> #[trigger] ranks@[i] == (false, starts@[i] as u128),
            decreases starts@.len() - n,
        {
            ranks.push((false, starts[n] as u128));
            n += 1;
        }
        let order = stable_order(&ranks);
        proof {
            lemma_order_covers(order@, ranks@);
        }
        let ghost m = self.cells_model();
        let mut out: Vec<(u64, String, MetricSet)> = Vec::new();
        let mut i: usize = 0;
        while i < order.len()
            invariant
                m == self.cells_model(),
                i <= order@.len(),
                ranks@.len() == starts@.len(),
                forall|n: int|
                    0 <= n < ranks@.len() ==> #[trigger] ranks@[n] == (false, starts@[n] as u128),
                sorts(order@, ranks@),
                lists(starts@, self.cells@),
                forall|n: int|
                    0 <= n < out@.len() ==> is_cell(m, (#[trigger] out@[n]).0, out@[n].1@)
                        && out@[n].2 == m[out@[n].0][out@[n].1@],
                forall|n: int|
                    0 <= n < out@.len() ==> exists|p: int|
                        0 <= p < i && (#[trigger] out@[n]).0 == starts@[#[trigger] order@[p] as int],
                forall|p: int, k: Seq<char>|
                    0 <= p < i && #[trigger] is_cell(m, starts@[order@[p] as int], k) ==> holds(
                        out@,
                        starts@[order@[p] as int],
                        k,
                    ),
                forall|n: int, q: int|
                    0 <= n < q < out@.len() ==> (#[trigger] out@[n]).0 <= (#[trigger] out@[q]).0
                        && !(out@[n].0 == out@[q].0 && out@[n].1@ == out@[q].1@),
            decreases order@.len() - i,
        {
            let b: u64 = starts[order[i]];
            assert(self.cells@.contains_key(starts@[order@[i as int] as int].id()));
            let t = self.cells.get(&b).unwrap();
            assert(m.contains_key(b) && m[b] == t@);
            let names = t.keys();
            let ghost base = out@;
            let mut j: usize = 0;
            proof {
                assert forall|n: int| 0 <= n < base.len() implies (#[trigger] base[n]).0 < b by {
                    let p = choose|p: int|
                        0 <= p < i && base[n].0 == starts@[#[trigger] order@[p] as int];
                    assert(comes_first(ranks@, order@[p] as int, order@[i as int] as int));
                    assert(starts@[order@[p] as int].id() != starts@[order@[i as int] as int].id());
                }
            }
            while j < names.len()
                invariant
                    m == self.cells_model(),
                    m.contains_key(b) && m[b] == t@,
                    j <= names@.len(),
                    lists(names@, t@),
                    out@.len() == base.len() + j,
                    forall|n: int| 0 <= n < base.len() ==> (#[trigger] base[n]).0 < b,
                    forall|n: int| 0 <= n < base.len() ==> #[trigger] out@[n] == base[n],
                    forall|n: int|
                        0 <= n < j ==> (#[trigger] out@[base.len() + n]).0 == b && out@[base.len()
                            + n].1@ == names@[n]@ && out@[base.len() + n].2 == t@[names@[n]@],
                decreases names@.len() - j,
            {
                assert(t@.contains_key(names@[j as int].id()));
                let x = t.get(&names[j]).unwrap();
                out.push((b, names[j].clone(), *x));
                j += 1;
            }
            proof {
                assert forall|n: int| 0 <= n < out@.len() implies is_cell(
                    m,
                    (#[trigger] out@[n]).0,
                    out@[n].1@,
                ) && out@[n].2 == m[out@[n].0][out@[n].1@] by {
                    if n >= base.len() {
                        let q = n - base.len();
                        assert(out@[base.len() + q].1@ == names@[q]@);
                        assert(t@.contains_key(names@[q].id()));
                    } else {
                        assert(out@[n] == base[n]);
                    }
                }
                assert forall|n: int| 0 <= n < out@.len() implies exists|p: int|
                    0 <= p < i + 1 && (#[trigger] out@[n]).0 == starts@[#[trigger] order@[p] as int] by {
                    if n >= base.len() {
                        let q = n - base.len();
                        assert(out@[base.len() + q].0 == b);
                        assert(b == starts@[order@[i as int] as int]);
                    } else {
                        assert(out@[n] == base[n]);
                        let p = choose|p: int|
                            0 <= p < i && base[n].0 == starts@[#[trigger] order@[p] as int];
                        assert(out@[n].0 == starts@[order@[p] as int]);
                    }
                }
                assert forall|p: int, k: Seq<char>|
                    0 <= p < i + 1 && #[trigger] is_cell(
                        m,
                        starts@[order@[p] as int],
                        k,
                    ) implies holds(out@, starts@[order@[p] as int], k) by {
                    if p == i {
                        assert(t@.contains_key(k));
                        let q = choose|q: int| 0 <= q < names@.len() && #[trigger] names@[q].id() == k;
                        assert(out@[base.len() + q].1@ == names@[q]@);
                    } else {
                        assert(holds(base, starts@[order@[p] as int], k));
                        let n = choose|n: int|
                            0 <= n < base.len() && (#[trigger] base[n]).0 == starts@[order@[p] as int]
                                && base[n].1@ == k;
                        assert(out@[n] == base[n]);
                    }
                }
                assert forall|n: int, q: int| 0 <= n < q < out@.len() implies (#[trigger] out@[n]).0
                    <= (#[trigger] out@[q]).0 && !(out@[n].0 == out@[q].0 && out@[n].1@
                    == out@[q].1@) by {
                    if q < base.len() {
                        assert(out@[n] == base[n] && out@[q] == base[q]);
                    } else {
                        let y = q - base.len();
                        assert(out@[base.len() + y].0 == b);
                        if n < base.len() {
                            assert(out@[n] == base[n]);
                        } else {
                            let x = n - base.len();
                            assert(out@[base.len() + x].1@ == names@[x]@);
                            assert(names@[x].id() != names@[y].id());
                        }
                    }
                }
            }
            i += 1;
        }
        proof {
            assert forall|b: u64, k: Seq<char>| #[trigger] is_cell(m, b, k) implies exists|n: int|
                0 <= n < out@.len() && (#[trigger] out@[n]).0 == b && out@[n].1@ == k by {
                assert(self.cells@.contains_key(b));
                let s = choose|s: int| 0 <= s < starts@.len() && #[trigger] starts@[s].id() == b;
                assert(listed(order@, s));
                let p = choose|p: int| 0 <= p < order@.len() && #[trigger] order@[p] == s;
                assert(holds(out@, starts@[order@[p] as int], k));
            }
        }
        out
    }

    /// Forgets the slices that ended before `cutoff_us`.
    pub fn prune_older_than(&mut self, cutoff_us: u64)
        ensures
            final(self).secs() == old(self).secs(),
            final(self).cells_model() == without_old(
                old(self).cells_model(),
                old(self).secs(),
                cutoff_us,
            ),
    {
        let ghost was = self.cells@;
        let ghost all = self.cells_model();
        let starts = self.cells.keys();
        let mut i: usize = 0;
        while i < starts.len()
            invariant
                i <= starts@.len(),
                all == was.map_values(|t: Table<String, MetricSet>| t@),
                lists(starts@, was),
                self.bucket_secs == old(self).bucket_secs,
                forall|b: u64|
                    #![trigger self.cells@.contains_key(b)]
                    self.cells@.contains_key(b) ==> was.contains_key(b) && self.cells@[b] == was[b],
                forall|b: u64|
                    #![trigger was.contains_key(b)]
                    was.contains_key(b) && !is_over(self.bucket_secs, b, cutoff_us)
                        ==> self.cells@.contains_key(b),
                forall|n: int|
                    0 <= n < i ==> (self.cells@.contains_key(#[trigger] starts@[n]) ==> !is_over(
                        self.bucket_secs,
                        starts@[n],
                        cutoff_us,
                    )),
            decreases starts@.len() - i,
        {
            let b: u64 = starts[i];
            let end: u128 = b as u128 + self.bucket_secs as u128 * SECOND as u128;
            if b < cutoff_us && end <= cutoff_us as u128 {
                self.cells.remove(&b);
            }
            i += 1;
        }
        proof {
            let kept = Set::new(|b: u64| !is_over(self.bucket_secs, b, cutoff_us));
            assert forall|b: u64| self.cells_model().contains_key(b) == all.restrict(
                kept,
            ).contains_key(b) by {
                if was.contains_key(b) {
                    let n = choose|n: int| 0 <= n < starts@.len() && #[trigger] starts@[n].id() == b;
                    assert(self.cells@.contains_key(starts@[n]) ==> !is_over(
                        self.bucket_secs,
                        starts@[n],
                        cutoff_us,
                    ));
                } else {
                    assert(!self.cells@.contains_key(b));
                }
            }
            assert(self.cells_model() =~= all.restrict(kept));
        }
    }

    /// How many cells there are.
    pub fn cell_count(&self) -> (r: usize)
        ensures
            exists|v: Seq<(u64, String, MetricSet)>|
                #[trigger] lists_cells(v, self.cells_model()) && r == v.len(),
    {
        let v = self.flat();
        v.len()
    }
}

/// Whether a list has the cell of a slice and a key.
spec fn holds(v: Seq<(u64, String, MetricSet)>, b: u64, k: Seq<char>) -> bool {
    exists|i: int| 0 <= i < v.len() && (#[trigger] v[i]).0 == b && v[i].1@ == k
}

/// A time lies in its slice: not before the start, and before the end.
pub proof fn a_time_lies_in_its_slice(secs: u64, ts_us: u64)
    requires
        secs > 0,
    ensures
        slice_of(secs, ts_us) <= ts_us < slice_of(secs, ts_us) + secs * SECOND,
        slice_of(secs, ts_us) as int % (secs * SECOND) == 0,
{
    let s = ts_us as int / SECOND as int;
    let d = secs as int;
    let n = s / d;
    assert(n * d <= s < n * d + d && 0 <= n * d) by (nonlinear_arith)
        requires
            n == s / d,
            d > 0,
            s >= 0,
    ;
    assert(n * d * SECOND == n * (d * SECOND)) by (nonlinear_arith);
    vstd::arithmetic::div_mod::lemma_mod_multiples_basic(n, d * SECOND);
}

/// To record a call changes the cell of its slice and key, and no other.
pub proof fn other_cells_are_left_alone(
    m: Cells,
    b: u64,
    key: Seq<char>,
    x: MetricSet,
    c: u64,
    other: Seq<char>,
)
    ensures
        cell_at(with_cell(m, b, key, x), b, key) == x,
        b != c || key != other ==> cell_at(with_cell(m, b, key, x), c, other) == cell_at(
            m,
            c,
            other,
        ),
{
}

/// What was recorded at a time that is not before the cutoff is not pruned.
pub proof fn what_is_young_is_not_pruned(
    m: Cells,
    secs: u64,
    ts_us: u64,
    key: Seq<char>,
    cutoff_us: u64,
)
    requires
        secs > 0,
        cutoff_us <= ts_us,
        is_cell(m, slice_of(secs, ts_us), key),
    ensures
        is_cell(without_old(m, secs, cutoff_us), slice_of(secs, ts_us), key),
        cell_at(without_old(m, secs, cutoff_us), slice_of(secs, ts_us), key) == cell_at(
            m,
            slice_of(secs, ts_us),
            key,
        ),
{
    a_time_lies_in_its_slice(secs, ts_us);
}

/// To prune by an earlier time first changes nothing.
pub proof fn pruning_can_be_done_in_steps(m: Cells, secs: u64, early_us: u64, late_us: u64)
    requires
        early_us <= late_us,
    ensures
        without_old(without_old(m, secs, early_us), secs, late_us) == without_old(m, secs, late_us),
{
    assert(without_old(without_old(m, secs, early_us), secs, late_us) =~= without_old(
        m,
        secs,
        late_us,
    ));
}

/// A call adds one to the calls of its cell, one to those answered or failed where it
/// was, and each of its values to the sum of that value.
pub proof fn a_call_adds_to_its_cell<F: Fn(Double, Double) -> Double>(
    was: MetricSet,
    c: CallMetrics,
    plus: &F,
    next: MetricSet,
)
    requires
        adds_call(was, c, plus, next),
    ensures
        next.calls == was.calls + 1,
        c.answered ==> next.answered == was.answered + 1,
        !c.answered ==> next.answered == was.answered,
        c.failed ==> next.failed == was.failed + 1,
        !c.failed ==> next.failed == was.failed,
        c.pdd_ms is None ==> next.pdd_ms == was.pdd_ms,
        c.pdd_ms matches Some(v) ==> next.pdd_ms.n == was.pdd_ms.n + 1 && call_ensures(
            plus,
            (was.pdd_ms.total, v),
            next.pdd_ms.total,
        ),
        c.jitter_ms is None ==> next.jitter_ms == was.jitter_ms,
        c.jitter_ms matches Some(v) ==> next.jitter_ms.n == was.jitter_ms.n + 1 && call_ensures(
            plus,
            (was.jitter_ms.total, v),
            next.jitter_ms.total,
        ),
        c.loss_pct is None ==> next.loss_pct == was.loss_pct,
        c.loss_pct matches Some(v) ==> next.loss_pct.n == was.loss_pct.n + 1 && call_ensures(
            plus,
            (was.loss_pct.total, v),
            next.loss_pct.total,
        ),
        c.rtt_ms is None ==> next.rtt_ms == was.rtt_ms,
        c.rtt_ms matches Some(v) ==> next.rtt_ms.n == was.rtt_ms.n + 1 && call_ensures(
            plus,
            (was.rtt_ms.total, v),
            next.rtt_ms.total,
        ),
        c.mos is None ==> next.mos == was.mos,
        c.mos matches Some(v) ==> next.mos.n == was.mos.n + 1 && call_ensures(
            plus,
            (was.mos.total, v),
            next.mos.total,
        ),
{
}

/// A slice goes exactly where it ended at the cutoff or before, and had begun before
/// it; the cells of the others stay.
pub proof fn a_slice_goes_when_it_is_over(m: Cells, secs: u64, start: u64, cutoff_us: u64, key: Seq<char>)
    ensures
        ({
            let n = without_old(m, secs, cutoff_us);
            let over = start < cutoff_us && start + secs * 1_000_000 <= cutoff_us;
            &&& n.contains_key(start) <==> m.contains_key(start) && !over
            &&& !over ==> cell_at(n, start, key) == cell_at(m, start, key)
            &&& n.contains_key(start) ==> n[start] == m[start]
        }),
{
}

/// A heatmap without a slice length has one slice, and any other begins at a multiple
/// of its length.
pub proof fn a_slice_begins_at_a_multiple(secs: u64, ts_us: u64)
    ensures
        slice_of(0, ts_us) == 0,
        secs > 0 ==> slice_of(secs, ts_us) <= ts_us < slice_of(secs, ts_us) + secs * 1_000_000,
        secs > 0 ==> slice_of(secs, ts_us) as int % (secs * 1_000_000) == 0,
{
    if secs > 0 {
        a_time_lies_in_its_slice(secs, ts_us);
    }
}

/// A list of cells has each cell once, with what is counted in it, by the time of its
/// slice.
pub proof fn a_list_has_each_cell_once(v: Seq<(u64, String, MetricSet)>, m: Cells, b: u64, k: Seq<char>)
    requires
        lists_cells(v, m),
    ensures
        (m.contains_key(b) && m[b].contains_key(k)) <==> exists|i: int|
            0 <= i < v.len() && (#[trigger] v[i]).0 == b && v[i].1@ == k,
        forall|i: int|
            0 <= i < v.len() && (#[trigger] v[i]).0 == b && v[i].1@ == k ==> v[i].2 == m[b][k],
        forall|i: int, j: int|
            0 <= i < j < v.len() ==> (#[trigger] v[i]).0 <= (#[trigger] v[j]).0,
{
    if m.contains_key(b) && m[b].contains_key(k) {
        assert(is_cell(m, b, k));
    }
}

} // verus!
