//! Rings of time buckets: the traffic of one address in fixed-width slices of
//! time, the newest last.
use std::collections::VecDeque;
use vstd::prelude::*;

verus! {

/// One slice of time, split by direction.
#[derive(Clone, Copy, PartialEq, Eq, Structural, Debug)]
pub struct Bucket {
    /// Packets sent.
    pub pkts_tx: u64,
    /// Packets received.
    pub pkts_rx: u64,
    /// Sent packets that were lost.
    pub lost_tx: u64,
    /// Packets lost before they were received.
    pub lost_rx: u64,
    /// Bytes sent.
    pub bytes_tx: u64,
    /// Bytes received.
    pub bytes_rx: u64,
}

/// The counts of a [`Bucket`], without a limit.
pub ghost struct Tally {
    pub pkts_tx: int,
    pub pkts_rx: int,
    pub lost_tx: int,
    pub lost_rx: int,
    pub bytes_tx: int,
    pub bytes_rx: int,
}

impl Tally {
    /// Nothing.
    pub open spec fn zero() -> Tally {
        Tally { pkts_tx: 0, pkts_rx: 0, lost_tx: 0, lost_rx: 0, bytes_tx: 0, bytes_rx: 0 }
    }

    /// Both together.
    pub open spec fn plus(self, o: Tally) -> Tally {
        Tally {
            pkts_tx: self.pkts_tx + o.pkts_tx,
            pkts_rx: self.pkts_rx + o.pkts_rx,
            lost_tx: self.lost_tx + o.lost_tx,
            lost_rx: self.lost_rx + o.lost_rx,
            bytes_tx: self.bytes_tx + o.bytes_tx,
            bytes_rx: self.bytes_rx + o.bytes_rx,
        }
    }

    /// Whether no count exceeds the other's.
    pub open spec fn at_most(self, o: Tally) -> bool {
        &&& self.pkts_tx <= o.pkts_tx
        &&& self.pkts_rx <= o.pkts_rx
        &&& self.lost_tx <= o.lost_tx
        &&& self.lost_rx <= o.lost_rx
        &&& self.bytes_tx <= o.bytes_tx
        &&& self.bytes_rx <= o.bytes_rx
    }

    /// Whether every count fits in 64 bits.
    pub open spec fn fits(self) -> bool {
        &&& 0 <= self.pkts_tx <= u64::MAX
        &&& 0 <= self.pkts_rx <= u64::MAX
        &&& 0 <= self.lost_tx <= u64::MAX
        &&& 0 <= self.lost_rx <= u64::MAX
        &&& 0 <= self.bytes_tx <= u64::MAX
        &&& 0 <= self.bytes_rx <= u64::MAX
    }
}

impl View for Bucket {
    type V = Tally;

    open spec fn view(&self) -> Tally {
        Tally {
            pkts_tx: self.pkts_tx as int,
            pkts_rx: self.pkts_rx as int,
            lost_tx: self.lost_tx as int,
            lost_rx: self.lost_rx as int,
            bytes_tx: self.bytes_tx as int,
            bytes_rx: self.bytes_rx as int,
        }
    }
}

/// The bucket of a tally that fits.
pub open spec fn bucket_of(t: Tally) -> Bucket {
    Bucket {
        pkts_tx: t.pkts_tx as u64,
        pkts_rx: t.pkts_rx as u64,
        lost_tx: t.lost_tx as u64,
        lost_rx: t.lost_rx as u64,
        bytes_tx: t.bytes_tx as u64,
        bytes_rx: t.bytes_rx as u64,
    }
}

impl Bucket {
    /// An empty bucket.
    pub fn empty() -> (r: Bucket)
        ensures
            r@ == Tally::zero(),
            r == bucket_of(Tally::zero()),
    {
        Bucket { pkts_tx: 0, pkts_rx: 0, lost_tx: 0, lost_rx: 0, bytes_tx: 0, bytes_rx: 0 }
    }

    /// Both buckets together.
    pub fn plus(&self, o: Bucket) -> (r: Bucket)
        requires
            self@.plus(o@).fits(),
        ensures
            r@ == self@.plus(o@),
            r == bucket_of(self@.plus(o@)),
    {
        Bucket {
            pkts_tx: self.pkts_tx + o.pkts_tx,
            pkts_rx: self.pkts_rx + o.pkts_rx,
            lost_tx: self.lost_tx + o.lost_tx,
            lost_rx: self.lost_rx + o.lost_rx,
            bytes_tx: self.bytes_tx + o.bytes_tx,
            bytes_rx: self.bytes_rx + o.bytes_rx,
        }
    }

    /// Packets in both directions.
    pub fn packets(&self) -> (r: u128)
        ensures
            r == self.pkts_tx + self.pkts_rx,
    {
        self.pkts_tx as u128 + self.pkts_rx as u128
    }

    /// Losses in both directions.
    pub fn lost(&self) -> (r: u128)
        ensures
            r == self.lost_tx + self.lost_rx,
    {
        self.lost_tx as u128 + self.lost_rx as u128
    }
}

/// The buckets of a ring, each with the number of its slice of time.
pub type Slots = Seq<(u64, Bucket)>;

/// Everything that the buckets count.
pub open spec fn tally(s: Slots) -> Tally
    decreases s.len(),
{
    if s.len() == 0 {
        Tally::zero()
    } else {
        tally(s.drop_last()).plus(s.last().1@)
    }
}

/// `n` empty buckets from slice `key` on.
pub open spec fn blank(key: int, n: nat) -> Slots {
    Seq::new(n, |i: int| ((key + i) as u64, bucket_of(Tally::zero())))
}

/// The last `n` members of a sequence, or all of it.
pub open spec fn newest<T>(s: Seq<T>, n: int) -> Seq<T> {
    s.skip(
        if s.len() > n {
            s.len() - n
        } else {
            0
        },
    )
}

/// The ring brought forward to slice `key`: empty buckets follow for the
/// slices in between, and the oldest go beyond `retain`.
pub open spec fn aligned(s: Slots, key: u64, retain: int) -> Slots {
    if s.len() == 0 {
        blank(key as int, 1)
    } else if s.last().0 < key {
        newest(s + blank(s.last().0 + 1, (key - s.last().0) as nat), retain)
    } else {
        s
    }
}

/// The position from `i` on of the bucket for slice `key`, else 0.
pub open spec fn place_from(s: Slots, key: u64, i: int) -> int
    decreases s.len() - i,
{
    if i < 0 || i >= s.len() {
        0
    } else if s[i].0 == key {
        i
    } else {
        place_from(s, key, i + 1)
    }
}

/// The position of the bucket for slice `key`; the oldest where the ring no
/// longer has that slice.
pub open spec fn place(s: Slots, key: u64) -> int {
    if s.last().0 == key {
        s.len() - 1
    } else {
        place_from(s, key, 0)
    }
}

/// What it does to a ring to credit `t` to slice `key`.
pub open spec fn credited(s: Slots, key: u64, retain: int, t: Tally) -> Slots {
    let a = aligned(s, key, retain);
    let i = place(a, key);
    a.update(i, (a[i].0, bucket_of(a[i].1@.plus(t))))
}

/// A ring holds consecutive slices, no more than `retain` of them and none
/// past `last`.
pub open spec fn ring_wf(s: Slots, retain: int, last: int) -> bool {
    &&& s.len() <= retain
    &&& forall|i: int| 0 <= i < s.len() ==> (#[trigger] s[i]).0 == s[0].0 + i
    &&& forall|i: int| 0 <= i < s.len() ==> (#[trigger] s[i]).0 <= last
}

pub proof fn lemma_tally_push(s: Slots, x: (u64, Bucket))
    ensures
        tally(s.push(x)) == tally(s).plus(x.1@),
{
    assert(s.push(x).drop_last() =~= s);
}

pub proof fn lemma_tally_sum(a: Slots, b: Slots)
    ensures
        tally(a + b) == tally(a).plus(tally(b)),
    decreases b.len(),
{
    if b.len() == 0 {
        assert(a + b =~= a);
    } else {
        assert((a + b).drop_last() =~= a + b.drop_last());
        lemma_tally_sum(a, b.drop_last());
    }
}

pub proof fn lemma_tally_nonneg(s: Slots)
    ensures
        Tally::zero().at_most(tally(s)),
    decreases s.len(),
{
    if s.len() > 0 {
        lemma_tally_nonneg(s.drop_last());
    }
}

pub proof fn lemma_tally_blank(key: int, n: nat)
    ensures
        tally(blank(key, n)) == Tally::zero(),
    decreases n,
{
    if n > 0 {
        assert(blank(key, n).drop_last() =~= blank(key, (n - 1) as nat));
        lemma_tally_blank(key, (n - 1) as nat);
    }
}

/// The newest buckets count no more than all.
pub proof fn lemma_tally_newest(s: Slots, n: int)
    requires
        n >= 0,
    ensures
        tally(newest(s, n)).at_most(tally(s)),
        Tally::zero().at_most(tally(newest(s, n))),
{
    let k = if s.len() > n {
        s.len() - n
    } else {
        0
    };
    assert(s =~= s.take(k) + s.skip(k));
    lemma_tally_sum(s.take(k), s.skip(k));
    lemma_tally_nonneg(s.take(k));
    lemma_tally_nonneg(s.skip(k));
}

pub proof fn lemma_tally_aligned(s: Slots, key: u64, retain: int)
    requires
        retain >= 1,
    ensures
        tally(aligned(s, key, retain)).at_most(tally(s)),
        Tally::zero().at_most(tally(aligned(s, key, retain))),
{
    lemma_tally_nonneg(s);
    if s.len() == 0 {
        lemma_tally_blank(key as int, 1);
    } else if s.last().0 < key {
        let more = blank(s.last().0 + 1, (key - s.last().0) as nat);
        lemma_tally_blank(s.last().0 + 1, (key - s.last().0) as nat);
        lemma_tally_sum(s, more);
        lemma_tally_newest(s + more, retain);
    }
}

pub proof fn lemma_tally_update(s: Slots, i: int, x: (u64, Bucket))
    requires
        0 <= i < s.len(),
    ensures
        tally(s.update(i, x)).plus(s[i].1@) == tally(s).plus(x.1@),
        s[i].1@.at_most(tally(s)),
{
    let a = s.take(i);
    let b = s.skip(i + 1);
    assert(s =~= a.push(s[i]) + b);
    assert(s.update(i, x) =~= a.push(x) + b);
    lemma_tally_sum(a.push(s[i]), b);
    lemma_tally_sum(a.push(x), b);
    lemma_tally_push(a, s[i]);
    lemma_tally_push(a, x);
    lemma_tally_nonneg(a);
    lemma_tally_nonneg(b);
}

/// `VecDeque::get_mut`: the member at a position, to be changed in place.
#[verifier::external_body]
fn slot_mut(ring: &mut VecDeque<(u64, Bucket)>, i: usize) -> (r: Option<&mut (u64, Bucket)>)
    ensures
        match r {
            Some(x) => {
                &&& i < old(ring)@.len()
                &&& *x == old(ring)@[i as int]
                &&& final(ring)@ == old(ring)@.update(i as int, *final(x))
            },
            None => i >= old(ring)@.len() && final(ring)@ == old(ring)@,
        },
{
    ring.get_mut(i)
}

/// Brings a ring forward to slice `key` and finds its bucket there.
fn locate(ring: &mut VecDeque<(u64, Bucket)>, key: u64, retain: usize) -> (r: usize)
    requires
        retain >= 1,
        old(ring)@.len() <= retain,
        ring_wf(old(ring)@, retain as int, u64::MAX as int),
    ensures
        final(ring)@ == aligned(old(ring)@, key, retain as int),
        r == place(final(ring)@, key),
        r < final(ring)@.len(),
{
    let ghost was = ring@;
    let n = ring.len();
    if n == 0 {
        ring.push_back((key, Bucket::empty()));
        assert(ring@ =~= blank(key as int, 1));
        return 0;
    }
    let first: u64 = ring[n - 1].0;
    let mut last: u64 = first;
    while last < key
        invariant
            retain >= 1,
            was.len() >= 1,
            was.len() <= retain,
            first == was.last().0,
            first <= last,
            last <= key || last == first,
            ring@ == newest(was + blank(first + 1, (last - first) as nat), retain as int),
        decreases key - last,
    {
        let ghost more = was + blank(first + 1, (last - first) as nat);
        let full = ring.len() >= retain;
        if full {
            ring.pop_front();
        }
        ring.push_back((last + 1, Bucket::empty()));
        last += 1;
        proof {
            let next = was + blank(first + 1, (last - first) as nat);
            assert(next =~= more.push((last, bucket_of(Tally::zero()))));
            assert(ring@ =~= newest(next, retain as int));
        }
    }
    proof {
        assert(was + blank(first + 1, 0) =~= was);
        assert(newest(was, retain as int) =~= was);
        assert(ring@ =~= aligned(was, key, retain as int));
        assert(ring@.len() >= 1);
        assert(ring@.last().0 == last);
    }
    let n = ring.len();
    if last == key {
        return n - 1;
    }
    let mut i: usize = 0;
    while i < n
        invariant
            i <= n == ring@.len(),
            n >= 1,
            was == old(ring)@,
            ring@ == aligned(was, key, retain as int),
            ring@.last().0 != key,
            place(ring@, key) == place_from(ring@, key, i as int),
        decreases n - i,
    {
        if ring[i].0 == key {
            return i;
        }
        i += 1;
    }
    0
}

/// Finds the bucket for time `ts_us` in a ring of slices that are `width_us`
/// wide, to be changed in place. The ring is brought forward to that time: it
/// still holds consecutive slices, the newest is that of the time or a later one,
/// slices that stay keep their buckets, and new ones have empty buckets.
pub fn bucket_mut(
    ring: &mut VecDeque<(u64, Bucket)>,
    ts_us: u64,
    width_us: u64,
    retain: usize,
) -> (r: &mut Bucket)
    requires
        width_us >= 1,
        retain >= 1,
        ring_wf(old(ring)@, retain as int, u64::MAX as int),
    ensures
        ({
            let key = ts_us / width_us;
            let a = aligned(old(ring)@, key, retain as int);
            let i = place(a, key);
            &&& reaches(old(ring)@, key, retain as int, a, i)
            &&& *r == a[i].1
            &&& final(ring)@ == a.update(i, (a[i].0, *final(r)))
        }),
{
    let key: u64 = ts_us / width_us;
    proof {
        a_time_finds_its_bucket(ring@, key, retain as int);
    }
    let i = locate(ring, key, retain);
    &mut slot_mut(ring, i).unwrap().1
}

/// Credits `more` to the slice of time `ts_us` of a ring.
pub(crate) fn credit(
    ring: &mut VecDeque<(u64, Bucket)>,
    ts_us: u64,
    width_us: u64,
    retain: usize,
    more: Bucket,
)
    requires
        width_us >= 1,
        retain >= 1,
        ring_wf(old(ring)@, retain as int, u64::MAX as int),
        tally(old(ring)@).plus(more@).fits(),
    ensures
        final(ring)@ == credited(old(ring)@, ts_us / width_us, retain as int, more@),
        tally(final(ring)@).at_most(tally(old(ring)@).plus(more@)),
{
    let ghost was = ring@;
    let ghost key = ts_us / width_us;
    let ghost a = aligned(was, key, retain as int);
    let ghost i = place(a, key);
    let b = bucket_mut(ring, ts_us, width_us, retain);
    proof {
        lemma_tally_aligned(was, key, retain as int);
        lemma_tally_update(a, i, (a[i].0, bucket_of(a[i].1@.plus(more@))));
    }
    *b = b.plus(more);
}

proof fn lemma_place_range(s: Slots, key: u64, i: int)
    requires
        s.len() > 0,
    ensures
        0 <= place_from(s, key, i) < s.len(),
    decreases s.len() - i,
{
    if 0 <= i < s.len() && s[i].0 != key {
        lemma_place_range(s, key, i + 1);
    }
}

/// Whether a ring has a bucket for a slice.
pub open spec fn has_slice(s: Slots, key: u64) -> bool {
    exists|i: int| 0 <= i < s.len() && (#[trigger] s[i]).0 == key
}

/// Whether `a` is the ring `s` brought forward to slice `key`, with the bucket for
/// that slice at place `i`.
pub open spec fn reaches(s: Slots, key: u64, retain: int, a: Slots, i: int) -> bool {
    &&& ring_wf(a, retain, u64::MAX as int)
    &&& a.len() >= 1
    &&& a.last().0 == if s.len() > 0 && s.last().0 > key {
        s.last().0
    } else {
        key
    }
    &&& s.len() > 0 ==> a[0].0 == s[0].0 || a.len() == retain
    &&& forall|x: int, y: int|
        0 <= x < a.len() && 0 <= y < s.len() && (#[trigger] a[x]).0 == (#[trigger] s[y]).0 ==> a[x]
            == s[y]
    &&& forall|x: int|
        0 <= x < a.len() && !has_slice(s, (#[trigger] a[x]).0) ==> a[x].1 == bucket_of(Tally::zero())
    &&& 0 <= i < a.len()
    &&& a[i].0 == key || (i == 0 && key < a[0].0)
}

proof fn lemma_place_found(s: Slots, key: u64, i: int)
    requires
        0 <= i <= s.len(),
        s.len() > 0,
        forall|j: int| 0 <= j < i ==> (#[trigger] s[j]).0 != key,
    ensures
        0 <= place_from(s, key, i) < s.len(),
        s[place_from(s, key, i)].0 == key || (place_from(s, key, i) == 0 && !has_slice(s, key)),
    decreases s.len() - i,
{
    if i < s.len() && s[i].0 != key {
        lemma_place_found(s, key, i + 1);
    }
}

/// A ring that is brought forward to a slice still holds consecutive slices and
/// no more than are kept. Its newest slice is that one, or a later one that it
/// had. Slices that stay keep their buckets, new ones have empty buckets, and
/// slices go only where there are too many. The bucket that is found is that of
/// the slice, or the oldest where the slice is older than all.
pub proof fn a_time_finds_its_bucket(s: Slots, key: u64, retain: int)
    requires
        retain >= 1,
        ring_wf(s, retain, u64::MAX as int),
    ensures
        reaches(s, key, retain, aligned(s, key, retain), place(aligned(s, key, retain), key)),
{
    let a = aligned(s, key, retain);
    if s.len() > 0 {
        assert(s[s.len() - 1].0 == s[0].0 + s.len() - 1);
    }
    if s.len() > 0 && s.last().0 < key {
        let more = s + blank(s.last().0 + 1, (key - s.last().0) as nat);
        let k = if more.len() > retain {
            more.len() - retain
        } else {
            0
        };
        assert forall|x: int| 0 <= x < more.len() implies (#[trigger] more[x]).0 == s[0].0 + x by {
            if x < s.len() {
                assert(more[x] == s[x]);
            }
        }
        assert forall|x: int| 0 <= x < a.len() implies (#[trigger] a[x]).0 == s[0].0 + k + x by {
            assert(a[x] == more[x + k]);
        }
        assert(a.last().0 == key);
        assert forall|x: int, y: int|
            0 <= x < a.len() && 0 <= y < s.len() && (#[trigger] a[x]).0 == (
            #[trigger] s[y]).0 implies a[x] == s[y] by {
            assert(a[x] == more[x + k]);
        }
        assert forall|x: int|
            0 <= x < a.len() && !has_slice(s, (#[trigger] a[x]).0) implies a[x].1 == bucket_of(
            Tally::zero(),
        ) by {
            assert(a[x] == more[x + k]);
            if x + k < s.len() {
                assert(s[x + k].0 == a[x].0);
            }
        }
    } else if s.len() > 0 {
        assert forall|x: int, y: int|
            0 <= x < a.len() && 0 <= y < s.len() && (#[trigger] a[x]).0 == (
            #[trigger] s[y]).0 implies a[x] == s[y] by {
            assert(a[x].0 == s[0].0 + x && s[y].0 == s[0].0 + y);
        }
        assert forall|x: int|
            0 <= x < a.len() && !has_slice(s, (#[trigger] a[x]).0) implies a[x].1 == bucket_of(
            Tally::zero(),
        ) by {
            assert(s[x].0 == a[x].0);
        }
    }
    lemma_place_found(a, key, 0);
    if a.last().0 != key && !has_slice(a, key) && key >= a[0].0 {
        let x = key - a[0].0;
        assert(a[a.len() - 1].0 == a[0].0 + a.len() - 1);
        assert(a[x].0 == key);
    }
}

/// A ring stays well formed when something is credited to it.
pub proof fn lemma_credited_wf(s: Slots, key: u64, retain: int, t: Tally, last: int)
    requires
        retain >= 1,
        ring_wf(s, retain, last),
        key <= last <= u64::MAX,
    ensures
        ring_wf(credited(s, key, retain, t), retain, last),
{
    let a = aligned(s, key, retain);
    if s.len() > 0 && s.last().0 < key {
        let more = s + blank(s.last().0 + 1, (key - s.last().0) as nat);
        assert forall|i: int| 0 <= i < more.len() implies (#[trigger] more[i]).0 == more[0].0 + i by {
            assert(s[s.len() - 1].0 == s[0].0 + s.len() - 1);
        }
        let k = if more.len() > retain {
            more.len() - retain
        } else {
            0
        };
        assert forall|i: int| 0 <= i < a.len() implies (#[trigger] a[i]).0 == a[0].0 + i && a[i].0
            <= last by {
            assert(a[i] == more[i + k]);
            assert(a[0] == more[0 + k]);
        }
    }
    lemma_place_range(a, key, 0);
    let c = credited(s, key, retain, t);
    assert forall|i: int| 0 <= i < c.len() implies (#[trigger] c[i]).0 == c[0].0 + i && c[i].0
        <= last by {
        assert(c[i].0 == a[i].0);
        assert(c[0].0 == a[0].0);
    }
}

proof fn lemma_place_keys(s: Slots, t: Slots, key: u64, i: int)
    requires
        s.len() == t.len(),
        forall|j: int| 0 <= j < s.len() ==> (#[trigger] s[j]).0 == t[j].0,
    ensures
        place_from(s, key, i) == place_from(t, key, i),
    decreases s.len() - i,
{
    if 0 <= i < s.len() && s[i].0 != key {
        lemma_place_keys(s, t, key, i + 1);
    }
}

/// To credit two tallies to one slice, one after the other, is to credit
/// their sum.
pub proof fn crediting_twice_is_crediting_the_sum(s: Slots, key: u64, retain: int, t: Tally, u: Tally)
    requires
        retain >= 1,
        t.fits(),
        u.fits(),
        tally(s).plus(t).plus(u).fits(),
    ensures
        credited(credited(s, key, retain, t), key, retain, u) == credited(
            s,
            key,
            retain,
            t.plus(u),
        ),
{
    let a = aligned(s, key, retain);
    lemma_tally_aligned(s, key, retain);
    if s.len() > 0 && s.last().0 < key {
        let more = s + blank(s.last().0 + 1, (key - s.last().0) as nat);
        assert(a.last() == more.last());
        assert(more.last().0 == key);
    }
    assert(a.len() > 0 && a.last().0 >= key);
    lemma_place_range(a, key, 0);
    let i = place(a, key);
    lemma_tally_update(a, i, a[i]);
    let c = credited(s, key, retain, t);
    assert(c.last().0 == a.last().0);
    assert(aligned(c, key, retain) == c);
    lemma_place_keys(a, c, key, 0);
    assert(place(c, key) == i);
    assert(bucket_of(a[i].1@.plus(t))@ == a[i].1@.plus(t));
    assert(c[i].1@.plus(u) == a[i].1@.plus(t.plus(u)));
    assert(credited(c, key, retain, u) =~= credited(s, key, retain, t.plus(u)));
}

/// A tally adds up field by field: nothing for no slots, a bucket's own counts for
/// one, and the two tallies together for one ring after another.
pub proof fn a_tally_adds_up(a: Slots, b: Slots, x: (u64, Bucket))
    ensures
        ({
            let none = tally(Seq::empty());
            &&& none.pkts_tx == 0 && none.pkts_rx == 0 && none.lost_tx == 0 && none.lost_rx == 0
            &&& none.bytes_tx == 0 && none.bytes_rx == 0
        }),
        ({
            let one = tally(seq![x]);
            &&& one.pkts_tx == x.1.pkts_tx && one.pkts_rx == x.1.pkts_rx
            &&& one.lost_tx == x.1.lost_tx && one.lost_rx == x.1.lost_rx
            &&& one.bytes_tx == x.1.bytes_tx && one.bytes_rx == x.1.bytes_rx
        }),
        ({
            let all = tally(a + b);
            &&& all.pkts_tx == tally(a).pkts_tx + tally(b).pkts_tx
            &&& all.pkts_rx == tally(a).pkts_rx + tally(b).pkts_rx
            &&& all.lost_tx == tally(a).lost_tx + tally(b).lost_tx
            &&& all.lost_rx == tally(a).lost_rx + tally(b).lost_rx
            &&& all.bytes_tx == tally(a).bytes_tx + tally(b).bytes_tx
            &&& all.bytes_rx == tally(a).bytes_rx + tally(b).bytes_rx
        }),
{
    lemma_tally_sum(a, b);
    let one = seq![x];
    assert(one.drop_last() =~= Seq::<(u64, Bucket)>::empty());
    assert(tally(one.drop_last()) == Tally::zero());
}

/// Whether a bucket is another with a tally added, field by field.
pub open spec fn grown_by(is: Bucket, was: Bucket, t: Tally) -> bool {
    &&& is.pkts_tx == was.pkts_tx + t.pkts_tx
    &&& is.pkts_rx == was.pkts_rx + t.pkts_rx
    &&& is.lost_tx == was.lost_tx + t.lost_tx
    &&& is.lost_rx == was.lost_rx + t.lost_rx
    &&& is.bytes_tx == was.bytes_tx + t.bytes_tx
    &&& is.bytes_rx == was.bytes_rx + t.bytes_rx
}

/// Whether nothing is counted in a bucket.
pub open spec fn is_empty(b: Bucket) -> bool {
    &&& b.pkts_tx == 0 && b.pkts_rx == 0 && b.lost_tx == 0
    &&& b.lost_rx == 0 && b.bytes_tx == 0 && b.bytes_rx == 0
}

/// What is credited to a slice goes to its bucket, or to the oldest one where the
/// slice is older than all that are kept. The newest slice is the later of the old
/// newest and this one. Every other bucket is as it was, or empty where its slice
/// is new.
pub proof fn a_credit_goes_to_its_slice(s: Slots, key: u64, retain: int, t: Tally)
    requires
        retain >= 1,
        ring_wf(s, retain, u64::MAX as int),
        t.fits(),
        tally(s).plus(t).fits(),
    ensures
        ({
            let c = credited(s, key, retain, t);
            &&& 1 <= c.len() <= retain
            &&& s.len() > 0 && s.last().0 >= key ==> c.last().0 == s.last().0 && c.len() == s.len()
            &&& s.len() == 0 || s.last().0 < key ==> c.last().0 == key
            &&& s.len() > 0 && c.len() < retain ==> c[0].0 == s[0].0
            &&& forall|j: int| 0 <= j < c.len() ==> (#[trigger] c[j]).0 == c[0].0 + j
            &&& forall|j: int, y: int|
                0 <= j < c.len() && 0 <= y < s.len() && (#[trigger] c[j]).0 == (#[trigger] s[y]).0
                    ==> if c[j].0 == key || (j == 0 && key < c[0].0) {
                    grown_by(c[j].1, s[y].1, t)
                } else {
                    c[j].1 == s[y].1
                }
            &&& forall|j: int|
                0 <= j < c.len() && !has_slice(s, (#[trigger] c[j]).0) ==> if c[j].0 == key || (j == 0
                    && key < c[0].0) {
                    exists|b: Bucket| is_empty(b) && #[trigger] grown_by(c[j].1, b, t)
                } else {
                    is_empty(c[j].1)
                }
        }),
{
    a_time_finds_its_bucket(s, key, retain);
    let a = aligned(s, key, retain);
    let i = place(a, key);
    let c = credited(s, key, retain, t);
    lemma_tally_aligned(s, key, retain);
    lemma_tally_update(a, i, a[i]);
    let was = a[i].1@;
    assert(was.plus(t).fits());
    assert(grown_by(c[i].1, a[i].1, t));
    assert(a.len() == c.len());
    assert(forall|j: int| 0 <= j < a.len() && j != i ==> #[trigger] c[j] == a[j]);
    assert(forall|j: int| 0 <= j < a.len() ==> (#[trigger] c[j]).0 == a[j].0);
    assert forall|j: int| 0 <= j < c.len() implies (#[trigger] c[j]).0 == c[0].0 + j by {
        assert(a[j].0 == a[0].0 + j);
    }
    assert forall|j: int| 0 <= j < c.len() implies (j == i <==> (#[trigger] c[j]).0 == key || (j == 0
        && key < c[0].0)) by {
        assert(c[j].0 == c[0].0 + j);
        assert(c[i].0 == c[0].0 + i);
    }
    assert forall|j: int| 0 <= j < c.len() && !has_slice(s, (#[trigger] c[j]).0) implies if c[j].0
        == key || (j == 0 && key < c[0].0) {
        exists|b: Bucket| is_empty(b) && #[trigger] grown_by(c[j].1, b, t)
    } else {
        is_empty(c[j].1)
    } by {
        assert(!has_slice(s, a[j].0));
        assert(a[j].1 == bucket_of(Tally::zero()));
        assert(is_empty(a[j].1));
        if j == i {
            assert(is_empty(a[j].1) && grown_by(c[j].1, a[j].1, t));
        }
    }
    assert forall|j: int, y: int|
        0 <= j < c.len() && 0 <= y < s.len() && (#[trigger] c[j]).0 == (#[trigger] s[y]).0 implies (
    if c[j].0 == key || (j == 0 && key < c[0].0) {
        grown_by(c[j].1, s[y].1, t)
    } else {
        c[j].1 == s[y].1
    }) by {
        assert(a[j].0 == s[y].0);
        assert(a[j] == s[y]);
    }
    if s.len() > 0 && s.last().0 >= key {
        assert(a == s);
    }
}

/// Where no slice leaves, a credit adds its tally to that of the whole ring.
pub proof fn a_credit_is_counted_whole(s: Slots, key: u64, retain: int, t: Tally)
    requires
        retain >= 1,
        ring_wf(s, retain, u64::MAX as int),
        t.fits(),
        tally(s).plus(t).fits(),
        s.len() > 0 ==> key < s[0].0 + retain,
    ensures
        ({
            let n = tally(credited(s, key, retain, t));
            let o = tally(s);
            &&& n.pkts_tx == o.pkts_tx + t.pkts_tx && n.pkts_rx == o.pkts_rx + t.pkts_rx
            &&& n.lost_tx == o.lost_tx + t.lost_tx && n.lost_rx == o.lost_rx + t.lost_rx
            &&& n.bytes_tx == o.bytes_tx + t.bytes_tx && n.bytes_rx == o.bytes_rx + t.bytes_rx
        }),
{
    a_time_finds_its_bucket(s, key, retain);
    let a = aligned(s, key, retain);
    let i = place(a, key);
    if s.len() == 0 {
        lemma_tally_blank(key as int, 1);
        assert(tally(s) == Tally::zero());
    } else if s.last().0 < key {
        let n = (key - s.last().0) as nat;
        lemma_tally_blank(s.last().0 + 1, n);
        lemma_tally_sum(s, blank(s.last().0 + 1, n));
        assert(s[s.len() - 1].0 == s[0].0 + s.len() - 1);
        let more = s + blank(s.last().0 + 1, n);
        assert(more.len() == key - s[0].0 + 1);
        assert(more.skip(0) =~= more);
    }
    assert(tally(a) == tally(s));
    lemma_tally_nonneg(a);
    lemma_tally_update(a, i, a[i]);
    let x = (a[i].0, bucket_of(a[i].1@.plus(t)));
    assert(a[i].1@.plus(t).fits());
    lemma_tally_update(a, i, x);
}

/// The newest `n` slots of a ring are those whose slice lies less than `n` slices
/// before the newest.
pub proof fn the_newest_slots_are_the_last_slices(s: Slots, n: int, older: Slots, recent: Slots)
    requires
        n >= 0,
        forall|i: int| 0 <= i < s.len() ==> (#[trigger] s[i]).0 == s[0].0 + i,
        s == older + recent,
        forall|i: int| 0 <= i < older.len() ==> (#[trigger] older[i]).0 + n <= s.last().0,
        forall|i: int| 0 <= i < recent.len() ==> (#[trigger] recent[i]).0 + n > s.last().0,
    ensures
        newest(s, n) == recent,
{
    let k = older.len() as int;
    assert(recent =~= s.skip(k));
    if s.len() > 0 {
        assert(s[s.len() - 1].0 == s[0].0 + s.len() - 1);
        if k > 0 {
            assert(s[k - 1] == older[k - 1]);
            assert(s[k - 1].0 == s[0].0 + k - 1);
        }
        if k < s.len() {
            assert(s[k] == recent[0]);
            assert(s[k].0 == s[0].0 + k);
        }
    }
}

} // verus!
