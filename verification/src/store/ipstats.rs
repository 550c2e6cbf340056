//! Per-address traffic statistics, split by direction: all-time totals, and
//! the loss over the last seconds, minutes and hour.
use crate::addr::{IpAddr, IpKey};
use crate::model::ratio::Ratio;
use crate::order::{
    an_order_lists_every_place_once, lemma_order_covers, ranks_before, sorts, stable_order, Rank,
};
use crate::store::ring::{
    a_credit_goes_to_its_slice, a_credit_is_counted_whole, credit, credited, crediting_twice_is_crediting_the_sum, lemma_credited_wf, lemma_tally_newest,
    lemma_tally_nonneg, lemma_tally_push, lemma_tally_sum, newest, ring_wf, tally,
    the_newest_slots_are_the_last_slices, Bucket, Slots, Tally,
};
use crate::table::{lists, Key, Table};
use std::collections::VecDeque;
use vstd::prelude::*;

verus! {

/// The windows on offer: their length in seconds, and a label. The length 0
/// stands for all time.
pub const WINDOWS: [(u64, &'static str); 8] = [
    (1, "1s"),
    (5, "5s"),
    (10, "10s"),
    (20, "20s"),
    (60, "1m"),
    (600, "10m"),
    (3600, "1h"),
    (0, "all"),
];

/// How many buckets of one second are kept.
pub const SEC1_RETAIN: u64 = 600;

/// How many buckets of one minute are kept.
pub const SEC60_RETAIN: u64 = 60;

/// Microseconds in a second.
pub const SECOND: u64 = 1_000_000;

/// Microseconds in a minute.
pub const MINUTE: u64 = 60_000_000;

/// The direction of a packet, seen from an address.
#[derive(Clone, Copy, PartialEq, Eq, Structural, Debug)]
pub enum Dir {
    /// The address sent it.
    Tx,
    /// The address received it.
    Rx,
}

/// The statistics of one address.
pub struct IpStats {
    /// The address.
    pub ip: IpAddr,
    /// Calls in progress that involve it.
    pub active_calls: u32,
    /// Packets sent.
    pub pkts_tx: u64,
    /// Packets received.
    pub pkts_rx: u64,
    /// Sent packets that were lost.
    pub lost_tx: u64,
    /// Packets lost before they were received.
    pub lost_rx: u64,
    /// Bytes sent.
    pub bytes_tx: u64,
    /// Bytes received.
    pub bytes_rx: u64,
    /// When it was first seen.
    pub first_seen_us: Option<u64>,
    /// When it was last seen.
    pub last_seen_us: Option<u64>,
    /// Buckets of one second, the newest last.
    pub sec1: VecDeque<(u64, Bucket)>,
    /// Buckets of one minute, the newest last.
    pub sec60: VecDeque<(u64, Bucket)>,
}

/// An [`IpStats`] in mathematical terms.
#[verifier::ext_equal]
pub ghost struct IpModel {
    pub ip: IpAddr,
    pub active_calls: u32,
    pub total: Tally,
    pub first_seen_us: Option<u64>,
    pub last_seen_us: Option<u64>,
    pub sec1: Slots,
    pub sec60: Slots,
}

impl View for IpStats {
    type V = IpModel;

    open spec fn view(&self) -> IpModel {
        IpModel {
            ip: self.ip,
            active_calls: self.active_calls,
            total: Tally {
                pkts_tx: self.pkts_tx as int,
                pkts_rx: self.pkts_rx as int,
                lost_tx: self.lost_tx as int,
                lost_rx: self.lost_rx as int,
                bytes_tx: self.bytes_tx as int,
                bytes_rx: self.bytes_rx as int,
            },
            first_seen_us: self.first_seen_us,
            last_seen_us: self.last_seen_us,
            sec1: self.sec1@,
            sec60: self.sec60@,
        }
    }
}

/// What holds of the statistics of an address: the rings are in order, and no
/// ring counts more than the totals.
pub open spec fn stats_wf(m: IpModel) -> bool {
    &&& ring_wf(m.sec1, SEC1_RETAIN as int, u64::MAX as int / SECOND as int)
    &&& ring_wf(m.sec60, SEC60_RETAIN as int, u64::MAX as int / MINUTE as int)
    &&& tally(m.sec1).at_most(m.total)
    &&& tally(m.sec60).at_most(m.total)
    &&& m.total.fits()
}

/// The statistics of an address of which nothing was seen.
pub open spec fn unseen(ip: IpAddr) -> IpModel {
    IpModel {
        ip,
        active_calls: 0,
        total: Tally::zero(),
        first_seen_us: None,
        last_seen_us: None,
        sec1: Seq::empty(),
        sec60: Seq::empty(),
    }
}

/// `count` packets of `bytes` bytes in one direction.
pub open spec fn traffic(count: u64, bytes: u64, dir: Dir) -> Tally {
    match dir {
        Dir::Tx => Tally { pkts_tx: count as int, bytes_tx: bytes as int, ..Tally::zero() },
        Dir::Rx => Tally { pkts_rx: count as int, bytes_rx: bytes as int, ..Tally::zero() },
    }
}

/// `lost` losses in one direction.
pub open spec fn losses(lost: u64, dir: Dir) -> Tally {
    match dir {
        Dir::Tx => Tally { lost_tx: lost as int, ..Tally::zero() },
        Dir::Rx => Tally { lost_rx: lost as int, ..Tally::zero() },
    }
}

/// `t` added to the totals and to the buckets of time `ts_us`.
pub open spec fn booked(m: IpModel, ts_us: u64, t: Tally) -> IpModel {
    IpModel {
        total: m.total.plus(t),
        sec1: credited(m.sec1, ts_us / SECOND, SEC1_RETAIN as int, t),
        sec60: credited(m.sec60, ts_us / MINUTE, SEC60_RETAIN as int, t),
        ..m
    }
}

/// What packets do to the statistics: nothing where there are none.
pub open spec fn with_packets(m: IpModel, ts_us: u64, count: u64, bytes: u64, dir: Dir) -> IpModel {
    if count == 0 && bytes == 0 {
        m
    } else {
        IpModel {
            first_seen_us: Some(
                match m.first_seen_us {
                    Some(t) => t,
                    None => ts_us,
                },
            ),
            last_seen_us: Some(
                match m.last_seen_us {
                    Some(t) if t > ts_us => t,
                    _ => ts_us,
                },
            ),
            ..booked(m, ts_us, traffic(count, bytes, dir))
        }
    }
}

/// What losses do to the statistics: nothing where there are none.
pub open spec fn with_losses(m: IpModel, ts_us: u64, lost: u64, dir: Dir) -> IpModel {
    if lost == 0 {
        m
    } else {
        IpModel {
            last_seen_us: Some(
                match m.last_seen_us {
                    Some(t) => t,
                    None => ts_us,
                },
            ),
            ..booked(m, ts_us, losses(lost, dir))
        }
    }
}

/// What a change of the number of calls does to the statistics. The number
/// stops at the ends of its range.
pub open spec fn with_calls(m: IpModel, delta: int) -> IpModel {
    let n = m.active_calls + delta;
    IpModel {
        active_calls: if n < 0 {
            0
        } else if n > u32::MAX {
            u32::MAX
        } else {
            n as u32
        },
        ..m
    }
}

/// The minutes that seconds take up, the last one begun.
pub open spec fn minutes(secs: int) -> int {
    secs / 60 + if secs % 60 > 0 {
        1int
    } else {
        0int
    }
}

/// The buckets of the last `window_secs` seconds: those of a second for up to
/// ten minutes, else those of a minute.
pub open spec fn slots_in(m: IpModel, window_secs: u64) -> Slots {
    if window_secs <= SEC1_RETAIN {
        newest(m.sec1, window_secs as int)
    } else {
        newest(m.sec60, minutes(window_secs as int))
    }
}

/// What was counted in the last `window_secs` seconds; 0 stands for all time.
pub open spec fn counted_in(m: IpModel, window_secs: u64) -> Tally {
    if window_secs == 0 {
        m.total
    } else {
        tally(slots_in(m, window_secs))
    }
}

/// The packets of one direction.
pub open spec fn pkts_of(t: Tally, dir: Dir) -> int {
    match dir {
        Dir::Tx => t.pkts_tx,
        Dir::Rx => t.pkts_rx,
    }
}

/// The losses of one direction.
pub open spec fn lost_of(t: Tally, dir: Dir) -> int {
    match dir {
        Dir::Tx => t.lost_tx,
        Dir::Rx => t.lost_rx,
    }
}

/// The bytes of one direction.
pub open spec fn bytes_of(t: Tally, dir: Dir) -> int {
    match dir {
        Dir::Tx => t.bytes_tx,
        Dir::Rx => t.bytes_rx,
    }
}

/// Losses out of packets. There are no more losses than packets in it, so it
/// is at most the whole.
pub open spec fn loss_of(lost: int, packets: int) -> Ratio {
    Ratio {
        part: if lost < packets {
            lost as u128
        } else {
            packets as u128
        },
        whole: packets as u128,
    }
}

/// Losses out of packets, where there are packets.
pub open spec fn share(lost: int, packets: int) -> Option<Ratio> {
    if packets == 0 {
        None
    } else {
        Some(loss_of(lost, packets))
    }
}

fn loss_ratio(lost: u128, packets: u128) -> (r: Ratio)
    ensures
        r == loss_of(lost as int, packets as int),
{
    Ratio {
        part: if lost < packets {
            lost
        } else {
            packets
        },
        whole: packets,
    }
}

/// One column of the loss chart: the number of its group of slices, packets
/// and losses.
pub struct Column {
    /// The number of the group.
    pub group: u64,
    /// Packets in both directions.
    pub packets: u128,
    /// Losses in both directions.
    pub lost: u128,
}

/// Buckets put together in groups of `group` slices, in order.
pub open spec fn columns_of(s: Slots, group: int) -> Seq<(int, int, int)>
    decreases s.len(),
{
    if s.len() == 0 {
        Seq::empty()
    } else {
        let before = columns_of(s.drop_last(), group);
        let g = s.last().0 as int / group;
        let b = s.last().1@;
        let p = b.pkts_tx + b.pkts_rx;
        let l = b.lost_tx + b.lost_rx;
        if before.len() > 0 && before.last().0 == g {
            before.drop_last().push((g, before.last().1 + p, before.last().2 + l))
        } else {
            before.push((g, p, l))
        }
    }
}

/// How many slices go into one of `cols` columns that cover `slices`.
pub open spec fn group_size(slices: int, cols: int) -> int {
    if slices <= cols {
        1
    } else {
        (slices - 1) / cols + 1
    }
}

/// The buckets that a chart covers: those of the last `window_secs` seconds,
/// where 0 stands for all buckets of a second that are kept.
pub open spec fn charted(m: IpModel, window_secs: u64) -> Slots {
    if window_secs == 0 {
        m.sec1
    } else {
        slots_in(m, window_secs)
    }
}

/// The loss chart: the start and the loss of each column.
pub open spec fn chart(m: IpModel, window_secs: u64, cols: u64) -> Seq<(u64, Ratio)> {
    let fine = window_secs <= SEC1_RETAIN;
    let group = group_size(
        if window_secs == 0 {
            m.sec1.len() as int
        } else if fine {
            window_secs as int
        } else {
            minutes(window_secs as int)
        },
        cols as int,
    );
    let width = if fine {
        SECOND
    } else {
        MINUTE
    };
    newest(columns_of(charted(m, window_secs), group), cols as int).map_values(
        |c: (int, int, int)| ((c.0 * group * width) as u64, loss_of(c.2, c.1)),
    )
}

fn copy_ring(ring: &VecDeque<(u64, Bucket)>) -> (r: VecDeque<(u64, Bucket)>)
    ensures
        r@ == ring@,
{
    let mut r: VecDeque<(u64, Bucket)> = VecDeque::new();
    let mut i: usize = 0;
    while i < ring.len()
        invariant
            i <= ring@.len(),
            r@ == ring@.take(i as int),
        decreases ring@.len() - i,
    {
        r.push_back(ring[i]);
        i += 1;
    }
    r
}

impl Clone for IpStats {
    fn clone(&self) -> (r: IpStats)
        ensures
            r@ == self@,
    {
        IpStats {
            ip: self.ip,
            active_calls: self.active_calls,
            pkts_tx: self.pkts_tx,
            pkts_rx: self.pkts_rx,
            lost_tx: self.lost_tx,
            lost_rx: self.lost_rx,
            bytes_tx: self.bytes_tx,
            bytes_rx: self.bytes_rx,
            first_seen_us: self.first_seen_us,
            last_seen_us: self.last_seen_us,
            sec1: copy_ring(&self.sec1),
            sec60: copy_ring(&self.sec60),
        }
    }
}

fn pick(b: Bucket, dir: Dir) -> (r: (u64, u64, u64))
    ensures
        r.0 == pkts_of(b@, dir),
        r.1 == lost_of(b@, dir),
        r.2 == bytes_of(b@, dir),
{
    match dir {
        Dir::Tx => (b.pkts_tx, b.lost_tx, b.bytes_tx),
        Dir::Rx => (b.pkts_rx, b.lost_rx, b.bytes_rx),
    }
}

fn whole_minutes(secs: u64) -> (r: u64)
    ensures
        r == minutes(secs as int),
{
    secs / 60 + if secs % 60 > 0 {
        1
    } else {
        0
    }
}

/// Where the last `n` members of a ring start.
fn newest_from(ring: &VecDeque<(u64, Bucket)>, n: u64) -> (r: usize)
    ensures
        r <= ring@.len(),
        ring@.skip(r as int) == newest(ring@, n as int),
{
    let len = ring.len();
    if len as u64 > n {
        len - n as usize
    } else {
        0
    }
}

/// What the last `n` buckets of a ring count together.
fn sum_ring(ring: &VecDeque<(u64, Bucket)>, n: u64) -> (r: Bucket)
    requires
        tally(ring@).fits(),
    ensures
        r@ == tally(newest(ring@, n as int)),
{
    let lo = newest_from(ring, n);
    let ghost tail = ring@.skip(lo as int);
    let mut sum = Bucket::empty();
    let mut i: usize = lo;
    while i < ring.len()
        invariant
            lo <= i <= ring@.len(),
            tail == ring@.skip(lo as int),
            tally(ring@).fits(),
            sum@ == tally(tail.take(i - lo)),
        decreases ring@.len() - i,
    {
        proof {
            assert(tail.take(i + 1 - lo) =~= tail.take(i - lo).push(ring@[i as int]));
            lemma_tally_push(tail.take(i - lo), ring@[i as int]);
            let part = ring@.take(i + 1);
            assert(tail.take(i + 1 - lo) =~= newest(part, i + 1 - lo));
            lemma_tally_newest(part, i + 1 - lo);
            let rest = ring@.skip(i + 1);
            assert(ring@ =~= part + rest);
            lemma_tally_sum(part, rest);
            lemma_tally_nonneg(rest);
        }
        sum = sum.plus(ring[i].1);
        i += 1;
    }
    assert(tail.take(tail.len() as int) =~= tail);
    sum
}

impl IpStats {
    /// Whether the statistics are in order.
    pub open spec fn wf(&self) -> bool {
        stats_wf(self@)
    }

    /// The statistics of an address of which nothing was seen.
    pub fn new(ip: IpAddr) -> (r: IpStats)
        ensures
            r@ == unseen(ip),
            r.wf(),
    {
        IpStats {
            ip,
            active_calls: 0,
            pkts_tx: 0,
            pkts_rx: 0,
            lost_tx: 0,
            lost_rx: 0,
            bytes_tx: 0,
            bytes_rx: 0,
            first_seen_us: None,
            last_seen_us: None,
            sec1: VecDeque::new(),
            sec60: VecDeque::new(),
        }
    }

    fn book(&mut self, ts_us: u64, more: Bucket)
        requires
            old(self).wf(),
            old(self)@.total.plus(more@).fits(),
        ensures
            final(self)@ == booked(old(self)@, ts_us, more@),
            final(self).wf(),
    {
        let ghost was = self@;
        proof {
            lemma_tally_nonneg(was.sec1);
            lemma_tally_nonneg(was.sec60);
            assert(ring_wf(was.sec1, SEC1_RETAIN as int, u64::MAX as int));
            assert(ring_wf(was.sec60, SEC60_RETAIN as int, u64::MAX as int));
            lemma_credited_wf(
                was.sec1,
                ts_us / SECOND,
                SEC1_RETAIN as int,
                more@,
                u64::MAX as int / SECOND as int,
            );
            lemma_credited_wf(
                was.sec60,
                ts_us / MINUTE,
                SEC60_RETAIN as int,
                more@,
                u64::MAX as int / MINUTE as int,
            );
        }
        self.pkts_tx += more.pkts_tx;
        self.pkts_rx += more.pkts_rx;
        self.lost_tx += more.lost_tx;
        self.lost_rx += more.lost_rx;
        self.bytes_tx += more.bytes_tx;
        self.bytes_rx += more.bytes_rx;
        credit(&mut self.sec1, ts_us, SECOND, SEC1_RETAIN as usize, more);
        credit(&mut self.sec60, ts_us, MINUTE, SEC60_RETAIN as usize, more);
    }

    /// Adds `count` packets of `bytes` bytes together.
    pub fn add_packets(&mut self, ts_us: u64, count: u64, bytes: u64, dir: Dir)
        requires
            old(self).wf(),
            old(self)@.total.plus(traffic(count, bytes, dir)).fits(),
        ensures
            final(self)@ == with_packets(old(self)@, ts_us, count, bytes, dir),
            final(self).wf(),
    {
        if count == 0 && bytes == 0 {
            return;
        }
        let none = Bucket::empty();
        let more = match dir {
            Dir::Tx => Bucket { pkts_tx: count, bytes_tx: bytes, ..none },
            Dir::Rx => Bucket { pkts_rx: count, bytes_rx: bytes, ..none },
        };
        assert(more@ == traffic(count, bytes, dir));
        self.book(ts_us, more);
        if self.first_seen_us.is_none() {
            self.first_seen_us = Some(ts_us);
        }
        let later = match self.last_seen_us {
            Some(t) => t <= ts_us,
            None => true,
        };
        if later {
            self.last_seen_us = Some(ts_us);
        }
    }

    /// Adds one packet of `len` bytes.
    pub fn add_packet(&mut self, ts_us: u64, len: usize, dir: Dir)
        requires
            old(self).wf(),
            old(self)@.total.plus(traffic(1, len as u64, dir)).fits(),
        ensures
            final(self)@ == with_packets(old(self)@, ts_us, 1, len as u64, dir),
            final(self).wf(),
    {
        self.add_packets(ts_us, 1, len as u64, dir);
    }

    /// Adds losses.
    pub fn add_lost(&mut self, ts_us: u64, n: u64, dir: Dir)
        requires
            old(self).wf(),
            old(self)@.total.plus(losses(n, dir)).fits(),
        ensures
            final(self)@ == with_losses(old(self)@, ts_us, n, dir),
            final(self).wf(),
    {
        if n == 0 {
            return;
        }
        let none = Bucket::empty();
        let more = match dir {
            Dir::Tx => Bucket { lost_tx: n, ..none },
            Dir::Rx => Bucket { lost_rx: n, ..none },
        };
        assert(more@ == losses(n, dir));
        self.book(ts_us, more);
        if self.last_seen_us.is_none() {
            self.last_seen_us = Some(ts_us);
        }
    }

    /// Changes the number of calls in progress.
    pub fn active_add(&mut self, delta: i32)
        requires
            old(self).wf(),
        ensures
            final(self)@ == with_calls(old(self)@, delta as int),
            final(self).wf(),
    {
        let n: i64 = self.active_calls as i64 + delta as i64;
        self.active_calls = if n < 0 {
            0
        } else if n > u32::MAX as i64 {
            u32::MAX
        } else {
            n as u32
        };
    }

    /// All packets in one direction.
    pub fn pkts_total(&self, dir: Dir) -> (r: u64)
        ensures
            r == pkts_of(self@.total, dir),
    {
        match dir {
            Dir::Tx => self.pkts_tx,
            Dir::Rx => self.pkts_rx,
        }
    }

    /// All losses in one direction.
    pub fn lost_total(&self, dir: Dir) -> (r: u64)
        ensures
            r == lost_of(self@.total, dir),
    {
        match dir {
            Dir::Tx => self.lost_tx,
            Dir::Rx => self.lost_rx,
        }
    }

    /// All bytes in one direction.
    pub fn bytes_total(&self, dir: Dir) -> (r: u64)
        ensures
            r == bytes_of(self@.total, dir),
    {
        match dir {
            Dir::Tx => self.bytes_tx,
            Dir::Rx => self.bytes_rx,
        }
    }

    /// All bytes in both directions.
    pub fn bytes_total_all(&self) -> (r: u64)
        requires
            self.bytes_tx + self.bytes_rx <= u64::MAX,
        ensures
            r == self.bytes_tx + self.bytes_rx,
    {
        self.bytes_tx + self.bytes_rx
    }

    /// What was counted in the last `window_secs` seconds; 0 stands for all
    /// time.
    fn window(&self, window_secs: u64) -> (r: Bucket)
        requires
            self.wf(),
        ensures
            r@ == counted_in(self@, window_secs),
    {
        proof {
            lemma_tally_nonneg(self.sec1@);
            lemma_tally_nonneg(self.sec60@);
        }
        if window_secs == 0 {
            return Bucket {
                pkts_tx: self.pkts_tx,
                pkts_rx: self.pkts_rx,
                lost_tx: self.lost_tx,
                lost_rx: self.lost_rx,
                bytes_tx: self.bytes_tx,
                bytes_rx: self.bytes_rx,
            };
        }
        if window_secs <= SEC1_RETAIN {
            sum_ring(&self.sec1, window_secs)
        } else {
            sum_ring(&self.sec60, whole_minutes(window_secs))
        }
    }

    /// The loss in a window and direction, where there were packets.
    pub fn loss_pct(&self, window_secs: u64, dir: Dir) -> (r: Option<Ratio>)
        requires
            self.wf(),
        ensures
            r == share(
                lost_of(counted_in(self@, window_secs), dir),
                pkts_of(counted_in(self@, window_secs), dir),
            ),
    {
        let (p, l, _) = pick(self.window(window_secs), dir);
        if p == 0 {
            None
        } else {
            Some(loss_ratio(l as u128, p as u128))
        }
    }

    /// The loss in a window, both directions together, where there were
    /// packets.
    pub fn loss_pct_total(&self, window_secs: u64) -> (r: Option<Ratio>)
        requires
            self.wf(),
        ensures
            ({
                let t = counted_in(self@, window_secs);
                r == share(t.lost_tx + t.lost_rx, t.pkts_tx + t.pkts_rx)
            }),
    {
        let b = self.window(window_secs);
        let p = b.packets();
        if p == 0 {
            None
        } else {
            Some(loss_ratio(b.lost(), p))
        }
    }

    /// The packets in a window and direction.
    pub fn pkts_in(&self, window_secs: u64, dir: Dir) -> (r: u64)
        requires
            self.wf(),
        ensures
            r == pkts_of(counted_in(self@, window_secs), dir),
    {
        pick(self.window(window_secs), dir).0
    }

    /// The bytes in a window and direction.
    pub fn bytes_in(&self, window_secs: u64, dir: Dir) -> (r: u64)
        requires
            self.wf(),
        ensures
            r == bytes_of(counted_in(self@, window_secs), dir),
    {
        pick(self.window(window_secs), dir).2
    }
}

/// Columns in mathematical terms.
spec fn column_models(v: Seq<Column>) -> Seq<(int, int, int)> {
    v.map_values(|c: Column| (c.group as int, c.packets as int, c.lost as int))
}

/// What a column can hold: a group of slices of the ring, and no more than
/// the ring counts.
proof fn lemma_columns_bound(s: Slots, group: int, last: int)
    requires
        group >= 1,
        forall|i: int| 0 <= i < s.len() ==> (#[trigger] s[i]).0 <= last,
    ensures
        forall|i: int|
            0 <= i < columns_of(s, group).len() ==> {
                let c = #[trigger] columns_of(s, group)[i];
                &&& 0 <= c.0
                &&& c.0 * group <= last
                &&& 0 <= c.1 <= tally(s).pkts_tx + tally(s).pkts_rx
                &&& 0 <= c.2 <= tally(s).lost_tx + tally(s).lost_rx
            },
    decreases s.len(),
{
    if s.len() > 0 {
        let before = s.drop_last();
        assert forall|i: int| 0 <= i < before.len() implies (#[trigger] before[i]).0 <= last by {
            assert(before[i] == s[i]);
        }
        lemma_columns_bound(before, group, last);
        lemma_tally_nonneg(before);
        let k = s.last().0 as int;
        assert(s[s.len() - 1].0 <= last);
        assert(0 <= k / group && (k / group) * group <= k) by (nonlinear_arith)
            requires
                k >= 0,
                group >= 1,
        ;
        let now = columns_of(s, group);
        let was = columns_of(before, group);
        assert forall|i: int| 0 <= i < now.len() implies {
            let c = #[trigger] now[i];
            &&& 0 <= c.0
            &&& c.0 * group <= last
            &&& 0 <= c.1 <= tally(s).pkts_tx + tally(s).pkts_rx
            &&& 0 <= c.2 <= tally(s).lost_tx + tally(s).lost_rx
        } by {
            if i < was.len() {
                assert(0 <= was[i].0);
            }
            if was.len() > 0 {
                assert(was[was.len() - 1] == was.last());
            }
        }
    }
}

impl IpStats {
    /// The loss chart of the last `window_secs` seconds, or of all buckets of
    /// a second where that is 0: at most `cols` columns, the newest last, each
    /// with its start and its loss in both directions together.
    pub fn heatmap_columns(&self, window_secs: u64, cols: u64) -> (r: Vec<(u64, Ratio)>)
        requires
            self.wf(),
            cols > 0,
        ensures
            r@ == chart(self@, window_secs, cols),
            r@.len() <= cols,
    {
        let fine = window_secs <= SEC1_RETAIN;
        let slices: u64 = if window_secs == 0 {
            self.sec1.len() as u64
        } else if fine {
            window_secs
        } else {
            whole_minutes(window_secs)
        };
        let width: u64 = if fine {
            SECOND
        } else {
            MINUTE
        };
        let group: u64 = if slices <= cols {
            1
        } else {
            assert((slices - 1) / cols as int + 1 <= slices) by (nonlinear_arith)
                requires
                    slices > cols,
                    cols >= 1,
            ;
            (slices - 1) / cols + 1
        };
        assert(group >= 1) by {
            if slices > cols {
                assert((slices - 1) / cols as int >= 0) by (nonlinear_arith)
                    requires
                        slices > cols,
                        cols >= 1,
                ;
            }
        }
        let ring = if fine {
            &self.sec1
        } else {
            &self.sec60
        };
        let lo = newest_from(ring, slices);
        let ghost tail = ring@.skip(lo as int);
        let ghost last = u64::MAX as int / width as int;
        proof {
            assert(tail =~= charted(self@, window_secs));
            lemma_tally_newest(ring@, slices as int);
            assert forall|i: int| 0 <= i < tail.len() implies (#[trigger] tail[i]).0 <= last by {
                assert(tail[i] == ring@[i + lo]);
            }
        }
        let mut cells: Vec<Column> = Vec::new();
        let mut i: usize = lo;
        while i < ring.len()
            invariant
                lo <= i <= ring@.len(),
                group >= 1,
                tail == ring@.skip(lo as int),
                forall|n: int| 0 <= n < tail.len() ==> (#[trigger] tail[n]).0 <= last,
                tally(tail).fits(),
                column_models(cells@) == columns_of(tail.take(i - lo), group as int),
            decreases ring@.len() - i,
        {
            let (key, b) = ring[i];
            let g: u64 = key / group;
            proof {
                let now = tail.take(i + 1 - lo);
                let was = tail.take(i - lo);
                assert(now.drop_last() =~= was);
                assert(now.last() == (key, b));
                assert(tail =~= now + tail.skip(i + 1 - lo));
                lemma_tally_sum(now, tail.skip(i + 1 - lo));
                lemma_tally_nonneg(tail.skip(i + 1 - lo));
                lemma_tally_nonneg(was);
                assert forall|n: int| 0 <= n < was.len() implies (#[trigger] was[n]).0 <= last by {
                    assert(was[n] == tail[n]);
                }
                lemma_columns_bound(was, group as int, last);
                if cells@.len() > 0 {
                    let c = columns_of(was, group as int)[cells@.len() - 1];
                    assert(column_models(cells@)[cells@.len() - 1] == c);
                }
            }
            let n = cells.len();
            let p: u128 = b.packets();
            let l: u128 = b.lost();
            if n > 0 && cells[n - 1].group == g {
                let c = Column {
                    group: g,
                    packets: cells[n - 1].packets + p,
                    lost: cells[n - 1].lost + l,
                };
                cells.pop();
                cells.push(c);
            } else {
                cells.push(Column { group: g, packets: p, lost: l });
            }
            i += 1;
            assert(column_models(cells@) =~= columns_of(tail.take(i - lo), group as int));
        }
        proof {
            assert(tail.take(tail.len() as int) =~= tail);
            lemma_columns_bound(tail, group as int, last);
        }
        let n = cells.len();
        let from: usize = if n as u64 > cols {
            n - cols as usize
        } else {
            0
        };
        let ghost all = columns_of(tail, group as int);
        let mut out: Vec<(u64, Ratio)> = Vec::new();
        let mut j: usize = from;
        while j < cells.len()
            invariant
                from <= j <= cells@.len(),
                column_models(cells@) == all,
                width >= 1,
                last == u64::MAX as int / width as int,
                forall|n: int|
                    0 <= n < all.len() ==> {
                        let c = #[trigger] all[n];
                        0 <= c.0 && c.0 * group <= last
                    },
                out@ == all.subrange(from as int, j as int).map_values(
                    |c: (int, int, int)| ((c.0 * group * width) as u64, loss_of(c.2, c.1)),
                ),
            decreases cells@.len() - j,
        {
            let c = &cells[j];
            proof {
                assert(column_models(cells@)[j as int] == (
                    c.group as int,
                    c.packets as int,
                    c.lost as int,
                ));
                assert(all[j as int].0 == c.group);
                let k: int = c.group * group;
                assert(0 <= k) by (nonlinear_arith)
                    requires
                        k == c.group * group,
                        c.group >= 0,
                        group >= 0,
                ;
                assert(k <= k * width <= u64::MAX) by (nonlinear_arith)
                    requires
                        0 <= k <= last,
                        width >= 1,
                        last == u64::MAX as int / width as int,
                ;
                assert(all.subrange(from as int, j + 1) =~= all.subrange(from as int, j as int).push(
                    all[j as int],
                ));
            }
            out.push((c.group * group * width, loss_ratio(c.lost, c.packets)));
            j += 1;
        }
        assert(all.subrange(from as int, all.len() as int) =~= newest(all, cols as int));
        out
    }
}

/// What addresses are ranked by: the greatest loss first, those without packets
/// last. A loss is taken to 62 binary places.
pub open spec fn loss_rank(m: IpModel) -> Rank {
    let packets = m.total.pkts_tx + m.total.pkts_rx;
    let lost = m.total.lost_tx + m.total.lost_rx;
    let part = if lost < packets {
        lost
    } else {
        packets
    };
    if packets == 0 {
        (true, 0)
    } else {
        (false, (0x4000_0000_0000_0000 - part * 0x4000_0000_0000_0000 / packets) as u128)
    }
}

/// What a list of addresses is ranked by.
pub open spec fn loss_ranks(v: Seq<IpStats>) -> Seq<Rank> {
    v.map_values(|s: IpStats| loss_rank(s@))
}

fn rank_by_loss(s: &IpStats) -> (r: Rank)
    ensures
        r == loss_rank(s@),
{
    let packets: u128 = s.pkts_tx as u128 + s.pkts_rx as u128;
    let lost: u128 = s.lost_tx as u128 + s.lost_rx as u128;
    let part: u128 = if lost < packets {
        lost
    } else {
        packets
    };
    if packets == 0 {
        return (true, 0);
    }
    let share: u128 = part * 0x4000_0000_0000_0000 / packets;
    assert(share <= 0x4000_0000_0000_0000) by (nonlinear_arith)
        requires
            share == part * 0x4000_0000_0000_0000 / packets as int,
            part <= packets,
            packets > 0,
    ;
    (false, 0x4000_0000_0000_0000 - share)
}

/// The places of the addresses with the greatest loss in a list, at most `top`,
/// the greatest first.
pub fn worst_ips(v: &Vec<IpStats>, top: usize) -> (r: Vec<usize>)
    ensures
        exists|order: Seq<usize>| #[trigger]
            sorts(order, loss_ranks(v@)) && r@ == order.take(
                if order.len() < top {
                    order.len() as int
                } else {
                    top as int
                },
            ),
{
    let mut ranks: Vec<Rank> = Vec::new();
    let mut i: usize = 0;
    while i < v.len()
        invariant
            i <= v@.len(),
            ranks@ == loss_ranks(v@.take(i as int)),
        decreases v@.len() - i,
    {
        ranks.push(rank_by_loss(&v[i]));
        i += 1;
        assert(ranks@ =~= loss_ranks(v@.take(i as int)));
    }
    assert(v@.take(v@.len() as int) =~= v@);
    let order = stable_order(&ranks);
    let mut r: Vec<usize> = Vec::new();
    let mut j: usize = 0;
    while j < order.len() && j < top
        invariant
            j <= order@.len(),
            j <= top,
            r@ == order@.take(j as int),
        decreases order@.len() - j,
    {
        r.push(order[j]);
        j += 1;
    }
    r
}

/// The statistics of all addresses.
pub struct IpStatsStore {
    map: Table<IpKey, IpStats>,
}

/// Whether one address has statistics that would still fit with `t` added.
pub open spec fn has_room(m: Map<IpKey, IpModel>, ip: IpAddr, t: Tally) -> bool {
    m.contains_key(ip.spec_key()) ==> m[ip.spec_key()].total.plus(t).fits()
}

/// The statistics of an address, also where nothing of it was seen.
pub open spec fn of_ip(m: Map<IpKey, IpModel>, ip: IpAddr) -> IpModel {
    if m.contains_key(ip.spec_key()) {
        m[ip.spec_key()]
    } else {
        unseen(ip)
    }
}

/// Whether an address is in use: calls of it are in progress, or it was seen
/// at `cutoff_us` or later.
pub open spec fn in_use(m: IpModel, cutoff_us: u64) -> bool {
    m.active_calls > 0 || (match m.last_seen_us {
        Some(t) => t,
        None => 0,
    }) >= cutoff_us
}

/// Whether a list holds the statistics of all addresses, in the order of the
/// addresses.
pub open spec fn lists_by_ip(v: Seq<IpStats>, m: Map<IpKey, IpModel>) -> bool {
    &&& forall|i: int|
        0 <= i < v.len() ==> {
            let k = (#[trigger] v[i]).ip.spec_key();
            m.contains_key(k) && v[i]@ == m[k] && v[i].wf()
        }
    &&& forall|k: IpKey| #[trigger]
        m.contains_key(k) ==> exists|i: int| 0 <= i < v.len() && #[trigger] v[i].ip.spec_key() == k
    &&& forall|i: int, j: int|
        0 <= i < j < v.len() ==> (#[trigger] v[i]).ip.before((#[trigger] v[j]).ip)
}

impl View for IpStatsStore {
    type V = Map<IpKey, IpModel>;

    closed spec fn view(&self) -> Map<IpKey, IpModel> {
        self.map@.map_values(|s: IpStats| s@)
    }
}

/// Whether every address has its own statistics, in order.
pub open spec fn store_wf(m: Map<IpKey, IpModel>) -> bool {
    forall|k: IpKey| #[trigger]
        m.contains_key(k) ==> stats_wf(m[k]) && m[k].ip.spec_key() == k
}

impl IpStatsStore {
    /// Whether every address has its own statistics, in order.
    pub open spec fn wf(&self) -> bool {
        store_wf(self@)
    }

    /// A store without addresses.
    pub fn new() -> (r: IpStatsStore)
        ensures
            r.wf(),
            r@ == Map::<IpKey, IpModel>::empty(),
    {
        let r = IpStatsStore { map: Table::new() };
        assert(r@ =~= Map::<IpKey, IpModel>::empty());
        r
    }

    /// Forgets all addresses.
    pub fn clear(&mut self)
        ensures
            final(self).wf(),
            final(self)@ == Map::<IpKey, IpModel>::empty(),
    {
        self.map.clear();
        assert(self@ =~= Map::<IpKey, IpModel>::empty());
    }

    /// The statistics of an address, to be changed in place.
    fn entry(&mut self, ip: IpAddr) -> (r: &mut IpStats)
        requires
            old(self).wf(),
        ensures
            r@ == of_ip(old(self)@, ip),
            r.wf(),
            final(self)@ == old(self)@.insert(ip.spec_key(), final(r)@),
    {
        let k = ip.key();
        let ghost was = self.map@;
        if !self.map.contains_key(&k) {
            self.map.insert(k, IpStats::new(ip));
        } else {
            assert(self@.contains_key(k));
        }
        let ghost now = self.map@;
        let r = self.map.get_mut(&k).unwrap();
        proof {
            let f = |s: IpStats| s@;
            assert(now.insert(k, *final(r)).map_values(f) =~= was.map_values(f).insert(
                k,
                final(r)@,
            ));
        }
        r
    }

    /// Takes in one packet of an address.
    pub fn observe_packet(&mut self, ip: IpAddr, ts_us: u64, len: usize, dir: Dir)
        requires
            old(self).wf(),
            has_room(old(self)@, ip, traffic(1, len as u64, dir)),
        ensures
            final(self).wf(),
            final(self)@ == old(self)@.insert(
                ip.spec_key(),
                with_packets(of_ip(old(self)@, ip), ts_us, 1, len as u64, dir),
            ),
    {
        self.entry(ip).add_packet(ts_us, len, dir);
    }

    /// Takes in `count` packets of `bytes` bytes of an address.
    pub fn observe_packets(&mut self, ip: IpAddr, ts_us: u64, count: u64, bytes: u64, dir: Dir)
        requires
            old(self).wf(),
            has_room(old(self)@, ip, traffic(count, bytes, dir)),
        ensures
            final(self).wf(),
            final(self)@ == old(self)@.insert(
                ip.spec_key(),
                with_packets(of_ip(old(self)@, ip), ts_us, count, bytes, dir),
            ),
    {
        self.entry(ip).add_packets(ts_us, count, bytes, dir);
    }

    /// Takes in losses of an address.
    pub fn observe_lost(&mut self, ip: IpAddr, ts_us: u64, lost: u64, dir: Dir)
        requires
            old(self).wf(),
            has_room(old(self)@, ip, losses(lost, dir)),
        ensures
            final(self).wf(),
            final(self)@ == old(self)@.insert(
                ip.spec_key(),
                with_losses(of_ip(old(self)@, ip), ts_us, lost, dir),
            ),
    {
        self.entry(ip).add_lost(ts_us, lost, dir);
    }

    /// Changes the number of calls in progress of an address.
    pub fn add_active(&mut self, ip: IpAddr, delta: i32)
        requires
            old(self).wf(),
        ensures
            final(self).wf(),
            final(self)@ == old(self)@.insert(
                ip.spec_key(),
                with_calls(of_ip(old(self)@, ip), delta as int),
            ),
    {
        self.entry(ip).active_add(delta);
    }

    /// The statistics of all addresses, in the order of the addresses.
    pub fn snapshot(&self) -> (r: Vec<IpStats>)
        requires
            self.wf(),
        ensures
            lists_by_ip(r@, self@),
    {
        let keys = self.map.keys();
        let order = stable_order(&keys);
        proof {
            lemma_order_covers(order@, keys@);
        }
        let mut r: Vec<IpStats> = Vec::new();
        let mut i: usize = 0;
        while i < order.len()
            invariant
                self.wf(),
                i <= order@.len(),
                r@.len() == i,
                sorts(order@, keys@),
                lists(keys@, self.map@),
                forall|j: int|
                    0 <= j < i ==> (#[trigger] r@[j]).ip.spec_key() == keys@[order@[j] as int]
                        && r@[j]@ == self@[keys@[order@[j] as int]] && r@[j].wf(),
            decreases order@.len() - i,
        {
            let k: IpKey = keys[order[i]];
            assert(self.map@.contains_key(keys@[order@[i as int] as int].id()));
            assert(self@.contains_key(k));
            let s = self.map.get(&k).unwrap();
            r.push(s.clone());
            i += 1;
        }
        proof {
            assert forall|n: int| 0 <= n < r@.len() implies {
                let k = (#[trigger] r@[n]).ip.spec_key();
                self@.contains_key(k) && r@[n]@ == self@[k] && r@[n].wf()
            } by {
                assert(self.map@.contains_key(keys@[order@[n] as int].id()));
            }
            assert forall|k: IpKey| #[trigger] self@.contains_key(k) implies exists|n: int|
                0 <= n < r@.len() && #[trigger] r@[n].ip.spec_key() == k by {
                assert(self.map@.contains_key(k));
                let p = choose|p: int| 0 <= p < keys@.len() && #[trigger] keys@[p].id() == k;
                assert(crate::order::listed(order@, p));
                let n = choose|n: int| 0 <= n < order@.len() && #[trigger] order@[n] == p;
                assert(r@[n].ip.spec_key() == k);
            }
            assert forall|n: int, m: int| 0 <= n < m < r@.len() implies (#[trigger] r@[n]).ip.before(
                (#[trigger] r@[m]).ip,
            ) by {
                let a = order@[n] as int;
                let b = order@[m] as int;
                assert(crate::order::comes_first(keys@, a, b));
                assert(a != b);
                assert(keys@[a].id() != keys@[b].id());
            }
        }
        r
    }

    /// Forgets the addresses that are not in use: no call of theirs is in
    /// progress, and none of their packets was seen since `cutoff_us`.
    pub fn prune_idle(&mut self, cutoff_us: u64)
        requires
            old(self).wf(),
        ensures
            final(self).wf(),
            final(self)@ == old(self)@.restrict(
                Set::new(|k: IpKey| old(self)@.contains_key(k) && in_use(old(self)@[k], cutoff_us)),
            ),
    {
        let ghost all = self@;
        let ghost was = self.map@;
        let keys = self.map.keys();
        let mut i: usize = 0;
        while i < keys.len()
            invariant
                i <= keys@.len(),
                all == was.map_values(|s: IpStats| s@),
                lists(keys@, was),
                forall|k: IpKey|
                    #![trigger self.map@.contains_key(k)]
                    self.map@.contains_key(k) ==> was.contains_key(k) && self.map@[k] == was[k],
                forall|n: int|
                    0 <= n < i ==> (self.map@.contains_key(#[trigger] keys@[n]) <==> in_use(
                        all[keys@[n]],
                        cutoff_us,
                    )),
                forall|n: int|
                    i <= n < keys@.len() ==> self.map@.contains_key(#[trigger] keys@[n]),
            decreases keys@.len() - i,
        {
            let k: IpKey = keys[i];
            assert(was.contains_key(keys@[i as int].id()));
            assert(self.map@.contains_key(keys@[i as int]));
            let s = self.map.get(&k).unwrap();
            let seen: u64 = match s.last_seen_us {
                Some(t) => t,
                None => 0,
            };
            let ghost now = self.map@;
            if !(s.active_calls > 0 || seen >= cutoff_us) {
                self.map.remove(&k);
            }
            proof {
                assert forall|n: int| i < n < keys@.len() implies self.map@.contains_key(
                    #[trigger] keys@[n],
                ) by {
                    assert(now.contains_key(keys@[n]));
                    assert(keys@[i as int].id() != keys@[n].id());
                }
                assert forall|n: int| 0 <= n < i implies (self.map@.contains_key(
                    #[trigger] keys@[n],
                ) <==> in_use(all[keys@[n]], cutoff_us)) by {
                    assert(keys@[n].id() != keys@[i as int].id());
                    assert(now.contains_key(keys@[n]) <==> in_use(all[keys@[n]], cutoff_us));
                }
            }
            i += 1;
        }
        proof {
            let kept = Set::new(|k: IpKey| all.contains_key(k) && in_use(all[k], cutoff_us));
            assert forall|k: IpKey| self@.contains_key(k) == all.restrict(kept).contains_key(k) by {
                if was.contains_key(k) {
                    let n = choose|n: int| 0 <= n < keys@.len() && #[trigger] keys@[n].id() == k;
                    assert(self.map@.contains_key(keys@[n]) <==> in_use(all[keys@[n]], cutoff_us));
                } else {
                    assert(!self.map@.contains_key(k));
                }
            }
            assert(self@ =~= all.restrict(kept));
        }
    }
}

/// No window counts more than all time does, and none counts less than
/// nothing.
pub proof fn no_window_counts_more_than_all(m: IpModel, window_secs: u64)
    requires
        stats_wf(m),
    ensures
        counted_in(m, window_secs).at_most(m.total),
        counted_in(m, window_secs).fits(),
{
    lemma_tally_newest(m.sec1, window_secs as int);
    lemma_tally_newest(m.sec60, minutes(window_secs as int));
}

/// Packets of one moment count the same one by one and as a lot.
pub proof fn a_lot_counts_like_its_packets(
    m: IpModel,
    ts_us: u64,
    count: u64,
    bytes: u64,
    count2: u64,
    bytes2: u64,
    dir: Dir,
)
    requires
        stats_wf(m),
        count + count2 <= u64::MAX,
        bytes + bytes2 <= u64::MAX,
        m.total.plus(traffic((count + count2) as u64, (bytes + bytes2) as u64, dir)).fits(),
    ensures
        with_packets(with_packets(m, ts_us, count, bytes, dir), ts_us, count2, bytes2, dir)
            == with_packets(m, ts_us, (count + count2) as u64, (bytes + bytes2) as u64, dir),
{
    let t = traffic(count, bytes, dir);
    let u = traffic(count2, bytes2, dir);
    lemma_tally_nonneg(m.sec1);
    lemma_tally_nonneg(m.sec60);
    assert(t.plus(u) == traffic((count + count2) as u64, (bytes + bytes2) as u64, dir));
    crediting_twice_is_crediting_the_sum(m.sec1, ts_us / SECOND, SEC1_RETAIN as int, t, u);
    crediting_twice_is_crediting_the_sum(m.sec60, ts_us / MINUTE, SEC60_RETAIN as int, t, u);
}

/// Traffic and losses in one direction leave the other direction's totals
/// alone.
pub proof fn directions_stay_apart(
    m: IpModel,
    ts_us: u64,
    count: u64,
    bytes: u64,
    n: u64,
    dir: Dir,
    other: Dir,
)
    requires
        dir != other,
    ensures
        ({
            let p = with_packets(m, ts_us, count, bytes, dir);
            let l = with_losses(m, ts_us, n, dir);
            &&& pkts_of(p.total, other) == pkts_of(m.total, other)
            &&& bytes_of(p.total, other) == bytes_of(m.total, other)
            &&& lost_of(p.total, other) == lost_of(m.total, other)
            &&& pkts_of(l.total, other) == pkts_of(m.total, other)
            &&& bytes_of(l.total, other) == bytes_of(m.total, other)
            &&& lost_of(l.total, other) == lost_of(m.total, other)
        }),
{
}

/// The totals grow by exactly what is added.
pub proof fn totals_grow_by_what_is_added(
    m: IpModel,
    ts_us: u64,
    count: u64,
    bytes: u64,
    n: u64,
    dir: Dir,
)
    ensures
        with_packets(m, ts_us, count, bytes, dir).total == m.total.plus(traffic(count, bytes, dir)),
        with_losses(m, ts_us, n, dir).total == m.total.plus(losses(n, dir)),
{
}

/// A loss is at most everything, and there is none where there were no packets
/// in the direction.
pub proof fn a_loss_is_at_most_everything(m: IpModel, window_secs: u64, dir: Dir)
    requires
        stats_wf(m),
    ensures
        ({
            let t = counted_in(m, window_secs);
            let r = share(lost_of(t, dir), pkts_of(t, dir));
            &&& r is None <==> pkts_of(t, dir) == 0
            &&& r matches Some(x) ==> x.part <= x.whole && x.whole == pkts_of(t, dir)
        }),
{
    no_window_counts_more_than_all(m, window_secs);
}

/// A packet that comes late does not make an address idle: what keeps it in use
/// before the packet keeps it in use after it, and so does the packet.
pub proof fn a_packet_keeps_an_address_in_use(
    m: IpModel,
    ts_us: u64,
    count: u64,
    bytes: u64,
    dir: Dir,
    cutoff_us: u64,
)
    ensures
        in_use(m, cutoff_us) ==> in_use(with_packets(m, ts_us, count, bytes, dir), cutoff_us),
        (count > 0 || bytes > 0) && ts_us >= cutoff_us ==> in_use(
            with_packets(m, ts_us, count, bytes, dir),
            cutoff_us,
        ),
{
}

/// The columns of a ring come in order, each group once.
proof fn lemma_columns_rise(s: Slots, group: int)
    requires
        group >= 1,
        forall|i: int| 0 <= i < s.len() ==> (#[trigger] s[i]).0 == s[0].0 + i,
    ensures
        forall|i: int, j: int|
            0 <= i < j < columns_of(s, group).len() ==> (#[trigger] columns_of(s, group)[i]).0 < (
            #[trigger] columns_of(s, group)[j]).0,
        s.len() > 0 ==> columns_of(s, group).len() > 0 && columns_of(s, group).last().0
            == s.last().0 as int / group,
    decreases s.len(),
{
    if s.len() > 0 {
        let before = s.drop_last();
        assert forall|i: int| 0 <= i < before.len() implies (#[trigger] before[i]).0 == before[0].0 + i by {
            assert(before[i] == s[i]);
        }
        lemma_columns_rise(before, group);
        let was = columns_of(before, group);
        let now = columns_of(s, group);
        if before.len() > 0 {
            let a = before.last().0 as int;
            let b = s.last().0 as int;
            assert(s[s.len() - 1].0 == s[0].0 + s.len() - 1);
            assert(s[s.len() - 2].0 == s[0].0 + s.len() - 2);
            assert(a / group <= b / group) by (nonlinear_arith)
                requires
                    0 <= a <= b,
                    group >= 1,
            ;
            assert forall|i: int, j: int| 0 <= i < j < now.len() implies (#[trigger] now[i]).0 < (
            #[trigger] now[j]).0 by {
                if i < was.len() {
                    assert(was[i].0 <= was[was.len() - 1].0);
                }
                if j < was.len() {
                    assert(was[i].0 < was[j].0);
                }
            }
        }
    }
}

/// The columns of a loss chart come in order: each starts after the one before
/// it.
pub proof fn chart_columns_rise(m: IpModel, window_secs: u64, cols: u64, i: int, j: int)
    requires
        stats_wf(m),
        cols > 0,
        0 <= i < j < chart(m, window_secs, cols).len(),
    ensures
        chart(m, window_secs, cols)[i].0 < chart(m, window_secs, cols)[j].0,
{
    let fine = window_secs <= SEC1_RETAIN;
    let slices = if window_secs == 0 {
        m.sec1.len() as int
    } else if fine {
        window_secs as int
    } else {
        minutes(window_secs as int)
    };
    let group = group_size(slices, cols as int);
    let width: int = if fine {
        SECOND as int
    } else {
        MINUTE as int
    };
    assert(group >= 1) by {
        if slices > cols {
            assert((slices - 1) / cols as int >= 0) by (nonlinear_arith)
                requires
                    slices > cols,
                    cols >= 1,
            ;
        }
    }
    let ring = if fine {
        m.sec1
    } else {
        m.sec60
    };
    let s = charted(m, window_secs);
    let last = u64::MAX as int / width;
    let from = ring.len() - s.len();
    assert forall|n: int| 0 <= n < s.len() implies (#[trigger] s[n]).0 == s[0].0 + n && s[n].0
        <= last by {
        assert(s[n] == ring[n + from]);
        assert(s[0] == ring[from]);
    }
    lemma_columns_rise(s, group);
    lemma_columns_bound(s, group, last);
    let all = columns_of(s, group);
    let kept = newest(all, cols as int);
    let skip = all.len() - kept.len();
    assert(kept[i] == all[i + skip] && kept[j] == all[j + skip]);
    let a = kept[i].0;
    let b = kept[j].0;
    assert(a < b);
    assert(0 <= a * group * width < b * group * width <= u64::MAX) by (nonlinear_arith)
        requires
            0 <= a < b,
            b * group <= last,
            group >= 1,
            width >= 1,
            last == u64::MAX as int / width,
    ;
}

/// A chart has no more columns than asked for, and it is made of the newest
/// buckets: none lies further back than the window from the newest one.
pub proof fn a_chart_is_of_its_window(m: IpModel, window_secs: u64, cols: u64, i: int)
    requires
        stats_wf(m),
        window_secs > 0,
        0 <= i < charted(m, window_secs).len(),
    ensures
        chart(m, window_secs, cols).len() <= cols,
        charted(m, window_secs)[i].0 + (if window_secs <= SEC1_RETAIN {
            window_secs as int
        } else {
            minutes(window_secs as int)
        }) > charted(m, window_secs).last().0,
        charted(m, window_secs).last() == if window_secs <= SEC1_RETAIN {
            m.sec1.last()
        } else {
            m.sec60.last()
        },
{
    let ring = if window_secs <= SEC1_RETAIN {
        m.sec1
    } else {
        m.sec60
    };
    let s = charted(m, window_secs);
    let from = ring.len() - s.len();
    assert(s[i] == ring[i + from]);
    assert(s[s.len() - 1] == ring[ring.len() - 1]);
    assert(ring[i + from].0 == ring[0].0 + i + from);
    assert(ring[ring.len() - 1].0 == ring[0].0 + ring.len() - 1);
}

/// A window of up to 600 seconds counts every bucket of a second that lies less than
/// the window before the newest one, and no other. A longer one counts the buckets of
/// a minute that start less than the window before the newest one. Where all buckets
/// lie in the window and none has been lost, it counts what all time does.
pub proof fn a_window_counts_what_lies_in_it(m: IpModel, w: u64, older: Slots, recent: Slots)
    requires
        stats_wf(m),
        w > 0,
        w <= 600 ==> {
            &&& m.sec1 == older + recent
            &&& forall|i: int|
                0 <= i < older.len() ==> (#[trigger] older[i]).0 + w <= m.sec1.last().0
            &&& forall|i: int|
                0 <= i < recent.len() ==> (#[trigger] recent[i]).0 + w > m.sec1.last().0
        },
        w > 600 ==> {
            &&& m.sec60 == older + recent
            &&& forall|i: int|
                0 <= i < older.len() ==> (#[trigger] older[i]).0 * 60 + w <= m.sec60.last().0 * 60
            &&& forall|i: int|
                0 <= i < recent.len() ==> (#[trigger] recent[i]).0 * 60 + w > m.sec60.last().0 * 60
        },
    ensures
        counted_in(m, w) == tally(recent),
        charted(m, w) == recent,
        charted(m, 0) == m.sec1,
        counted_in(m, 0) == m.total,
        w <= 600 && older.len() == 0 && tally(m.sec1) == m.total ==> counted_in(m, w) == counted_in(
            m,
            0,
        ),
        w > 600 && older.len() == 0 && tally(m.sec60) == m.total ==> counted_in(m, w)
            == counted_in(m, 0),
{
    if w <= 600 {
        the_newest_slots_are_the_last_slices(m.sec1, w as int, older, recent);
        if older.len() == 0 {
            assert(m.sec1 =~= recent);
        }
    } else {
        the_newest_slots_are_the_last_slices(m.sec60, minutes(w as int), older, recent);
        if older.len() == 0 {
            assert(m.sec60 =~= recent);
        }
    }
}

/// While everything that was booked lies within a window of the newest bucket, the
/// window goes on to count the same as all time.
pub proof fn a_booking_within_the_window_is_counted(m: IpModel, ts_us: u64, t: Tally, w: u64)
    requires
        stats_wf(m),
        0 < w <= 600,
        t.fits(),
        m.total.plus(t).fits(),
        tally(m.sec1) == m.total,
        m.sec1.len() > 0 ==> m.sec1[0].0 * 1_000_000 <= ts_us < (m.sec1[0].0 + w) * 1_000_000,
        m.sec1.len() > 0 ==> m.sec1.last().0 < m.sec1[0].0 + w,
    ensures
        ({
            let n = booked(m, ts_us, t);
            &&& counted_in(n, w) == n.total
            &&& n.total == m.total.plus(t)
            &&& tally(n.sec1) == n.total
        }),
{
    let key = (ts_us / 1_000_000) as u64;
    let n = booked(m, ts_us, t);
    a_credit_is_counted_whole(m.sec1, key, 600, t);
    a_credit_goes_to_its_slice(m.sec1, key, 600, t);
    let c = n.sec1;
    assert(c == credited(m.sec1, key, 600, t));
    if m.sec1.len() > 0 {
        assert(m.sec1[m.sec1.len() - 1].0 == m.sec1[0].0 + m.sec1.len() - 1);
        assert(c[c.len() - 1].0 == c[0].0 + c.len() - 1);
        assert(c.len() <= w);
    } else {
        assert(c.len() == 1);
    }
    assert(newest(c, w as int) =~= c);
}

/// What packets add to an address: their number and their bytes, to the totals of
/// their direction and to the second and the minute of their time, and the times at
/// which it was first and last seen.
pub proof fn packets_are_booked_in_their_direction(
    m: IpModel,
    ts_us: u64,
    count: u64,
    bytes: u64,
    dir: Dir,
)
    requires
        count > 0 || bytes > 0,
    ensures
        ({
            let n = with_packets(m, ts_us, count, bytes, dir);
            let tx = dir == Dir::Tx;
            let t = Tally {
                pkts_tx: if tx {
                    count as int
                } else {
                    0
                },
                pkts_rx: if tx {
                    0
                } else {
                    count as int
                },
                lost_tx: 0,
                lost_rx: 0,
                bytes_tx: if tx {
                    bytes as int
                } else {
                    0
                },
                bytes_rx: if tx {
                    0
                } else {
                    bytes as int
                },
            };
            &&& n.total.pkts_tx == m.total.pkts_tx + t.pkts_tx
            &&& n.total.pkts_rx == m.total.pkts_rx + t.pkts_rx
            &&& n.total.bytes_tx == m.total.bytes_tx + t.bytes_tx
            &&& n.total.bytes_rx == m.total.bytes_rx + t.bytes_rx
            &&& n.total.lost_tx == m.total.lost_tx && n.total.lost_rx == m.total.lost_rx
            &&& n.sec1 == credited(m.sec1, (ts_us / 1_000_000) as u64, 600, t)
            &&& n.sec60 == credited(m.sec60, (ts_us / 60_000_000) as u64, 60, t)
            &&& m.first_seen_us is None ==> n.first_seen_us == Some(ts_us)
            &&& m.first_seen_us is Some ==> n.first_seen_us == m.first_seen_us
            &&& n.last_seen_us is Some && n.last_seen_us->0 >= ts_us
            &&& m.last_seen_us is None ==> n.last_seen_us == Some(ts_us)
            &&& m.last_seen_us is Some ==> n.last_seen_us->0 >= m.last_seen_us->0 && (
            n.last_seen_us->0 == ts_us || n.last_seen_us == m.last_seen_us)
            &&& n.ip == m.ip && n.active_calls == m.active_calls
        }),
{
}

/// What losses add to an address: their number, to the losses of their direction,
/// all told and in the second and the minute of their time. They are no sign of life
/// but where there was none before.
pub proof fn losses_are_booked_in_their_direction(m: IpModel, ts_us: u64, lost: u64, dir: Dir)
    requires
        lost > 0,
    ensures
        ({
            let n = with_losses(m, ts_us, lost, dir);
            let tx = dir == Dir::Tx;
            let t = Tally {
                pkts_tx: 0,
                pkts_rx: 0,
                lost_tx: if tx {
                    lost as int
                } else {
                    0
                },
                lost_rx: if tx {
                    0
                } else {
                    lost as int
                },
                bytes_tx: 0,
                bytes_rx: 0,
            };
            &&& n.total.lost_tx == m.total.lost_tx + t.lost_tx
            &&& n.total.lost_rx == m.total.lost_rx + t.lost_rx
            &&& n.total.pkts_tx == m.total.pkts_tx && n.total.pkts_rx == m.total.pkts_rx
            &&& n.total.bytes_tx == m.total.bytes_tx && n.total.bytes_rx == m.total.bytes_rx
            &&& n.sec1 == credited(m.sec1, (ts_us / 1_000_000) as u64, 600, t)
            &&& n.sec60 == credited(m.sec60, (ts_us / 60_000_000) as u64, 60, t)
            &&& n.first_seen_us == m.first_seen_us
            &&& m.last_seen_us is Some ==> n.last_seen_us == m.last_seen_us
            &&& m.last_seen_us is None ==> n.last_seen_us == Some(ts_us)
            &&& n.ip == m.ip && n.active_calls == m.active_calls
        }),
{
}

/// Nothing is booked for no packets without bytes, and nothing for no losses.
pub proof fn nothing_is_booked_for_nothing(m: IpModel, ts_us: u64, dir: Dir)
    ensures
        with_packets(m, ts_us, 0, 0, dir) == m,
        with_losses(m, ts_us, 0, dir) == m,
{
}

/// The counts of a direction are those of that direction.
pub proof fn a_direction_has_its_own_counts(t: Tally)
    ensures
        pkts_of(t, Dir::Tx) == t.pkts_tx && pkts_of(t, Dir::Rx) == t.pkts_rx,
        lost_of(t, Dir::Tx) == t.lost_tx && lost_of(t, Dir::Rx) == t.lost_rx,
        bytes_of(t, Dir::Tx) == t.bytes_tx && bytes_of(t, Dir::Rx) == t.bytes_rx,
{
}

/// A loss is what was lost out of the packets, at most all of them, and there is
/// none where there were no packets.
pub proof fn a_loss_is_a_share_of_the_packets(lost: int, packets: int)
    requires
        0 <= lost <= u128::MAX,
        0 <= packets <= u128::MAX,
    ensures
        share(lost, packets) is None <==> packets == 0,
        packets > 0 ==> share(lost, packets)->0.whole == packets,
        packets > 0 && lost <= packets ==> share(lost, packets)->0.part == lost,
        packets > 0 && lost > packets ==> share(lost, packets)->0.part == packets,
{
}

/// Calls come and go one by one: the number changes by as many as are added or taken
/// away, and stays between nothing and the most that can be counted.
pub proof fn active_calls_change_by_the_difference(m: IpModel, delta: int)
    ensures
        ({
            let n = with_calls(m, delta);
            &&& 0 <= m.active_calls + delta <= u32::MAX ==> n.active_calls == m.active_calls + delta
            &&& m.active_calls + delta < 0 ==> n.active_calls == 0
            &&& m.active_calls + delta > u32::MAX ==> n.active_calls == u32::MAX
            &&& n.total == m.total && n.sec1 == m.sec1 && n.sec60 == m.sec60
            &&& n.first_seen_us == m.first_seen_us && n.last_seen_us == m.last_seen_us
            &&& n.ip == m.ip
        }),
{
}

/// An address is in use while calls involve it, or while it was seen at the cutoff
/// or after it.
pub proof fn an_address_is_in_use_while_it_is_seen(m: IpModel, cutoff_us: u64)
    ensures
        m.active_calls > 0 ==> in_use(m, cutoff_us),
        m.active_calls == 0 && m.last_seen_us is Some ==> (in_use(m, cutoff_us) <==> cutoff_us
            <= m.last_seen_us->0),
        m.active_calls == 0 && m.last_seen_us is None ==> (in_use(m, cutoff_us) <==> cutoff_us == 0),
{
}

/// An address that was not seen has counted nothing.
pub proof fn an_unseen_address_has_counted_nothing(ip: IpAddr)
    ensures
        ({
            let m = unseen(ip);
            &&& m.ip == ip && m.active_calls == 0
            &&& m.total.pkts_tx == 0 && m.total.pkts_rx == 0 && m.total.lost_tx == 0
            &&& m.total.lost_rx == 0 && m.total.bytes_tx == 0 && m.total.bytes_rx == 0
            &&& m.first_seen_us is None && m.last_seen_us is None
            &&& m.sec1.len() == 0 && m.sec60.len() == 0
        }),
{
}

/// Of two addresses with packets, the one with the greater share of losses does not
/// rank behind the other. One without packets ranks behind all that have some.
pub proof fn the_worse_loss_ranks_first(a: IpModel, b: IpModel)
    requires
        a.total.fits(),
        b.total.fits(),
    ensures
        ({
            let pa = a.total.pkts_tx + a.total.pkts_rx;
            let la = a.total.lost_tx + a.total.lost_rx;
            let pb = b.total.pkts_tx + b.total.pkts_rx;
            let lb = b.total.lost_tx + b.total.lost_rx;
            &&& pa > 0 && pb == 0 ==> ranks_before(loss_rank(a), loss_rank(b))
            &&& pa > 0 && pb > 0 && la <= pa && lb <= pb && la * pb >= lb * pa ==> !ranks_before(
                loss_rank(b),
                loss_rank(a),
            )
            &&& pa > 0 && pb > 0 && la >= pa ==> !ranks_before(loss_rank(b), loss_rank(a))
        }),
{
    let k: int = 0x4000_0000_0000_0000;
    let pa = a.total.pkts_tx + a.total.pkts_rx;
    let la = a.total.lost_tx + a.total.lost_rx;
    let pb = b.total.pkts_tx + b.total.pkts_rx;
    let lb = b.total.lost_tx + b.total.lost_rx;
    if pa > 0 && pb > 0 {
        let qa = if la < pa {
            la
        } else {
            pa
        };
        let qb = if lb < pb {
            lb
        } else {
            pb
        };
        let x = qa * k / pa;
        let y = qb * k / pb;
        assert(0 <= x <= k) by (nonlinear_arith)
            requires
                0 <= qa <= pa,
                pa > 0,
                k > 0,
                x == qa * k / pa,
        ;
        assert(0 <= y <= k) by (nonlinear_arith)
            requires
                0 <= qb <= pb,
                pb > 0,
                k > 0,
                y == qb * k / pb,
        ;
        if qa * pb >= qb * pa {
            assert(y <= x) by (nonlinear_arith)
                requires
                    pa > 0,
                    pb > 0,
                    k > 0,
                    qa * pb >= qb * pa,
                    x == qa * k / pa,
                    y == qb * k / pb,
            {
                assert(y * pb <= qb * k);
                assert(y * pb * pa <= qb * k * pa);
                assert(qb * k * pa == qb * pa * k);
                assert(qb * pa * k <= qa * pb * k);
                assert(y * pa * pb <= qa * k * pb);
                assert(y * pa <= qa * k);
                assert(qa * k < (x + 1) * pa);
                assert(y * pa < (x + 1) * pa);
            }
        }
        if la >= pa {
            assert(qa * pb >= qb * pa) by (nonlinear_arith)
                requires
                    qa == pa,
                    0 <= qb <= pb,
                    pa > 0,
            ;
        }
    }
}

/// The packets and the losses, both directions together, of the slots whose slice
/// falls into a group.
pub open spec fn in_group(s: Slots, group: int, g: int) -> (int, int)
    decreases s.len(),
{
    if s.len() == 0 {
        (0, 0)
    } else {
        let (p, l) = in_group(s.drop_last(), group, g);
        let b = s.last().1;
        if g * group <= s.last().0 < (g + 1) * group {
            (p + b.pkts_tx + b.pkts_rx, l + b.lost_tx + b.lost_rx)
        } else {
            (p, l)
        }
    }
}

/// Nothing falls into a group behind the last slice.
proof fn lemma_in_no_group(s: Slots, group: int, g: int)
    requires
        group >= 1,
        forall|i: int| 0 <= i < s.len() ==> (#[trigger] s[i]).0 < g * group,
    ensures
        in_group(s, group, g) == (0int, 0int),
    decreases s.len(),
{
    if s.len() > 0 {
        assert(s[s.len() - 1].0 < g * group);
        assert forall|i: int| 0 <= i < s.drop_last().len() implies (#[trigger] s.drop_last()[i]).0 < g
            * group by {
            assert(s.drop_last()[i] == s[i]);
        }
        lemma_in_no_group(s.drop_last(), group, g);
    }
}

/// Each column of a chart counts the slots of its group, all of them and no others.
pub proof fn a_column_counts_its_group(s: Slots, group: int)
    requires
        group >= 1,
        forall|i: int| 0 <= i < s.len() ==> (#[trigger] s[i]).0 == s[0].0 + i,
    ensures
        forall|i: int|
            0 <= i < columns_of(s, group).len() ==> {
                let c = #[trigger] columns_of(s, group)[i];
                (c.1, c.2) == in_group(s, group, c.0)
            },
        s.len() > 0 ==> columns_of(s, group).len() > 0 && columns_of(s, group).last().0 * group
            <= s.last().0 < (columns_of(s, group).last().0 + 1) * group,
    decreases s.len(),
{
    if s.len() > 0 {
        let before = s.drop_last();
        assert forall|i: int| 0 <= i < before.len() implies (#[trigger] before[i]).0 == before[0].0 + i by {
            assert(before[i] == s[i]);
        }
        a_column_counts_its_group(before, group);
        lemma_columns_rise(s, group);
        lemma_columns_rise(before, group);
        let was = columns_of(before, group);
        let now = columns_of(s, group);
        let k = s.last().0 as int;
        let g = k / group;
        assert(g * group <= k < (g + 1) * group) by (nonlinear_arith)
            requires
                g == k / group,
                group >= 1,
        ;
        assert forall|i: int| 0 <= i < now.len() implies ({
            let c = #[trigger] now[i];
            (c.1, c.2) == in_group(s, group, c.0)
        }) by {
            let c = now[i];
            if i < now.len() - 1 {
                assert(c.0 < now[now.len() - 1].0);
                assert(c.0 < g);
                assert((c.0 + 1) * group <= k) by (nonlinear_arith)
                    requires
                        c.0 + 1 <= g,
                        g * group <= k,
                        group >= 1,
                ;
                assert(c == was[i]);
            } else if before.len() > 0 && was.last().0 == g {
                assert(was[was.len() - 1] == was.last());
            } else {
                assert(c.0 == g);
                assert forall|j: int| 0 <= j < before.len() implies (#[trigger] before[j]).0 < g
                    * group by {
                    let w = was.last().0;
                    let a = before.last().0 as int;
                    assert(before[before.len() - 1].0 == before[0].0 + before.len() - 1);
                    assert(before[j].0 <= a);
                    assert(s[s.len() - 1].0 == s[0].0 + s.len() - 1);
                    assert(a == k - 1);
                    assert(a < g * group) by (nonlinear_arith)
                        requires
                            w * group <= a < (w + 1) * group,
                            w != g,
                            g * group <= k < (g + 1) * group,
                            a == k - 1,
                            group >= 1,
                    ;
                }
                lemma_in_no_group(before, group, g);
            }
        }
        assert(now.last() == now[now.len() - 1]);
    }
}

/// A chart has as few slices to a column as it takes to have no more columns than
/// asked for.
pub proof fn columns_are_as_narrow_as_they_can_be(slices: int, cols: int)
    requires
        slices >= 1,
        cols >= 1,
    ensures
        group_size(slices, cols) >= 1,
        group_size(slices, cols) * cols >= slices,
        (group_size(slices, cols) - 1) * cols < slices,
{
    if slices > cols {
        let q = (slices - 1) / cols;
        assert(q * cols <= slices - 1 < (q + 1) * cols && q >= 0) by (nonlinear_arith)
            requires
                q == (slices - 1) / cols,
                cols >= 1,
                slices >= 1,
        ;
    }
}

/// Each column of a chart starts where its group starts, and tells the loss of what
/// is counted there, both directions together.
pub proof fn a_chart_column_tells_its_group(m: IpModel, w: u64, cols: u64, i: int)
    requires
        stats_wf(m),
        cols > 0,
        0 <= i < chart(m, w, cols).len(),
    ensures
        exists|slices: int, g: int|
            {
                let (start, loss) = chart(m, w, cols)[i];
                let size = group_size(slices, cols as int);
                let (p, l) = #[trigger] in_group(charted(m, w), group_size(slices, cols as int), g);
                &&& w == 0 ==> slices == m.sec1.len()
                &&& 0 < w <= 600 ==> slices == w
                &&& w > 600 ==> (slices - 1) * 60 < w <= slices * 60
                &&& w <= 600 ==> start == g * size * 1_000_000
                &&& w > 600 ==> start == g * size * 60_000_000
                &&& loss.whole == p
                &&& l <= p ==> loss.part == l
                &&& l > p ==> loss.part == p
            },
{
    let s = charted(m, w);
    let slices = if w == 0 {
        m.sec1.len() as int
    } else if w <= 600 {
        w as int
    } else {
        minutes(w as int)
    };
    let size = group_size(slices, cols as int);
    if slices >= 1 {
        columns_are_as_narrow_as_they_can_be(slices, cols as int);
    }
    let ring = if w <= 600 {
        m.sec1
    } else {
        m.sec60
    };
    let width: int = if w <= 600 {
        1_000_000
    } else {
        60_000_000
    };
    let last = u64::MAX as int / width;
    let k = ring.len() - s.len();
    assert(s =~= ring.skip(k));
    assert forall|j: int| 0 <= j < s.len() implies (#[trigger] s[j]).0 == s[0].0 + j && s[j].0
        <= last by {
        assert(s[j] == ring[j + k]);
        assert(s[0] == ring[0 + k]);
    }
    a_column_counts_its_group(s, size);
    lemma_columns_bound(s, size, last);
    lemma_tally_newest(ring, s.len() as int);
    assert(newest(ring, s.len() as int) =~= s);
    let all = columns_of(s, size);
    let shown = newest(all, cols as int);
    let j = i + all.len() - shown.len();
    let c = all[j];
    assert(shown[i] == c);
    assert(0 <= c.0 * size * width <= u64::MAX) by (nonlinear_arith)
        requires
            0 <= c.0 * size <= last,
            last == u64::MAX as int / width,
            width > 0,
    ;
    let (p, l) = in_group(charted(m, w), group_size(slices, cols as int), c.0);
    assert(0 <= c.0 * size) by (nonlinear_arith)
        requires
            0 <= c.0,
            size >= 1,
    ;
}

/// The worst addresses come first: of two that have packets, the one with the greater
/// share of losses is not listed behind the other, and one without packets not before
/// one with some.
pub proof fn the_worst_address_comes_first(v: Seq<IpStats>, order: Seq<usize>, i: int, j: int)
    requires
        sorts(order, loss_ranks(v)),
        0 <= i < j < order.len(),
        forall|k: int| 0 <= k < v.len() ==> (#[trigger] v[k]).wf(),
    ensures
        ({
            let a = v[order[i] as int];
            let b = v[order[j] as int];
            let pa = a.pkts_tx + a.pkts_rx;
            let pb = b.pkts_tx + b.pkts_rx;
            let la = a.lost_tx + a.lost_rx;
            let lb = b.lost_tx + b.lost_rx;
            &&& pa == 0 ==> pb == 0
            &&& pa > 0 && pb > 0 && la <= pa && lb <= pb && la * pb < lb * pa ==> loss_rank(a@)
                == loss_rank(b@)
        }),
{
    let ranks = loss_ranks(v);
    an_order_lists_every_place_once(order, ranks);
    let a = v[order[i] as int];
    let b = v[order[j] as int];
    assert(ranks[order[i] as int] == loss_rank(a@));
    assert(ranks[order[j] as int] == loss_rank(b@));
    the_worse_loss_ranks_first(b@, a@);
}

/// A list by address has each address once, in order, with what is counted of it.
pub proof fn a_list_has_each_address_once(v: Seq<IpStats>, m: Map<IpKey, IpModel>, ip: IpAddr)
    requires
        lists_by_ip(v, m),
    ensures
        m.contains_key(ip.spec_key()) <==> exists|i: int|
            0 <= i < v.len() && (#[trigger] v[i]).ip == ip,
        forall|i: int|
            0 <= i < v.len() && (#[trigger] v[i]).ip == ip ==> v[i]@ == m[ip.spec_key()],
        forall|i: int, j: int|
            0 <= i < j < v.len() ==> match ((#[trigger] v[i]).ip, (#[trigger] v[j]).ip) {
                (IpAddr::V4(a), IpAddr::V4(b)) => a < b,
                (IpAddr::V6(a), IpAddr::V6(b)) => a < b,
                (IpAddr::V4(_), IpAddr::V6(_)) => true,
                (IpAddr::V6(_), IpAddr::V4(_)) => false,
            },
{
    assert forall|i: int, j: int| 0 <= i < j < v.len() implies match (
        (#[trigger] v[i]).ip,
        (#[trigger] v[j]).ip,
    ) {
        (IpAddr::V4(a), IpAddr::V4(b)) => a < b,
        (IpAddr::V6(a), IpAddr::V6(b)) => a < b,
        (IpAddr::V4(_), IpAddr::V6(_)) => true,
        (IpAddr::V6(_), IpAddr::V4(_)) => false,
    } by {
        assert(v[i].ip.before(v[j].ip));
    }
    if m.contains_key(ip.spec_key()) {
        let i = choose|i: int| 0 <= i < v.len() && #[trigger] v[i].ip.spec_key() == ip.spec_key();
        crate::addr::ip_key_is_injective(v[i].ip, ip);
        assert(v[i].ip == ip);
    }
}

} // verus!
