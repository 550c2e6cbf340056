//! The messages of a call, sorted into dialogs.
use crate::addr::IpAddr;
use crate::model::sip::SipMsg;
use crate::order::{comes_first, lemma_order_covers, listed, sorts, stable_order, Rank};
use crate::store::ring::newest;
use crate::table::Table;
use vstd::prelude::*;

verus! {

/// How many messages of a call are shown.
pub const MAX_SHOWN: usize = 1000;

/// Copies the newest messages, at most [`MAX_SHOWN`].
pub fn trim_msgs(msgs: &Vec<SipMsg>) -> (r: Vec<SipMsg>)
    ensures
        r@ == newest(msgs@, MAX_SHOWN as int),
{
    let n = msgs.len();
    let lo: usize = if n > MAX_SHOWN {
        n - MAX_SHOWN
    } else {
        0
    };
    let mut r: Vec<SipMsg> = Vec::new();
    let mut i: usize = lo;
    while i < n
        invariant
            lo <= i <= n == msgs@.len(),
            r@ == msgs@.subrange(lo as int, i as int),
        decreases n - i,
    {
        r.push(msgs[i].clone());
        i += 1;
    }
    assert(r@ =~= newest(msgs@, MAX_SHOWN as int));
    r
}

/// What messages are sorted by: their time.
pub open spec fn time_ranks(msgs: Seq<SipMsg>) -> Seq<Rank> {
    Seq::new(msgs.len(), |i: int| (false, msgs[i].ts_us as u128))
}

/// Whether `msgs` and `legs` are the messages of two calls in one line, by
/// time, with 0 for each message of the first call and 1 for each of the
/// second. Messages of one time keep their order, the first call's first.
pub open spec fn interleaves(
    primary: Seq<SipMsg>,
    linked: Seq<SipMsg>,
    msgs: Seq<SipMsg>,
    legs: Seq<u8>,
) -> bool {
    let all = primary + linked;
    exists|order: Seq<usize>| #[trigger]
        sorts(order, time_ranks(all)) && msgs == order.map_values(|i: usize| all[i as int]) && legs
            == order.map_values(
            |i: usize|
                if i < primary.len() {
                    0u8
                } else {
                    1u8
                },
        )
}

/// Merges the messages of a call and of a linked call by time. Returns the
/// messages, the leg of each, and the number of legs.
pub fn merge_leg_msgs(primary: Vec<SipMsg>, linked: Vec<SipMsg>) -> (r: (Vec<SipMsg>, Vec<u8>, u8))
    requires
        primary@.len() + linked@.len() <= usize::MAX,
    ensures
        interleaves(primary@, linked@, r.0@, r.1@),
        r.0@.len() == primary@.len() + linked@.len(),
        r.1@.len() == r.0@.len(),
        r.2 == if r.0@.len() == 0 {
            0u8
        } else {
            2u8
        },
{
    let ghost all = primary@ + linked@;
    let split = primary.len();
    let mut ranks: Vec<Rank> = Vec::new();
    let mut i: usize = 0;
    while i < split
        invariant
            i <= split == primary@.len(),
            ranks@ == time_ranks(primary@.take(i as int)),
        decreases split - i,
    {
        ranks.push((false, primary[i].ts_us as u128));
        i += 1;
        assert(ranks@ =~= time_ranks(primary@.take(i as int)));
    }
    let mut j: usize = 0;
    while j < linked.len()
        invariant
            j <= linked@.len(),
            primary@.take(primary@.len() as int) =~= primary@,
            ranks@ == time_ranks(primary@ + linked@.take(j as int)),
        decreases linked@.len() - j,
    {
        ranks.push((false, linked[j].ts_us as u128));
        j += 1;
        assert(ranks@ =~= time_ranks(primary@ + linked@.take(j as int)));
    }
    assert(ranks@ =~= time_ranks(all)) by {
        assert(linked@.take(linked@.len() as int) =~= linked@);
    }
    let order = stable_order(&ranks);
    let mut msgs: Vec<SipMsg> = Vec::new();
    let mut legs: Vec<u8> = Vec::new();
    let ghost leg = |i: usize|
        if i < primary@.len() {
            0u8
        } else {
            1u8
        };
    let mut n: usize = 0;
    while n < order.len()
        invariant
            n <= order@.len(),
            split == primary@.len(),
            all == primary@ + linked@,
            all.len() <= usize::MAX,
            sorts(order@, time_ranks(all)),
            leg == |i: usize|
                if i < primary@.len() {
                    0u8
                } else {
                    1u8
                },
            msgs@ == order@.take(n as int).map_values(|i: usize| all[i as int]),
            legs@ == order@.take(n as int).map_values(leg),
        decreases order@.len() - n,
    {
        let p: usize = order[n];
        assert(p < all.len());
        if p < split {
            msgs.push(primary[p].clone());
            legs.push(0);
        } else {
            msgs.push(linked[p - split].clone());
            legs.push(1);
        }
        n += 1;
        assert(msgs@ =~= order@.take(n as int).map_values(|i: usize| all[i as int]));
        assert(legs@ =~= order@.take(n as int).map_values(leg));
    }
    assert(order@.take(order@.len() as int) =~= order@);
    let count: u8 = if msgs.len() == 0 {
        0
    } else {
        2
    };
    (msgs, legs, count)
}

/// What tells the dialog of a message: its From tag, or else its branch;
/// empty where it has neither.
pub open spec fn dialog_key(m: SipMsg) -> Seq<char> {
    match (m.from_tag, m.branch) {
        (Some(t), _) => t@,
        (None, Some(b)) => b@,
        (None, None) => Seq::empty(),
    }
}

/// The dialogs of the first `n` messages, in the order in which they turn up.
pub open spec fn dialogs(msgs: Seq<SipMsg>, n: int) -> Seq<Seq<char>>
    decreases n,
{
    if n <= 0 {
        Seq::empty()
    } else {
        let before = dialogs(msgs, n - 1);
        let k = dialog_key(msgs[n - 1]);
        if k.len() == 0 || before.contains(k) {
            before
        } else {
            before.push(k)
        }
    }
}

/// The leg of a message: the number of its dialog, or 0 where it has none.
pub open spec fn leg_number(msgs: Seq<SipMsg>, i: int) -> u8 {
    let k = dialog_key(msgs[i]);
    if k.len() == 0 {
        0
    } else {
        let n = dialogs(msgs, i + 1).index_of(k);
        if n > 255 {
            255
        } else {
            n as u8
        }
    }
}

/// The number of legs: one at least, and no more than fit in eight bits.
pub open spec fn dialog_count(msgs: Seq<SipMsg>) -> u8 {
    let n = dialogs(msgs, msgs.len() as int).len();
    if n == 0 {
        1
    } else if n > 255 {
        255
    } else {
        n as u8
    }
}

proof fn lemma_dialogs_distinct(msgs: Seq<SipMsg>, n: int)
    ensures
        dialogs(msgs, n).no_duplicates(),
        dialogs(msgs, n).len() <= if n < 0 {
            0
        } else {
            n
        },
    decreases n,
{
    if n > 0 {
        lemma_dialogs_distinct(msgs, n - 1);
    }
}

/// The leg of each message, and the number of legs. Messages of one dialog
/// share a leg; those without a dialog are on leg 0.
pub fn dialog_legs(msgs: &Vec<SipMsg>) -> (r: (Vec<u8>, u8))
    ensures
        r.0@ == Seq::new(msgs@.len(), |i: int| leg_number(msgs@, i)),
        r.1 == dialog_count(msgs@),
{
    let mut known: Table<String, u8> = Table::new();
    let mut count: usize = 0;
    let mut legs: Vec<u8> = Vec::new();
    let mut i: usize = 0;
    while i < msgs.len()
        invariant
            i <= msgs@.len(),
            count <= i,
            count == dialogs(msgs@, i as int).len(),
            legs@.len() == i,
            forall|j: int| 0 <= j < i ==> #[trigger] legs@[j] == leg_number(msgs@, j),
            forall|k: Seq<char>| #[trigger]
                known@.contains_key(k) <==> dialogs(msgs@, i as int).contains(k),
            forall|j: int|
                0 <= j < count ==> known@[#[trigger] dialogs(msgs@, i as int)[j]] == (if j > 255 {
                    255u8
                } else {
                    j as u8
                }),
        decreases msgs@.len() - i,
    {
        let m = &msgs[i];
        let key: String = match &m.from_tag {
            Some(t) => t.clone(),
            None => match &m.branch {
                Some(b) => b.clone(),
                None => String::new(),
            },
        };
        assert(key@ =~= dialog_key(*m));
        let ghost before = dialogs(msgs@, i as int);
        let ghost after = dialogs(msgs@, i + 1);
        proof {
            lemma_dialogs_distinct(msgs@, i as int);
            lemma_dialogs_distinct(msgs@, i + 1);
        }
        if key.chars().next().is_none() {
            legs.push(0);
        } else {
            assert(key@.len() > 0);
            let found: Option<u8> = match known.get(&key) {
                Some(n) => Some(*n),
                None => None,
            };
            match found {
                Some(n) => {
                    proof {
                        assert(before.contains(key@));
                        let p = before.index_of(key@);
                        assert(before[p] == key@);
                        assert(after == before);
                    }
                    legs.push(n);
                },
                None => {
                    let n: u8 = if count > 255 {
                        255
                    } else {
                        count as u8
                    };
                    let ghost id = key@;
                    known.insert(key, n);
                    count += 1;
                    proof {
                        assert(!before.contains(id));
                        assert(after == before.push(id));
                        assert(after[count - 1] == id);
                        assert(after.index_of(id) == count - 1) by {
                            let p = after.index_of(id);
                            assert(after[p] == id);
                        }
                        assert forall|k: Seq<char>| #[trigger] known@.contains_key(k) <==> after.contains(
                            k,
                        ) by {
                            if before.contains(k) {
                                let p = before.index_of(k);
                                assert(after[p] == k);
                            }
                        }
                        assert forall|j: int| 0 <= j < count implies known@[#[trigger] after[j]] == (
                        if j > 255 {
                            255u8
                        } else {
                            j as u8
                        }) by {
                            if j < count - 1 {
                                assert(after[j] == before[j]);
                                assert(before.contains(before[j]));
                            }
                        }
                    }
                    legs.push(n);
                },
            }
        }
        i += 1;
    }
    assert(legs@ =~= Seq::new(msgs@.len(), |i: int| leg_number(msgs@, i)));
    let n: u8 = if count == 0 {
        1
    } else if count > 255 {
        255
    } else {
        count as u8
    };
    (legs, n)
}

/// Whether a message went to or from an address.
pub open spec fn touches(m: SipMsg, ip: IpAddr) -> bool {
    m.flow.src.ip == ip || m.flow.dst.ip == ip
}

/// Whether a leg has a message to or from an address.
pub open spec fn leg_touches(msgs: Seq<SipMsg>, legs: Seq<u8>, leg: u8, ip: IpAddr) -> bool {
    exists|i: int|
        0 <= i < msgs.len() && i < legs.len() && legs[i] == leg && touches(#[trigger] msgs[i], ip)
}

/// Whether the first two legs share an address.
pub open spec fn shared_ip(msgs: Seq<SipMsg>, legs: Seq<u8>, ip: IpAddr) -> bool {
    leg_touches(msgs, legs, 0, ip) && leg_touches(msgs, legs, 1, ip)
}

/// Whether `r` is the one address that the first two legs share; none where
/// they share no address or more than one.
pub open spec fn is_common_ip(msgs: Seq<SipMsg>, legs: Seq<u8>, r: Option<IpAddr>) -> bool {
    match r {
        Some(ip) => shared_ip(msgs, legs, ip) && forall|o: IpAddr| #[trigger]
            shared_ip(msgs, legs, o) ==> o == ip,
        None => (forall|o: IpAddr| !#[trigger] shared_ip(msgs, legs, o)) || exists|
            a: IpAddr,
            b: IpAddr,
        |
            a != b && #[trigger] shared_ip(msgs, legs, a) && #[trigger] shared_ip(msgs, legs, b),
    }
}

fn has_leg(msgs: &Vec<SipMsg>, legs: &Vec<u8>, leg: u8, ip: IpAddr) -> (r: bool)
    ensures
        r == leg_touches(msgs@, legs@, leg, ip),
{
    let mut i: usize = 0;
    while i < msgs.len() && i < legs.len()
        invariant
            i <= msgs@.len(),
            i <= legs@.len(),
            forall|j: int| 0 <= j < i ==> !(legs@[j] == leg && touches(#[trigger] msgs@[j], ip)),
        decreases msgs@.len() - i,
    {
        let m = &msgs[i];
        if legs[i] == leg && (m.flow.src.ip == ip || m.flow.dst.ip == ip) {
            assert(touches(msgs@[i as int], ip));
            return true;
        }
        i += 1;
    }
    false
}

/// The one address that the first two legs share; none where they share no
/// address or more than one.
pub fn common_flow_ip(msgs: &Vec<SipMsg>, legs: &Vec<u8>) -> (r: Option<IpAddr>)
    ensures
        is_common_ip(msgs@, legs@, r),
{
    let mut found: Option<IpAddr> = None;
    let mut i: usize = 0;
    while i < msgs.len() && i < legs.len()
        invariant
            i <= msgs@.len(),
            i <= legs@.len(),
            match found {
                Some(ip) => shared_ip(msgs@, legs@, ip),
                None => true,
            },
            forall|j: int, ip: IpAddr|
                0 <= j < i && legs@[j] == 0 && #[trigger] touches(msgs@[j], ip) && shared_ip(
                    msgs@,
                    legs@,
                    ip,
                ) ==> found == Some(ip),
        decreases msgs@.len() - i,
    {
        if legs[i] == 0 {
            let ends = [msgs[i].flow.src.ip, msgs[i].flow.dst.ip];
            let mut e: usize = 0;
            while e < 2
                invariant
                    i < msgs@.len(),
                    i < legs@.len(),
                    legs@[i as int] == 0,
                    e <= 2,
                    ends@.len() == 2,
                    ends@[0] == msgs@[i as int].flow.src.ip,
                    ends@[1] == msgs@[i as int].flow.dst.ip,
                    match found {
                        Some(ip) => shared_ip(msgs@, legs@, ip),
                        None => true,
                    },
                    forall|j: int, ip: IpAddr|
                        0 <= j < i && legs@[j] == 0 && #[trigger] touches(msgs@[j], ip)
                            && shared_ip(msgs@, legs@, ip) ==> found == Some(ip),
                    forall|n: int|
                        0 <= n < e && shared_ip(msgs@, legs@, #[trigger] ends@[n]) ==> found
                            == Some(ends@[n]),
                decreases 2 - e,
            {
                let ip: IpAddr = ends[e];
                assert(touches(msgs@[i as int], ip));
                if has_leg(msgs, legs, 1, ip) {
                    assert(shared_ip(msgs@, legs@, ip));
                    match found {
                        None => {
                            found = Some(ip);
                        },
                        Some(f) => {
                            if f != ip {
                                return None;
                            }
                        },
                    }
                }
                e += 1;
            }
            assert forall|j: int, ip: IpAddr|
                0 <= j < i + 1 && legs@[j] == 0 && #[trigger] touches(msgs@[j], ip) && shared_ip(
                    msgs@,
                    legs@,
                    ip,
                ) implies found == Some(ip) by {
                if j == i {
                    assert(ip == ends@[0] || ip == ends@[1]);
                }
            }
        }
        i += 1;
    }
    found
}

/// Messages of one dialog are on one leg, and legs are numbered from zero in
/// the order in which their dialogs turn up.
pub proof fn one_dialog_is_one_leg(msgs: Seq<SipMsg>, i: int, j: int)
    requires
        0 <= i <= j < msgs.len(),
        dialog_key(msgs[i]) == dialog_key(msgs[j]),
    ensures
        leg_number(msgs, i) == leg_number(msgs, j),
{
    let k = dialog_key(msgs[i]);
    if k.len() > 0 {
        lemma_dialogs_grow(msgs, i + 1, j + 1);
        lemma_dialogs_distinct(msgs, j + 1);
        let a = dialogs(msgs, i + 1);
        let b = dialogs(msgs, j + 1);
        assert(a.contains(k)) by {
            if !dialogs(msgs, i).contains(k) {
                assert(a.last() == k);
            }
        }
        let n = a.index_of(k);
        assert(a[n] == k && b[n] == k);
        let m = b.index_of(k);
        assert(b[m] == k);
    }
}

proof fn lemma_dialogs_grow(msgs: Seq<SipMsg>, n: int, m: int)
    requires
        0 <= n <= m,
    ensures
        dialogs(msgs, n).len() <= dialogs(msgs, m).len(),
        forall|i: int|
            0 <= i < dialogs(msgs, n).len() ==> #[trigger] dialogs(msgs, m)[i] == dialogs(
                msgs,
                n,
            )[i],
    decreases m - n,
{
    if n < m {
        lemma_dialogs_grow(msgs, n, m - 1);
    }
}

/// A dialog is told by the From tag of its messages, or else by their branch.
pub proof fn a_dialog_is_told_by_its_tag(m: SipMsg)
    ensures
        m.from_tag matches Some(t) ==> dialog_key(m) == t@,
        m.from_tag is None ==> (m.branch matches Some(b) ==> dialog_key(m) == b@),
        m.from_tag is None && m.branch is None ==> dialog_key(m).len() == 0,
{
}

/// Messages of two dialogs are on two legs, as long as they can be numbered apart. A
/// message without a dialog is on the first leg, and so is the first dialog.
pub proof fn two_dialogs_are_two_legs(msgs: Seq<SipMsg>, i: int, j: int)
    requires
        0 <= i < msgs.len(),
        0 <= j < msgs.len(),
        i <= j,
    ensures
        dialog_key(msgs[i]).len() == 0 ==> leg_number(msgs, i) == 0,
        dialog_key(msgs[i]).len() > 0 && dialog_key(msgs[j]).len() > 0 && dialog_key(msgs[i])
            != dialog_key(msgs[j]) && leg_number(msgs, j) < 255 && leg_number(msgs, i) < 255
            ==> leg_number(msgs, i) != leg_number(msgs, j),
        (forall|k: int|
            0 <= k < i ==> dialog_key(#[trigger] msgs[k]).len() == 0 || dialog_key(msgs[k])
                == dialog_key(msgs[i])) ==> leg_number(msgs, i) == 0,
{
    let a = dialog_key(msgs[i]);
    let b = dialog_key(msgs[j]);
    if a.len() > 0 {
        lemma_has_dialog(msgs, i, i + 1);
        let d = dialogs(msgs, i + 1);
        if b.len() > 0 && a != b {
            lemma_has_dialog(msgs, j, j + 1);
            lemma_dialogs_grow(msgs, i + 1, j + 1);
            let e = dialogs(msgs, j + 1);
            let n = d.index_of(a);
            let m = e.index_of(b);
            assert(d[n] == a && e[n] == a && e[m] == b);
            assert(n != m);
        }
        if forall|k: int|
            0 <= k < i ==> dialog_key(#[trigger] msgs[k]).len() == 0 || dialog_key(msgs[k]) == a {
            lemma_one_dialog(msgs, i + 1, a);
            lemma_dialogs_distinct(msgs, i + 1);
            let n = d.index_of(a);
            assert(d[n] == a);
        }
    }
}

proof fn lemma_has_dialog(msgs: Seq<SipMsg>, i: int, n: int)
    requires
        0 <= i < n <= msgs.len(),
        dialog_key(msgs[i]).len() > 0,
    ensures
        dialogs(msgs, n).contains(dialog_key(msgs[i])),
    decreases n,
{
    let k = dialog_key(msgs[i]);
    if i < n - 1 {
        lemma_has_dialog(msgs, i, n - 1);
        let before = dialogs(msgs, n - 1);
        let p = before.index_of(k);
        assert(dialogs(msgs, n)[p] == k);
    } else if !dialogs(msgs, n - 1).contains(k) {
        assert(dialogs(msgs, n).last() == k);
    }
}

proof fn lemma_one_dialog(msgs: Seq<SipMsg>, n: int, a: Seq<char>)
    requires
        0 <= n <= msgs.len(),
        forall|k: int|
            0 <= k < n ==> dialog_key(#[trigger] msgs[k]).len() == 0 || dialog_key(msgs[k]) == a,
    ensures
        dialogs(msgs, n).len() <= 1,
        dialogs(msgs, n).len() == 1 ==> dialogs(msgs, n)[0] == a,
    decreases n,
{
    if n > 0 {
        lemma_one_dialog(msgs, n - 1, a);
        let before = dialogs(msgs, n - 1);
        if before.len() == 1 {
            assert(before.contains(a)) by {
                assert(before[0] == a);
            }
        }
    }
}

/// The dialogs of some messages are counted: each key that a message bears, once, at
/// least one and at most as many as can be told.
pub proof fn each_dialog_counts_once(msgs: Seq<SipMsg>)
    ensures
        ({
            let d = dialogs(msgs, msgs.len() as int);
            &&& d.no_duplicates()
            &&& forall|i: int|
                0 <= i < msgs.len() && dialog_key(#[trigger] msgs[i]).len() > 0 ==> d.contains(
                    dialog_key(msgs[i]),
                )
            &&& d.len() == 0 ==> dialog_count(msgs) == 1
            &&& 1 <= d.len() <= 255 ==> dialog_count(msgs) == d.len()
            &&& d.len() > 255 ==> dialog_count(msgs) == 255
        }),
{
    lemma_dialogs_distinct(msgs, msgs.len() as int);
    assert forall|i: int| 0 <= i < msgs.len() && dialog_key(#[trigger] msgs[i]).len() > 0 implies dialogs(
        msgs,
        msgs.len() as int,
    ).contains(dialog_key(msgs[i])) by {
        lemma_has_dialog(msgs, i, msgs.len() as int);
    }
}

/// Whether a message is shown on a leg.
pub open spec fn shown_on(msgs: Seq<SipMsg>, legs: Seq<u8>, m: SipMsg, leg: u8) -> bool {
    exists|i: int| 0 <= i < msgs.len() && #[trigger] msgs[i] == m && legs[i] == leg
}

/// Two calls are shown as one flow: every message of both, in the order of their
/// times, those of the first call on leg 0 and those of the second on leg 1. Messages
/// of one time keep the order of the calls.
pub proof fn two_calls_are_one_flow_in_time(
    primary: Seq<SipMsg>,
    linked: Seq<SipMsg>,
    msgs: Seq<SipMsg>,
    legs: Seq<u8>,
)
    requires
        interleaves(primary, linked, msgs, legs),
    ensures
        msgs.len() == primary.len() + linked.len(),
        legs.len() == msgs.len(),
        forall|i: int, j: int|
            0 <= i < j < msgs.len() ==> (#[trigger] msgs[i]).ts_us <= (#[trigger] msgs[j]).ts_us,
        forall|i: int, j: int|
            0 <= i < j < msgs.len() && msgs[i].ts_us == msgs[j].ts_us ==> #[trigger] legs[i]
                <= #[trigger] legs[j],
        forall|i: int|
            0 <= i < msgs.len() ==> (#[trigger] legs[i] == 0 && primary.contains(msgs[i])) || (legs[i]
                == 1 && linked.contains(msgs[i])),
        forall|p: int| 0 <= p < primary.len() ==> shown_on(msgs, legs, #[trigger] primary[p], 0),
        forall|p: int| 0 <= p < linked.len() ==> shown_on(msgs, legs, #[trigger] linked[p], 1),
{
    let all = primary + linked;
    let ranks = time_ranks(all);
    let order = choose|order: Seq<usize>| #[trigger]
        sorts(order, time_ranks(all)) && msgs == order.map_values(|i: usize| all[i as int]) && legs
            == order.map_values(
            |i: usize|
                if i < primary.len() {
                    0u8
                } else {
                    1u8
                },
        );
    lemma_order_covers(order, ranks);
    assert forall|i: int, j: int| 0 <= i < j < msgs.len() implies (#[trigger] msgs[i]).ts_us <= (
    #[trigger] msgs[j]).ts_us && (msgs[i].ts_us == msgs[j].ts_us ==> legs[i] <= legs[j]) by {
        assert(comes_first(ranks, order[i] as int, order[j] as int));
        assert(msgs[i] == all[order[i] as int] && msgs[j] == all[order[j] as int]);
        assert(ranks[order[i] as int].1 == all[order[i] as int].ts_us);
        assert(ranks[order[j] as int].1 == all[order[j] as int].ts_us);
    }
    assert forall|i: int, j: int| 0 <= i < j < msgs.len() && msgs[i].ts_us == msgs[j].ts_us implies #[trigger] legs[i]
        <= #[trigger] legs[j] by {
        assert(msgs[i].ts_us <= msgs[j].ts_us);
    }
    assert forall|i: int| 0 <= i < msgs.len() implies (#[trigger] legs[i] == 0 && primary.contains(
        msgs[i],
    )) || (legs[i] == 1 && linked.contains(msgs[i])) by {
        let p = order[i] as int;
        if p < primary.len() {
            assert(primary[p] == msgs[i]);
        } else {
            assert(linked[p - primary.len()] == msgs[i]);
        }
    }
    assert forall|p: int| 0 <= p < primary.len() implies shown_on(
        msgs,
        legs,
        #[trigger] primary[p],
        0,
    ) by {
        assert(listed(order, p));
        let i = choose|i: int| 0 <= i < order.len() && #[trigger] order[i] == p;
        assert(msgs[i] == all[p] && legs[i] == 0);
    }
    assert forall|p: int| 0 <= p < linked.len() implies shown_on(
        msgs,
        legs,
        #[trigger] linked[p],
        1,
    ) by {
        let q = p + primary.len();
        assert(listed(order, q));
        let i = choose|i: int| 0 <= i < order.len() && #[trigger] order[i] == q;
        assert(msgs[i] == all[q] && legs[i] == 1);
    }
}

/// An address is shared where a message of the first leg and one of the second go
/// from it or to it. The common address is the only one that is shared.
pub proof fn the_common_address_is_the_only_shared_one(
    msgs: Seq<SipMsg>,
    legs: Seq<u8>,
    ip: IpAddr,
    i: int,
    j: int,
)
    requires
        msgs.len() == legs.len(),
        0 <= i < msgs.len(),
        0 <= j < msgs.len(),
        legs[i] == 0,
        legs[j] == 1,
        msgs[i].flow.src.ip == ip || msgs[i].flow.dst.ip == ip,
        msgs[j].flow.src.ip == ip || msgs[j].flow.dst.ip == ip,
    ensures
        shared_ip(msgs, legs, ip),
        forall|r: Option<IpAddr>| #[trigger]
            is_common_ip(msgs, legs, r) && r is Some ==> r == Some(ip),
{
    assert(touches(msgs[i], ip) && touches(msgs[j], ip));
    assert(leg_touches(msgs, legs, 0, ip) && leg_touches(msgs, legs, 1, ip));
    assert forall|r: Option<IpAddr>| #[trigger]
        is_common_ip(msgs, legs, r) && r is Some implies r == Some(ip) by {
        assert(shared_ip(msgs, legs, ip));
    }
}

} // verus!
