use sipmon::addr::IpAddr;
use sipmon::model::ratio::Ratio;
use sipmon::store::ipstats::{worst_ips, Dir, IpStatsStore};
use sipmon::store::ring::{bucket_mut, Bucket};
use std::collections::VecDeque;

fn ip(s: &str) -> IpAddr {
    let mut n: u32 = 0;
    for part in s.split('.') {
        n = n * 256 + part.parse::<u32>().unwrap();
    }
    IpAddr::V4(n)
}

fn pct(r: Ratio) -> f64 {
    r.part as f64 / r.whole as f64 * 100.0
}

#[test]
fn windows_and_totals() {
    let mut st = IpStatsStore::new();
    let ip: IpAddr = ip("10.1.2.3");
    // 10 pkts/s for 30s at ts=1_000_000 + i*1s
    for i in 0..30 {
        let ts = 1_000_000 + i * 1_000_000;
        for _ in 0..10 {
            st.observe_packet(ip, ts, 160, Dir::Tx);
        }
        if i % 10 == 0 {
            st.observe_lost(ip, ts, 1, Dir::Tx); // 1 lost / 100 pkts = 1%
        }
    }
    let s = st.snapshot().pop().unwrap();
    assert_eq!(s.pkts_total(Dir::Tx), 300);
    assert_eq!(s.pkts_tx, 300);
    assert_eq!(s.pkts_rx, 0);
    assert_eq!(s.bytes_total(Dir::Tx), 300 * 160);
    assert_eq!(s.lost_total(Dir::Tx), 3);
    assert!((pct(s.loss_pct(0, Dir::Tx).unwrap()) - 1.0).abs() < 1e-9); // all-time
    assert!((pct(s.loss_pct(10, Dir::Tx).unwrap()) - 1.0).abs() < 1e-9); // 10s window includes one lost
    assert_eq!(pct(s.loss_pct(1, Dir::Tx).unwrap()), 0.0); // last 1s: no loss
    assert_eq!(s.pkts_in(10, Dir::Tx), 100);
    assert_eq!(s.bytes_in(5, Dir::Tx), 5 * 10 * 160);
    // RX untouched → no loss rate.
    assert_eq!(s.loss_pct(0, Dir::Rx), None);
    assert!((pct(s.loss_pct_total(0).unwrap()) - 1.0).abs() < 1e-9);
}

#[test]
fn directions_stay_separate() {
    let mut st = IpStatsStore::new();
    let ip: IpAddr = ip("10.1.2.3");
    let ts = 1_000_000;
    for _ in 0..10 {
        st.observe_packet(ip, ts, 100, Dir::Tx);
    }
    for _ in 0..20 {
        st.observe_packet(ip, ts, 200, Dir::Rx);
    }
    st.observe_lost(ip, ts, 2, Dir::Tx);
    st.observe_lost(ip, ts, 4, Dir::Rx);
    let s = st.snapshot().pop().unwrap();
    assert_eq!(s.pkts_tx, 10);
    assert_eq!(s.pkts_rx, 20);
    assert_eq!(s.bytes_tx, 10 * 100);
    assert_eq!(s.bytes_rx, 20 * 200);
    assert!((pct(s.loss_pct(0, Dir::Tx).unwrap()) - 20.0).abs() < 1e-9);
    assert!((pct(s.loss_pct(0, Dir::Rx).unwrap()) - 20.0).abs() < 1e-9);
    // Merged view is the sum.
    assert!((pct(s.loss_pct_total(0).unwrap()) - 20.0).abs() < 1e-9);
    assert_eq!(s.bytes_total_all(), 10 * 100 + 20 * 200);
}

#[test]
fn active_call_counting() {
    let mut st = IpStatsStore::new();
    let ip: IpAddr = ip("10.1.2.3");
    st.add_active(ip, 1);
    st.add_active(ip, 1);
    st.add_active(ip, -1);
    let s = st.snapshot().pop().unwrap();
    assert_eq!(s.active_calls, 1);
}

#[test]
fn heatmap_columns_produce_loss_pct() {
    let mut st = IpStatsStore::new();
    let ip: IpAddr = ip("10.1.2.3");
    let ts = 1_000_000;
    for _ in 0..8 {
        st.observe_packet(ip, ts, 160, Dir::Tx);
    }
    st.observe_lost(ip, ts, 2, Dir::Tx);
    let s = st.snapshot().pop().unwrap();
    let cols = s.heatmap_columns(60, 60);
    assert_eq!(cols.len(), 1);
    assert!((pct(cols[0].1) - 25.0).abs() < 1e-9);
}

#[test]
fn observe_packets_matches_per_packet_totals() {
    let mut st = IpStatsStore::new();
    let ip: IpAddr = ip("10.1.2.3");
    st.observe_packets(ip, 1_000_000, 50, 50 * 160, Dir::Tx);
    st.observe_lost(ip, 1_000_000, 2, Dir::Tx);
    let s = st.snapshot().pop().unwrap();
    assert_eq!(s.pkts_tx, 50);
    assert_eq!(s.bytes_tx, 50 * 160);
    assert_eq!(s.lost_tx, 2);
    assert!((pct(s.loss_pct(0, Dir::Tx).unwrap()) - 4.0).abs() < 1e-9);
}

#[test]
fn prune_idle_drops_stale_ips() {
    let mut st = IpStatsStore::new();
    let old: IpAddr = ip("10.1.2.3");
    let live: IpAddr = ip("10.1.2.4");
    let held: IpAddr = ip("10.1.2.5");
    st.observe_packet(old, 1_000_000, 100, Dir::Tx);
    st.observe_packet(live, 3_600_000_000, 100, Dir::Tx);
    st.add_active(held, 1);
    st.prune_idle(3_000_000_000);
    let ips: Vec<_> = st.snapshot().into_iter().map(|s| s.ip).collect();
    assert!(!ips.contains(&old));
    assert!(ips.contains(&live));
    assert!(ips.contains(&held));
}

#[test]
fn addresses_are_listed_in_order() {
    let mut st = IpStatsStore::new();
    let six = IpAddr::V6(1);
    st.observe_packet(six, 1, 1, Dir::Rx);
    st.observe_packet(ip("10.0.0.2"), 1, 1, Dir::Rx);
    st.observe_packet(ip("9.255.255.255"), 1, 1, Dir::Rx);
    let ips: Vec<_> = st.snapshot().into_iter().map(|s| s.ip).collect();
    assert_eq!(ips, vec![ip("9.255.255.255"), ip("10.0.0.2"), six]);
    st.clear();
    assert!(st.snapshot().is_empty());
}

#[test]
fn active_calls_do_not_go_below_zero() {
    let mut st = IpStatsStore::new();
    st.add_active(ip("10.1.2.3"), -3);
    assert_eq!(st.snapshot()[0].active_calls, 0);
}

#[test]
fn a_lot_counts_like_single_packets() {
    let mut one = IpStatsStore::new();
    let mut lot = IpStatsStore::new();
    let a = ip("10.1.2.3");
    for _ in 0..7 {
        one.observe_packet(a, 4_000_000, 20, Dir::Rx);
    }
    lot.observe_packets(a, 4_000_000, 7, 140, Dir::Rx);
    let (x, y) = (&one.snapshot()[0], &lot.snapshot()[0]);
    assert_eq!(x.pkts_rx, y.pkts_rx);
    assert_eq!(x.bytes_rx, y.bytes_rx);
    assert_eq!(x.pkts_in(1, Dir::Rx), y.pkts_in(1, Dir::Rx));
    assert_eq!(x.bytes_in(300, Dir::Rx), y.bytes_in(300, Dir::Rx));
    assert_eq!(x.first_seen_us, Some(4_000_000));
}

#[test]
fn old_seconds_leave_the_short_windows() {
    let mut st = IpStatsStore::new();
    let a = ip("10.1.2.3");
    st.observe_packet(a, 1_000_000, 10, Dir::Tx);
    st.observe_packet(a, 1_201_000_000, 10, Dir::Tx);
    let s = st.snapshot().pop().unwrap();
    assert_eq!(s.pkts_in(60, Dir::Tx), 1);
    assert_eq!(s.pkts_in(3600, Dir::Tx), 2);
    assert_eq!(s.pkts_in(0, Dir::Tx), 2);
    assert_eq!(s.last_seen_us, Some(1_201_000_000));
}

#[test]
fn a_late_packet_goes_to_its_own_second() {
    let mut st = IpStatsStore::new();
    let a = ip("10.1.2.3");
    st.observe_packet(a, 10_000_000, 10, Dir::Tx);
    st.observe_packet(a, 12_000_000, 10, Dir::Tx);
    st.observe_packet(a, 10_500_000, 10, Dir::Tx);
    let s = st.snapshot().pop().unwrap();
    assert_eq!(s.pkts_in(1, Dir::Tx), 1);
    assert_eq!(s.pkts_in(3, Dir::Tx), 3);
}

#[test]
fn a_chart_has_no_more_columns_than_asked_for() {
    let mut st = IpStatsStore::new();
    let a = ip("10.1.2.3");
    for i in 0..60u64 {
        st.observe_packet(a, i * 1_000_000, 10, Dir::Tx);
    }
    let s = st.snapshot().pop().unwrap();
    let chart = s.heatmap_columns(60, 7);
    assert!(chart.len() <= 7);
    assert_eq!(chart.iter().map(|c| c.1.whole).sum::<u128>(), 60);
}

#[test]
fn no_more_is_lost_than_everything() {
    let mut st = IpStatsStore::new();
    let a = ip("10.1.2.3");
    st.observe_packet(a, 1_000_000, 10, Dir::Tx);
    st.observe_lost(a, 1_000_000, 7, Dir::Tx);
    let s = st.snapshot().pop().unwrap();
    assert_eq!(pct(s.loss_pct(0, Dir::Tx).unwrap()), 100.0);
    assert_eq!(pct(s.loss_pct_total(60).unwrap()), 100.0);
    assert_eq!(pct(s.heatmap_columns(60, 4)[0].1), 100.0);
    assert_eq!(s.lost_total(Dir::Tx), 7);
}

#[test]
fn a_late_packet_does_not_make_an_address_stale() {
    let mut st = IpStatsStore::new();
    let a = ip("10.1.2.3");
    st.observe_packet(a, 5_000_000, 10, Dir::Tx);
    st.observe_packet(a, 1_000_000, 10, Dir::Tx);
    assert_eq!(st.snapshot()[0].last_seen_us, Some(5_000_000));
    st.prune_idle(3_000_000);
    assert_eq!(st.snapshot().len(), 1);
    st.prune_idle(6_000_000);
    assert!(st.snapshot().is_empty());
}

#[test]
fn a_chart_goes_forward_in_time() {
    let mut st = IpStatsStore::new();
    let a = ip("10.1.2.3");
    for i in [3u64, 40, 7, 21, 59, 12] {
        st.observe_packet(a, i * 1_000_000, 10, Dir::Tx);
    }
    let s = st.snapshot().pop().unwrap();
    let chart = s.heatmap_columns(60, 10);
    assert!(chart.windows(2).all(|w| w[0].0 < w[1].0));
}

#[test]
fn addresses_are_ranked_by_loss() {
    let mut st = IpStatsStore::new();
    for (name, packets, lost) in [
        ("10.0.0.1", 100, 1),
        ("10.0.0.2", 10, 5),
        ("10.0.0.3", 0, 3),
        ("10.0.0.4", 10, 0),
        ("10.0.0.5", 20, 10),
    ] {
        st.observe_packets(ip(name), 1_000_000, packets, 0, Dir::Rx);
        st.observe_lost(ip(name), 1_000_000, lost, Dir::Rx);
    }
    let all = st.snapshot();
    assert_eq!(worst_ips(&all, 9), vec![1, 4, 0, 3, 2]);
    assert_eq!(worst_ips(&all, 2), vec![1, 4]);
    assert!(worst_ips(&all, 0).is_empty());
}

#[test]
fn a_ring_is_brought_forward_to_a_time() {
    let mut ring = VecDeque::new();
    bucket_mut(&mut ring, 5_500_000, 1_000_000, 3).pkts_tx = 1;
    bucket_mut(&mut ring, 7_000_000, 1_000_000, 3).pkts_tx = 2;
    let keys = |r: &VecDeque<(u64, Bucket)>| r.iter().map(|s| s.0).collect::<Vec<u64>>();
    assert_eq!(keys(&ring), vec![5, 6, 7]);
    assert_eq!(ring[1].1, Bucket::empty());
    // A slice that is there is found again, and one that is gone is the oldest.
    assert_eq!(bucket_mut(&mut ring, 5_999_999, 1_000_000, 3).pkts_tx, 1);
    assert_eq!(bucket_mut(&mut ring, 0, 1_000_000, 3).pkts_tx, 1);
    // Too many slices: the oldest go, the others keep their buckets.
    assert_eq!(*bucket_mut(&mut ring, 9_000_000, 1_000_000, 3), Bucket::empty());
    assert_eq!(keys(&ring), vec![7, 8, 9]);
    assert_eq!(ring[0].1.pkts_tx, 2);
    bucket_mut(&mut ring, 20_000_000, 1_000_000, 3);
    assert_eq!(keys(&ring), vec![18, 19, 20]);
    assert!(ring.iter().all(|s| s.1 == Bucket::empty()));
}

#[test]
fn both_directions_together_can_be_more_than_a_counter_holds() {
    let mut st = IpStatsStore::new();
    let a = ip("10.1.2.3");
    for dir in [Dir::Tx, Dir::Rx] {
        st.observe_packets(a, 1_000_000, u64::MAX, 0, dir);
        st.observe_lost(a, 1_000_000, u64::MAX - 7, dir);
    }
    let s = st.snapshot().pop().unwrap();
    let r = s.loss_pct_total(10).unwrap();
    assert_eq!(r.whole, 2 * u128::from(u64::MAX));
    assert_eq!(r.part, 2 * u128::from(u64::MAX - 7));
    assert_eq!(s.heatmap_columns(10, 2)[0].1, r);
}
