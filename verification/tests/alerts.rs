use std::collections::VecDeque;

use driftwatch::correlate::{
    build_alerts, median_option, push_capped, AlertEngine, DiskResult, FreezeState, SlotTracker,
    Thresholds, HISTORY,
};
use driftwatch::disk::WindowStats;
use driftwatch::net::{NetSample, RingDelta, SnmpUdpDelta, SoftnetDelta};
use driftwatch::output::{commas, compact, state, status_line, up_line};
use driftwatch::rpc::{find_account, sample_from, Sample, ValidatorSample, VoteAccount};
use driftwatch::sockets::{SocketEntry, SocketSample};
use driftwatch::table::StatTable;

fn account(pubkey: &str, last_vote: u64, delinquent: bool) -> VoteAccount {
    VoteAccount { pubkey: pubkey.to_string(), last_vote, credits: 7, delinquent }
}

#[test]
fn the_account_asked_for_is_followed() {
    let two = vec![account("a", 90, false), account("b", 50, true)];
    assert_eq!(find_account(&two, &Some("b".to_string())), Some(1));
    assert_eq!(find_account(&two, &Some("c".to_string())), None);
    assert_eq!(find_account(&two, &None), None);
    assert_eq!(find_account(&vec![account("a", 90, false)], &None), Some(0));
    match sample_from(3, 100, &two, &Some("b".to_string()), true) {
        Sample::Up(s) => assert_eq!(
            s,
            ValidatorSample {
                epoch: 3,
                network_slot: 100,
                my_last_vote: 50,
                vote_lag: 50,
                credits: 7,
                delinquent: true,
                healthy: true,
            }
        ),
        Sample::Down { .. } => panic!("down"),
    }
    match sample_from(3, 100, &two, &None, true) {
        Sample::Up(_) => panic!("up"),
        Sample::Down { reason } => assert_eq!(reason, "getVoteAccounts: vote account not found"),
    }
    let far = vec![account("a", 0, false)];
    match sample_from(0, u64::MAX, &far, &None, true) {
        Sample::Up(s) => assert_eq!(s.vote_lag, i64::MAX),
        Sample::Down { .. } => panic!("down"),
    }
}

fn thresholds() -> Thresholds {
    Thresholds {
        disk_latency_ns: 1_500_000_000,
        disk_streak: 1,
        vote_lag: 4,
        freeze_lookback: 3,
        freeze_jump_bound: 1000,
        ring_drop_threshold: 0,
        napi_squeeze_threshold: 100,
        udp_rcvbuf_threshold: 0,
        socket_drop_threshold: 0,
    }
}

fn window(p99_ns: u64) -> WindowStats {
    WindowStats {
        window_secs: 3,
        reqs: 10,
        writes: 10,
        reads: 0,
        others: 0,
        bytes: 40960,
        errors: 0,
        dev: None,
        p50_ns: p99_ns,
        p99_ns,
        max_ns: p99_ns,
    }
}

fn idle() -> WindowStats {
    let mut w = window(0);
    w.reqs = 0;
    w
}

fn validator(vote_lag: i64, slot: u64) -> ValidatorSample {
    ValidatorSample {
        epoch: 0,
        network_slot: slot,
        my_last_vote: 1083,
        vote_lag,
        credits: 4201,
        delinquent: false,
        healthy: true,
    }
}

fn up(vote_lag: i64, slot: u64) -> Sample {
    Sample::Up(validator(vote_lag, slot))
}

fn down() -> Sample {
    Sample::Down { reason: "getEpochInfo: request failed".to_string() }
}

#[test]
fn status_lines() {
    assert_eq!(
        status_line(&up(1, 1084)),
        "epoch 0 | slot 1,084 | last vote 1,083 | lag 1 | credits 4,201 | OK"
    );
    assert_eq!(up_line(&validator(1, 1084)), status_line(&up(1, 1084)));
    assert_eq!(status_line(&down()), "DOWN | getEpochInfo: request failed");
    assert_eq!(compact(&down()), "validator DOWN");
    assert_eq!(compact(&up(-1, 4321)), "slot 4,321 | lag -1 | credits 4,201 | OK");
    assert_eq!(commas(1234567), "1,234,567");
}

#[test]
fn states() {
    let mut s = validator(150, 1);
    assert_eq!(state(&s), "OK");
    s.vote_lag = 151;
    assert_eq!(state(&s), "LAGGING");
    s.delinquent = true;
    assert_eq!(state(&s), "DELINQUENT");
    s.healthy = false;
    assert_eq!(state(&s), "UNHEALTHY");
}

#[test]
fn queues_keep_the_last_values() {
    let mut q: VecDeque<u64> = VecDeque::new();
    for n in 0..5 {
        push_capped(&mut q, n, 3);
    }
    assert_eq!(q, VecDeque::from(vec![2, 3, 4]));
    push_capped(&mut q, 9, 0);
    assert_eq!(q, VecDeque::from(vec![9]));
    push_capped(&mut q, 10, 2);
    assert_eq!(q, VecDeque::from(vec![9, 10]));
}

#[test]
fn medians_are_in_microseconds() {
    assert_eq!(median_option(&VecDeque::new()), None);
    assert_eq!(median_option(&VecDeque::from(vec![5_000])), Some(5));
    assert_eq!(median_option(&VecDeque::from(vec![9_000, 1_000, 5_999])), Some(5));
    assert_eq!(median_option(&VecDeque::from(vec![4_000, 1_000, 3_000, 2_000])), Some(3));
}

#[test]
fn the_threshold_itself_is_not_elevated() {
    let mut e = AlertEngine::new(thresholds());
    assert!(!e.observe_disk(&window(1_500_000_000)).alert);
    assert!(e.observe_disk(&window(1_500_000_001)).alert);
}

#[test]
fn an_alert_wants_a_streak() {
    let mut t = thresholds();
    t.disk_streak = 3;
    let mut e = AlertEngine::new(t);
    let slow = window(2_000_000_000);
    assert!(!e.observe_disk(&slow).alert);
    assert!(!e.observe_disk(&slow).alert);
    assert!(!e.observe_disk(&idle()).alert);
    assert!(e.observe_disk(&slow).alert);
    assert!(e.observe_disk(&slow).alert);
    assert!(!e.observe_disk(&window(1)).alert);
    assert!(!e.observe_disk(&slow).alert);
    t.disk_streak = 0;
    assert!(AlertEngine::new(t).observe_disk(&slow).alert);
}

#[test]
fn the_median_leaves_the_window_and_elevated_ones_out() {
    let mut e = AlertEngine::new(thresholds());
    assert_eq!(e.observe_disk(&window(3_000)).median_us, None);
    assert_eq!(e.observe_disk(&window(2_000_000_000)).median_us, Some(3));
    assert_eq!(e.observe_disk(&idle()).median_us, Some(3));
    assert_eq!(e.observe_disk(&window(9_000)).median_us, Some(3));
    assert_eq!(e.observe_disk(&window(1_000)).median_us, Some(9));
}

#[test]
fn the_median_looks_back_twenty_windows() {
    let mut e = AlertEngine::new(thresholds());
    for _ in 0..20 {
        e.observe_disk(&window(1_000));
    }
    for _ in 0..19 {
        e.observe_disk(&window(7_000));
    }
    e.observe_disk(&window(7_000));
    assert_eq!(HISTORY, 20);
    assert_eq!(e.observe_disk(&idle()).median_us, Some(7));
    assert!(e.can_observe_disk(&window(u64::MAX)));
    assert_eq!(e.thresholds(), thresholds());
}

#[test]
fn lag_is_an_absolute_threshold() {
    let e = AlertEngine::new(thresholds());
    assert!(!e.observe_lag(None));
    assert!(!e.observe_lag(Some(&up(3, 1))));
    assert!(e.observe_lag(Some(&up(4, 1))));
    assert!(e.observe_lag(Some(&down())));
    let mut t = thresholds();
    t.vote_lag = i64::MAX;
    assert!(AlertEngine::new(t).observe_lag(Some(&down())));
}

fn calm() -> FreezeState {
    FreezeState { freeze: false, freeze_duration_ms: 0, freeze_in_last_n: 0 }
}

const MS: u64 = 1_000_000;

#[test]
fn a_slot_that_stands_still_is_a_freeze() {
    let mut t = SlotTracker::new();
    assert_eq!(t.observe(Some(10), 1000, 3, 0), (calm(), None));
    assert_eq!(t.observe(Some(12), 1000, 3, 0), (calm(), None));
    assert_eq!(
        t.observe(Some(12), 1000, 3, 5 * MS),
        (
            FreezeState { freeze: true, freeze_duration_ms: 0, freeze_in_last_n: 1 },
            Some("!! FREEZE: slot stopped advancing".to_string())
        )
    );
    assert_eq!(
        t.observe(Some(12), 1000, 3, 8 * MS),
        (FreezeState { freeze: true, freeze_duration_ms: 3, freeze_in_last_n: 2 }, None)
    );
    assert_eq!(
        t.observe(None, 1000, 3, 9 * MS),
        (FreezeState { freeze: true, freeze_duration_ms: 4, freeze_in_last_n: 2 }, None)
    );
    assert_eq!(
        t.observe(Some(13), 1000, 3, 10 * MS),
        (FreezeState { freeze: false, freeze_duration_ms: 0, freeze_in_last_n: 2 }, None)
    );
    assert_eq!(t.current_freeze_ms(99 * MS), 0);
    assert_eq!(t.count_recent_freezes(), 2);
    for slot in 14..17 {
        t.observe(Some(slot), 1000, 3, 11 * MS);
    }
    assert_eq!(t.count_recent_freezes(), 0);
    let (state, message) = t.observe(Some(16), 1000, 3, 12 * MS);
    assert!(state.freeze && message.is_some());
}

#[test]
fn an_outage_returns_the_last_known_state() {
    let mut t = SlotTracker::new();
    assert_eq!(t.observe(None, 1000, 3, 0), (calm(), None));
    t.observe(Some(100), 1000, 3, 0);
    assert_eq!(t.observe(None, 1000, 3, 0), (calm(), None));
    assert!(t.observe(Some(100), 1000, 3, MS).0.freeze);
    let (out, message) = t.observe(None, 1000, 3, 3 * MS);
    assert_eq!(out, FreezeState { freeze: true, freeze_duration_ms: 2, freeze_in_last_n: 1 });
    assert_eq!(message, None);
    assert!(!t.observe(Some(101), 1000, 3, 4 * MS).0.freeze);
    let (out, _) = t.observe(None, 1000, 3, 5 * MS);
    assert_eq!(out, FreezeState { freeze: false, freeze_duration_ms: 0, freeze_in_last_n: 1 });
    t.observe(Some(101), 1000, 3, 6 * MS);
    t.observe(Some(5), 1000, 3, 7 * MS);
    assert_eq!(t.observe(None, 1000, 3, 8 * MS), (calm(), None));
}

#[test]
fn the_history_never_decides_and_stays_below_the_threshold() {
    let mut a = AlertEngine::new(thresholds());
    let mut b = AlertEngine::new(thresholds());
    for n in 0..30 {
        a.observe_disk(&window(1_000 * n));
    }
    for ns in [2_000_000_000, 5_000, 1_500_000_000, 1_500_000_001, 7_000, 3_000_000_000] {
        let (x, y) = (a.observe_disk(&window(ns)), b.observe_disk(&window(ns)));
        assert_eq!(x.alert, y.alert);
        assert!(x.median_us.unwrap() <= 1_500_000);
        assert!(y.median_us.unwrap_or(0) <= 1_500_000);
    }
}

#[test]
fn a_discontinuity_sets_back() {
    let mut t = SlotTracker::new();
    t.observe(Some(100), 1000, 3, 0);
    t.observe(Some(100), 1000, 3, 0);
    assert_eq!(
        t.observe(Some(50), 1000, 3, 0),
        (calm(), Some("!! DISCONTINUITY: slot jumped by -50 (restart or resync)".to_string()))
    );
    assert_eq!(t.count_recent_freezes(), 0);
    assert_eq!(
        t.observe(Some(1051), 1000, 3, 0),
        (calm(), Some("!! DISCONTINUITY: slot jumped by 1001 (restart or resync)".to_string()))
    );
    assert_eq!(t.observe(Some(2051), 1000, 3, 0), (calm(), None));
    assert!(!t.observe(Some(2051), -1, 3, 0).0.freeze);
}

#[test]
fn steps_beyond_64_bits_are_told() {
    let mut t = SlotTracker::new();
    assert!(t.can_observe(Some(u64::MAX)));
    t.observe(Some(1 << 63), 1000, 3, 0);
    assert!(!t.can_observe(Some(1)));
    assert!(t.can_observe(Some(u64::MAX)));
    assert!(t.can_observe(None));
    assert_eq!(
        t.observe(Some(u64::MAX), i64::MAX, 0, 0),
        (FreezeState { freeze: false, freeze_duration_ms: 0, freeze_in_last_n: 0 }, None)
    );
}

fn net(missed: u64, squeeze: u64, rcvbuf: u64) -> Option<NetSample> {
    Some(NetSample {
        iface: "eth0".to_string(),
        is_xdp: None,
        counters_reset: false,
        ring: RingDelta { rx_missed_errors: missed, rx_dropped: 0, rx_errors: 0, rx_fifo_errors: 0 },
        softnet: SoftnetDelta {
            processed: 0,
            dropped: 0,
            time_squeeze: squeeze,
            time_squeeze_max_cpu: 0,
            max_cpu_id: 0,
        },
        snmp_udp: SnmpUdpDelta {
            in_datagrams: 0,
            in_errors: 0,
            rcvbuf_errors: rcvbuf,
            sndbuf_errors: 0,
            no_ports: 0,
        },
        ethtool: StatTable::new(),
    })
}

fn sockets(drops: &[u64]) -> SocketSample {
    SocketSample {
        pid: Some(1),
        sockets: drops
            .iter()
            .enumerate()
            .map(|(i, d)| SocketEntry {
                port: 8000 + i as u16,
                role: "tvu".to_string(),
                count: 1,
                drops: *d,
                rx_queue: 0,
                tx_queue: 0,
            })
            .collect(),
    }
}

fn alerts(disk: bool, lag: bool, freeze: bool, n: &Option<NetSample>, s: Option<&SocketSample>) -> Vec<&'static str> {
    let d = DiskResult { alert: disk, median_us: None };
    let f = FreezeState { freeze, freeze_duration_ms: 0, freeze_in_last_n: 0 };
    build_alerts(&d, lag, &f, n, s, &thresholds())
}

#[test]
fn alerts_are_independent() {
    assert!(alerts(false, false, false, &None, None).is_empty());
    assert_eq!(alerts(true, false, false, &None, None), vec!["disk_latency"]);
    assert_eq!(alerts(false, true, false, &None, None), vec!["vote_lag"]);
    assert_eq!(alerts(false, false, true, &None, None), vec!["slot_freeze"]);
    assert_eq!(alerts(false, false, false, &net(1, 100, 0), None), vec!["ring_drop"]);
    assert_eq!(alerts(false, false, false, &net(0, 101, 0), None), vec!["napi_squeeze"]);
    assert_eq!(alerts(false, false, false, &net(0, 0, 1), None), vec!["udp_rcvbuf"]);
    assert_eq!(
        alerts(false, false, false, &net(0, 0, 0), Some(&sockets(&[0, 1]))),
        vec!["socket_drop"]
    );
    assert!(alerts(false, false, false, &None, Some(&sockets(&[0, 0]))).is_empty());
    assert_eq!(
        alerts(true, true, true, &net(1, 101, 1), Some(&sockets(&[1]))),
        vec![
            "disk_latency",
            "vote_lag",
            "slot_freeze",
            "ring_drop",
            "napi_squeeze",
            "udp_rcvbuf",
            "socket_drop"
        ]
    );
}

#[test]
fn a_moved_disk_below_its_threshold_is_no_alert() {
    let mut e = AlertEngine::new(thresholds());
    assert!(!e.observe_disk(&window(234_000_000)).alert);
    let sample = up(2, 1);
    assert!(!e.observe_lag(Some(&sample)));
    assert!(e.can_observe_slot(Some(&sample)));
    let (freeze, message) = e.observe_slot(Some(&sample), 0);
    assert_eq!((freeze, message), (calm(), None));
}
