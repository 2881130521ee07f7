use driftwatch::cli::{
    disk_latency_ns, log_active_layers, parse_dev, run_check, target_dev, verdict, CheckFacts,
    DevError, PathCheck,
};
use driftwatch::correlate::{DiskResult, FreezeState, Thresholds};
use driftwatch::disk::{dev_name, WindowStats};
use driftwatch::net::{NetSample, RingDelta, SnmpUdpDelta, SoftnetDelta};
use driftwatch::report::{
    elapsed, emit, net_json, report_json, to_json, up_json, validator_json, window_line, Clock,
};
use driftwatch::rpc::{Sample, ValidatorSample};
use driftwatch::sockets::{SocketEntry, SocketSample};
use driftwatch::table::StatTable;
use driftwatch::text::IntError;
use driftwatch::timeline::{
    checked_cpu_ms, total_cpu_ms, Action, CpuTimes, Event, SelfCpu, Timeline,
};

fn window(reqs: usize) -> WindowStats {
    WindowStats {
        window_secs: 3,
        reqs,
        writes: 250,
        reads: 261,
        others: 0,
        bytes: 29028352,
        errors: 0,
        dev: None,
        p50_ns: 320_999,
        p99_ns: 17_574_000,
        max_ns: 17_896_500,
    }
}

fn validator() -> ValidatorSample {
    ValidatorSample {
        epoch: 1009,
        network_slot: 430579083,
        my_last_vote: 430579081,
        vote_lag: 2,
        credits: 3378181,
        delinquent: false,
        healthy: true,
    }
}

fn net() -> NetSample {
    let mut ethtool = StatTable::new();
    ethtool.insert("rx_b".to_string(), 2);
    ethtool.insert("rx_a".to_string(), 1);
    NetSample {
        iface: "ens3f0np0".to_string(),
        is_xdp: Some(false),
        counters_reset: false,
        ring: RingDelta { rx_missed_errors: 1, rx_dropped: 2, rx_errors: 3, rx_fifo_errors: 4 },
        softnet: SoftnetDelta {
            processed: 42187,
            dropped: 5,
            time_squeeze: 6,
            time_squeeze_max_cpu: 7,
            max_cpu_id: 8,
        },
        snmp_udp: SnmpUdpDelta {
            in_datagrams: 42143,
            in_errors: 9,
            rcvbuf_errors: 10,
            sndbuf_errors: 11,
            no_ports: 12,
        },
        ethtool,
    }
}

fn sockets() -> SocketSample {
    SocketSample {
        pid: Some(77),
        sockets: vec![SocketEntry {
            port: 8002,
            role: "tvu".to_string(),
            count: 4,
            drops: 13,
            rx_queue: 14,
            tx_queue: 15,
        }],
    }
}

const DISK: DiskResult = DiskResult { alert: false, median_us: Some(111) };
const FREEZE: FreezeState = FreezeState { freeze: false, freeze_duration_ms: 0, freeze_in_last_n: 0 };

#[test]
fn the_object_of_a_window() {
    let v = Sample::Up(validator());
    let s = sockets();
    let text = to_json(
        &window(511),
        Some(&v),
        &DISK,
        &FREEZE,
        &["disk_latency", "vote_lag"],
        &Some(net()),
        16,
        Some(17),
        Some(&s),
        1787067180,
    );
    assert_eq!(
        text,
        "{\"alerts\":[\"disk_latency\",\"vote_lag\"],\
\"baseline\":{\"disk_p99_median_us\":111},\
\"consensus\":\"towerbft\",\
\"disk\":{\"bytes\":29028352,\"errors\":0,\"max_us\":17896,\"others\":0,\"p50_us\":320,\"p99_us\":17574,\"reads\":261,\"reqs\":511,\"window_secs\":3,\"writes\":250},\
\"freeze\":false,\"freeze_duration_ms\":0,\"freeze_in_last_n\":0,\
\"net\":{\"agave_pid\":77,\"counters_reset\":false,\"ethtool\":{\"rx_a\":1,\"rx_b\":2},\"iface\":\"ens3f0np0\",\"is_xdp\":false,\"parse_errors\":16,\
\"ring\":{\"rx_dropped\":2,\"rx_errors\":3,\"rx_fifo_errors\":4,\"rx_missed_errors\":1},\
\"snmp_udp\":{\"in_datagrams\":42143,\"in_errors\":9,\"no_ports\":12,\"rcvbuf_errors\":10,\"sndbuf_errors\":11},\
\"sockets\":[{\"drops\":13,\"port\":8002,\"role\":\"tvu\",\"rx_queue\":14,\"tx_queue\":15}],\
\"softnet\":{\"dropped\":5,\"max_cpu_id\":8,\"processed\":42187,\"time_squeeze\":6,\"time_squeeze_max_cpu\":7}},\
\"schema_version\":2,\"self_cpu_ms\":17,\"ts\":1787067180,\
\"validator\":{\"credits\":3378181,\"delinquent\":false,\"epoch\":1009,\"healthy\":true,\"last_vote\":430579081,\"slot\":430579083,\"state\":\"ok\",\"vote_lag\":2}}"
    );
}

#[test]
fn what_is_absent_is_null() {
    let r = report_json(&window(0), None, &DiskResult { alert: false, median_us: None }, &FREEZE, &[], &None, 0, None, None, 0);
    assert!(r["validator"].is_null());
    assert!(r["net"].is_null());
    assert!(r["self_cpu_ms"].is_null());
    assert!(r["baseline"]["disk_p99_median_us"].is_null());
    assert_eq!(r["alerts"].as_array().unwrap().len(), 0);
    let mut n = net();
    n.is_xdp = None;
    let r = net_json(&Some(n), None, 3);
    assert!(r["is_xdp"].is_null());
    assert!(r["agave_pid"].is_null());
    assert_eq!(r["sockets"].as_array().unwrap().len(), 0);
    assert_eq!(r["parse_errors"].as_u64(), Some(3));
}

#[test]
fn the_validator_as_json() {
    let mut s = validator();
    s.vote_lag = -3;
    let r = up_json(&s);
    assert_eq!(r["state"].as_str(), Some("ok"));
    assert_eq!(r["vote_lag"].as_i64(), Some(-3));
    s.vote_lag = 151;
    assert_eq!(up_json(&s)["state"].as_str(), Some("lagging"));
    s.delinquent = true;
    assert_eq!(up_json(&s)["state"].as_str(), Some("delinquent"));
    s.healthy = false;
    assert_eq!(up_json(&s)["state"].as_str(), Some("unhealthy"));
    let down = Sample::Down { reason: "line\n\"two\"".to_string() };
    let r = validator_json(Some(&down));
    assert_eq!(r["state"].as_str(), Some("down"));
    assert_eq!(r["reason"].as_str(), Some("line\n\"two\""));
    assert_eq!(r.as_object().unwrap().len(), 2);
}

#[test]
fn a_report_is_one_line_that_parses_back() {
    let down = Sample::Down { reason: "many\nlines\r\n\u{1}".to_string() };
    let clock = Clock { elapsed_secs: 27, epoch_secs: 5 };
    for json in [true, false] {
        let text = emit(&window(5), Some(&down), json, clock, &DISK, &FREEZE, &[], &Some(net()), 0, None, None);
        assert!(!text.contains('\n'));
    }
    let text = emit(&window(5), Some(&down), true, clock, &DISK, &FREEZE, &[], &Some(net()), 0, None, None);
    let back: serde_json::Value = serde_json::from_str(&text).unwrap();
    assert_eq!(
        back,
        report_json(&window(5), Some(&down), &DISK, &FREEZE, &[], &Some(net()), 0, None, None, 5)
    );
}

#[test]
fn the_line_of_a_window() {
    let v = Sample::Up(ValidatorSample {
        epoch: 1,
        network_slot: 423692612,
        my_last_vote: 0,
        vote_lag: 9,
        credits: 2661000,
        delinquent: false,
        healthy: true,
    });
    let mut w = window(512);
    w.p99_ns = 2_689_000_000;
    w.bytes = 10_066_330;
    assert_eq!(
        window_line(&w, Some(&v), &["disk_latency", "vote_lag"], 27),
        "+00:27 | disk p99 2,689ms | 512 reqs | 3.2 MB/s || slot 423,692,612 | lag 9 | credits 2,661,000 | OK | !! disk_latency,vote_lag"
    );
    assert_eq!(
        window_line(&window(0), None, &[], 161),
        "+02:41 | disk idle || validator: no sample yet"
    );
}

#[test]
fn elapsed_time() {
    assert_eq!(elapsed(0), "+00:00");
    assert_eq!(elapsed(161), "+02:41");
    assert_eq!(elapsed(3599), "+59:59");
    assert_eq!(elapsed(3600), "+1:00:00");
    assert_eq!(elapsed(360_000 + 62), "+100:01:02");
}

#[test]
fn devices() {
    assert_eq!(parse_dev("259:0"), Ok(259 << 20));
    assert_eq!(parse_dev(" 253 : 16 "), Ok((253 << 20) | 16));
    assert_eq!(parse_dev("4096:1"), Ok(1));
    assert_eq!(parse_dev("1:1048577"), Ok((1 << 20) | 1048577));
    assert_eq!(parse_dev("2590"), Err(DevError::NoColon));
    assert_eq!(parse_dev("2590").err().unwrap().message(), "--dev wants major:minor, e.g. 259:0");
    assert_eq!(parse_dev(":0"), Err(DevError::Number(IntError::Empty)));
    assert_eq!(parse_dev("1:2:3"), Err(DevError::Number(IntError::InvalidDigit)));
    assert_eq!(parse_dev("x:99999999999").err().unwrap().message(), "invalid digit found in string");
    assert_eq!(parse_dev("1:4294967296"), Err(DevError::Number(IntError::Overflow)));
    assert_eq!(target_dev(&None), Ok(0));
    assert_eq!(target_dev(&Some("1:2".to_string())), Ok((1 << 20) | 2));
    for dev in [0u32, 1, 1 << 20, (253 << 20) | 16, u32::MAX] {
        assert_eq!(parse_dev(&dev_name(dev)), Ok(dev));
    }
}

#[test]
fn the_disk_threshold_is_given_in_microseconds() {
    assert_eq!(disk_latency_ns(1_500_000), Some(1_500_000_000));
    assert_eq!(disk_latency_ns(u64::MAX / 1000 + 1), None);
}

#[test]
fn the_layers_are_listed() {
    let lines = log_active_layers("eth0", true, true, &sockets());
    assert_eq!(
        lines,
        vec![
            "driftwatch: layers active:",
            "  disk (eBPF block tracepoints): active",
            "  rpc (vote lag / slot freeze): active",
            "  net layer 1-3 (ring/softnet/snmp, iface eth0): active",
            "  net layer 4 (per-socket agave attribution, pid 77): active, 1 sockets found",
            "  self_metrics (own CPU time): active",
            "  dry_run: exiting after one window",
        ]
    );
    let none = SocketSample { pid: Some(3), sockets: vec![] };
    let lines = log_active_layers("eth0", false, false, &none);
    assert_eq!(lines.len(), 7);
    assert_eq!(
        lines[5],
        "  !! layer 4 found the agave process but zero sockets attributed to it, check --pid / port roles"
    );
    assert_eq!(lines[6], "  self_metrics (own CPU time): skipped, --self-metrics not passed");
    let none = SocketSample { pid: None, sockets: vec![] };
    assert_eq!(
        log_active_layers("eth0", false, false, &none)[4],
        "  net layer 4 (per-socket agave attribution): active but agave process not found yet, sockets will be empty"
    );
}

fn facts() -> CheckFacts {
    CheckFacts {
        pid: Some(7),
        ledger: true,
        roles: Ok(12),
        profiler: Ok(()),
        paths: vec![PathCheck { path: "/proc/net/snmp".to_string(), error: None }],
        rpc_url: "http://x".to_string(),
        rpc: Sample::Up(validator()),
    }
}

fn texts(f: &CheckFacts) -> Vec<String> {
    run_check(f).lines.into_iter().map(|l| l.text).collect()
}

#[test]
fn a_check_that_passes() {
    assert_eq!(
        texts(&facts()),
        vec![
            "[ok]   agave process found: pid 7",
            "[ok]   socket role discovery (contact-info): 12 ports mapped",
            "[ok]   eBPF load + attach (block_rq_issue, block_rq_complete)",
            "[ok]   net path readable: /proc/net/snmp",
            "[ok]   rpc reachable: http://x",
        ]
    );
    assert!(run_check(&facts()).passed);
    assert_eq!(verdict(true), Ok("check passed"));
}

#[test]
fn warnings_do_not_fail_a_check() {
    let mut f = facts();
    f.ledger = false;
    assert_eq!(texts(&f)[1], "[warn] --ledger not given, socket roles will show as \"unknown\"");
    f.pid = None;
    f.roles = Err("unused".to_string());
    assert_eq!(
        texts(&f)[..2],
        [
            "[warn] agave process not found (--pid to override), layer 4 will report empty until it starts",
            "[warn] agave process not found, skipping socket role discovery",
        ]
    );
    assert!(run_check(&f).passed);
}

#[test]
fn each_failure_fails_a_check() {
    let mut f = facts();
    f.roles = Err("no socket".to_string());
    assert_eq!(texts(&f)[1], "[FAIL] socket role discovery (contact-info): no socket");
    assert!(!run_check(&f).passed);
    let mut f = facts();
    f.profiler = Err("EPERM".to_string());
    assert_eq!(texts(&f)[2], "[FAIL] eBPF load + attach: EPERM");
    assert!(!run_check(&f).passed);
    let mut f = facts();
    f.paths[0].error = Some("gone".to_string());
    assert_eq!(texts(&f)[3], "[FAIL] net path readable: /proc/net/snmp: gone");
    assert!(!run_check(&f).passed);
    let mut f = facts();
    f.rpc = Sample::Down { reason: "refused".to_string() };
    assert_eq!(texts(&f)[4], "[FAIL] rpc reachable: http://x: refused");
    assert!(!run_check(&f).passed);
    for l in run_check(&f).lines {
        assert_eq!(l.text.starts_with("[FAIL]"), !l.ok);
    }
    assert_eq!(verdict(false), Err("check failed, see [FAIL] lines above"));
}

#[test]
fn own_cpu_time() {
    let t = CpuTimes { user_sec: 2, user_usec: 1_999, sys_sec: 1, sys_usec: 500_000 };
    assert_eq!(total_cpu_ms(&t), 3501);
    assert_eq!(checked_cpu_ms(&t), Some(3501));
    let t = CpuTimes { user_sec: 0, user_usec: -1_999, sys_sec: 0, sys_usec: i64::MIN };
    assert_eq!(checked_cpu_ms(&t), Some(-1 + i64::MIN / 1000));
    let t = CpuTimes { user_sec: i64::MAX, user_usec: 0, sys_sec: 0, sys_usec: 0 };
    assert_eq!(checked_cpu_ms(&t), None);
    let mut c = SelfCpu::new(100);
    assert!(c.can_measure(150));
    assert_eq!(c.delta_ms(150), 50);
    assert_eq!(c.delta_ms(140), 0);
    assert_eq!(c.delta_ms(141), 1);
    assert!(!SelfCpu::new(-2).can_measure(i64::MAX));
}

fn thresholds() -> Thresholds {
    Thresholds {
        disk_latency_ns: 1_500_000_000,
        disk_streak: 1,
        vote_lag: 4,
        freeze_lookback: 3,
        freeze_jump_bound: 1000,
        ring_drop_threshold: 0,
        napi_squeeze_threshold: 100,
        udp_rcvbuf_threshold: 0,
        socket_drop_threshold: 0,
    }
}

#[test]
fn a_timeline_reports_windows_and_stops_with_its_senders() {
    let mut t = Timeline::new(thresholds(), false, true);
    assert!(t.ends_after_window());
    assert!(matches!(t.accept(Event::Validator(Some(Sample::Up(validator())))), Action::Wait));
    assert!(matches!(t.accept(Event::Sockets(Some(sockets()))), Action::Wait));
    let w = match t.accept(Event::Window(Some(window(512)))) {
        Action::Report(w) => w,
        _ => panic!("no report"),
    };
    assert!(t.can_observe(&w));
    let (o, message) = t.observe(&w, 0);
    assert_eq!(message, None);
    assert!(!o.disk.alert && !o.vote_lag_alert && !o.freeze.freeze);
    let clock = Clock { elapsed_secs: 3, epoch_secs: 9 };
    assert_eq!(
        t.report(&w, &o, &None, 0, None, clock),
        "+00:03 | disk p99 17.6ms | 512 reqs | 9.2 MB/s || slot 430,579,083 | lag 2 | credits 3,378,181 | OK | !! socket_drop"
    );
    let (o, message) = t.observe(&w, 4_000_000);
    assert_eq!(message, Some("!! FREEZE: slot stopped advancing".to_string()));
    assert!(t.report(&w, &o, &Some(net()), 0, None, clock).ends_with("| !! slot_freeze,ring_drop,udp_rcvbuf,socket_drop"));
    assert!(matches!(t.accept(Event::Validator(Some(Sample::Down { reason: "x".to_string() }))), Action::Wait));
    let (o, _) = t.observe(&w, 5_000_000);
    assert!(o.vote_lag_alert && !o.disk.alert && o.freeze.freeze);
    assert!(t.report(&w, &o, &None, 0, None, clock).ends_with("| !! vote_lag,slot_freeze,socket_drop"));
    assert!(matches!(t.accept(Event::Validator(None)), Action::Stop));
    assert!(matches!(t.accept(Event::Sockets(None)), Action::Stop));
    assert!(matches!(t.accept(Event::Window(None)), Action::Stop));
}

#[test]
fn a_timeline_can_speak_json() {
    let mut t = Timeline::new(thresholds(), true, false);
    assert!(!t.ends_after_window());
    let w = window(1);
    let (o, _) = t.observe(&w, 0);
    let text = t.report(&w, &o, &None, 0, None, Clock { elapsed_secs: 3, epoch_secs: 9 });
    let v: serde_json::Value = serde_json::from_str(&text).unwrap();
    assert_eq!(v["ts"].as_u64(), Some(9));
    assert_eq!(v["disk"]["reqs"].as_u64(), Some(1));
}
