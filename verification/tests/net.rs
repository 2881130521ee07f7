use driftwatch::counters::{read_raw, read_ring, read_snmp_udp, read_softnet, ring_path, NetFiles};
use driftwatch::net::{
    check_paths, detect_iface, detect_is_xdp, growth, names_xdp, parse_stats, read_ethtool_stats,
    NetOutcome, NetSample, NetTracker, RingDelta, SnmpUdpDelta, SoftnetDelta, ETHTOOL_CACHE_TTL_NS, XDP_CACHE_TTL_NS,
};
use driftwatch::source::{CommandOutput, FileText};
use driftwatch::table::StatTable;

fn ok(s: &str) -> FileText {
    Ok(s.to_string())
}

fn ran(stdout: &[u8]) -> Option<CommandOutput> {
    Some(CommandOutput {
        success: true,
        status: "exit status: 0".to_string(),
        stdout: stdout.to_vec(),
        stderr: vec![],
    })
}

const SNMP: &str = "Ip: Forwarding\nIp: 1\nUdpLite: InDatagrams\nUdpLite: 9\nUdp: InDatagrams NoPorts InErrors OutDatagrams RcvbufErrors SndbufErrors\nUdp: 100 1 2 3 4 5\n";
const SOFTNET: &str = "0000000a 00000001 00000002 00000000 00000000\nzz 1\n00000005 00000000 00000003 00000000 00000001\n";

fn files() -> NetFiles {
    NetFiles {
        rx_missed_errors: ok("1\n"),
        rx_dropped: ok("2\n"),
        rx_errors: ok(" 3 \n"),
        rx_fifo_errors: ok("4\n"),
        softnet: ok(SOFTNET),
        snmp: ok(SNMP),
    }
}

#[test]
fn ring_counters() {
    let r = read_ring("eth0", &files()).unwrap();
    assert_eq!(
        (r.rx_missed_errors, r.rx_dropped, r.rx_errors, r.rx_fifo_errors),
        (1, 2, 3, 4)
    );
    assert_eq!(ring_path("eth0", "rx_dropped"), "/sys/class/net/eth0/statistics/rx_dropped");
}

#[test]
fn ring_errors_name_the_file() {
    let mut f = files();
    f.rx_errors = ok("x");
    assert_eq!(
        read_ring("eth0", &f).err().unwrap(),
        "/sys/class/net/eth0/statistics/rx_errors: bad value: invalid digit found in string"
    );
    f.rx_dropped = Err("No such file".to_string());
    assert_eq!(
        read_ring("eth0", &f).err().unwrap(),
        "/sys/class/net/eth0/statistics/rx_dropped: No such file"
    );
}

#[test]
fn softnet_rows_add_up() {
    let s = read_softnet(&ok(SOFTNET)).unwrap();
    assert_eq!((s.processed, s.dropped, s.time_squeeze), (15, 1, 5));
    assert_eq!(s.per_cpu_time_squeeze.len(), 2);
    assert_eq!(s.per_cpu_time_squeeze[&0], 2);
    assert_eq!(s.per_cpu_time_squeeze[&1], 3);
}

#[test]
fn softnet_errors() {
    assert_eq!(read_softnet(&ok("x y\n")).err().unwrap(), "softnet_stat: no parsable rows");
    assert_eq!(read_softnet(&Err("gone".to_string())).err().unwrap(), "softnet_stat: gone");
    assert!(read_softnet(&ok("ffffffffffffffff 0 0\n1 0 0\n")).is_err());
    let wide = read_softnet(&ok("1 0 7 100000002\n")).unwrap();
    assert_eq!(wide.per_cpu_time_squeeze[&2], 7);
}

#[test]
fn snmp_is_read_by_column_name() {
    let u = read_snmp_udp(&ok(SNMP)).unwrap();
    assert_eq!(
        (u.in_datagrams, u.in_errors, u.rcvbuf_errors, u.sndbuf_errors, u.no_ports),
        (100, 2, 4, 5, 1)
    );
    let u = read_snmp_udp(&ok("Udp: RcvbufErrors InErrors\nUdp: 7\n")).unwrap();
    assert_eq!((u.rcvbuf_errors, u.in_errors, u.in_datagrams), (7, 0, 0));
}

#[test]
fn snmp_errors() {
    assert_eq!(read_snmp_udp(&ok("Tcp: a\n")).err().unwrap(), "snmp: no Udp: section found");
    assert_eq!(
        read_snmp_udp(&ok("Udp: InErrors\n")).err().unwrap(),
        "snmp: Udp header with no values line"
    );
    assert_eq!(read_snmp_udp(&Err("gone".to_string())).err().unwrap(), "snmp: gone");
}

#[test]
fn paths_to_check() {
    let got = check_paths("eth0");
    let mut want = vec![
        "/sys/class/net/eth0/statistics/rx_missed_errors".to_string(),
        "/sys/class/net/eth0/statistics/rx_dropped".to_string(),
        "/sys/class/net/eth0/statistics/rx_errors".to_string(),
        "/sys/class/net/eth0/statistics/rx_fifo_errors".to_string(),
        "/proc/net/softnet_stat".to_string(),
        "/proc/net/snmp".to_string(),
    ];
    want.sort();
    assert_eq!(got, want);
}

#[test]
fn the_default_route_names_the_interface() {
    let route = "Iface\tDestination\tGateway\neth1\t0000A8C0\t0\neth0\t00000000\t0102A8C0\n";
    assert_eq!(detect_iface(&ok(route)), Ok("eth0".to_string()));
    assert_eq!(
        detect_iface(&ok("Iface\tDestination\n")),
        Err("no default route found; pass --iface explicitly".to_string())
    );
    assert_eq!(detect_iface(&Err("denied".to_string())), Err("route: denied".to_string()));
    assert_eq!(
        detect_iface(&ok("eth0 00000000\n")),
        Err("no default route found; pass --iface explicitly".to_string())
    );
}

#[test]
fn xdp_is_told_from_the_link() {
    assert!(names_xdp("2: eth0 ... prog/xdp id 7"));
    assert_eq!(detect_is_xdp(&ran(b"2: eth0\n    prog/xdp id 7\n")), Some(true));
    assert_eq!(detect_is_xdp(&ran(b"2: eth0\n \xff\xfe")), Some(false));
    assert_eq!(detect_is_xdp(&ran(b"\xffprog/xdp\xff")), Some(true));
    assert_eq!(detect_is_xdp(&None), None);
    let mut failed = ran(b"prog/xdp").unwrap();
    failed.success = false;
    assert_eq!(detect_is_xdp(&Some(failed)), None);
}

#[test]
fn driver_statistics() {
    let text = "NIC statistics: 5\n     rx_packets: 12\n     tx: bad\n  no colon\n rx_packets: 13\n a b : 4\n";
    let t = parse_stats(text);
    assert_eq!(t.len(), 2);
    assert_eq!(t.get("rx_packets"), Some(13));
    assert_eq!(t.get("a b"), Some(4));
    assert_eq!(t.get("NIC statistics"), None);
    assert_eq!(t.entry(0), ("rx_packets", 13));
    let mut bytes = b"NIC statistics:\n x\xff: 3\n".to_vec();
    bytes.push(b'\n');
    assert_eq!(read_ethtool_stats(&ran(&bytes)).unwrap().get("x\u{fffd}"), Some(3));
    assert!(read_ethtool_stats(&None).is_none());
}

#[test]
fn tables_keep_one_value_for_a_name() {
    let mut t = StatTable::new();
    t.insert("a".to_string(), 1);
    t.insert("b".to_string(), 2);
    t.insert("a".to_string(), 3);
    let c = t.clone();
    assert_eq!((c.len(), c.get("a"), c.get("b"), c.get("c")), (2, Some(3), Some(2), None));
}

#[test]
fn growth_adds_up_over_windows() {
    let a = read_raw("eth0", &files()).unwrap();
    let mut f = files();
    f.rx_missed_errors = ok("11");
    f.softnet = ok("0000001a 1 2 0 0\n5 0 9 0 1\n");
    let b = read_raw("eth0", &f).unwrap();
    f.rx_missed_errors = ok("14");
    f.softnet = ok("0000002a 1 4 0 0\n5 0 a 0 1\n");
    let c = read_raw("eth0", &f).unwrap();
    let ab = growth(&a, &b);
    let bc = growth(&b, &c);
    let ac = growth(&a, &c);
    assert!(!ac.counters_reset);
    assert_eq!(ab.ring.rx_missed_errors, 10);
    assert_eq!(
        ac.ring.rx_missed_errors,
        ab.ring.rx_missed_errors + bc.ring.rx_missed_errors
    );
    assert_eq!(ac.softnet.processed, ab.softnet.processed + bc.softnet.processed);
    assert_eq!(ac.softnet.time_squeeze, 9);
    assert_eq!((ab.softnet.time_squeeze_max_cpu, ab.softnet.max_cpu_id), (6, 1));
    assert_eq!((bc.softnet.time_squeeze_max_cpu, bc.softnet.max_cpu_id), (2, 0));
}

#[test]
fn a_reset_is_flagged_and_shows_no_growth() {
    let a = read_raw("eth0", &files()).unwrap();
    let mut f = files();
    f.rx_dropped = ok("0");
    f.rx_missed_errors = ok("50");
    let b = read_raw("eth0", &f).unwrap();
    let d = growth(&a, &b);
    assert!(d.counters_reset);
    assert_eq!(d.ring.rx_missed_errors, 0);
    assert_eq!(d.softnet.processed, 0);
}

#[test]
fn defaults_show_no_growth() {
    let s = NetSample::default();
    assert_eq!((s.iface.as_str(), s.is_xdp, s.counters_reset, s.ethtool.len()), ("", None, false, 0));
    let ring = RingDelta { rx_missed_errors: 0, rx_dropped: 0, rx_errors: 0, rx_fifo_errors: 0 };
    assert_eq!((s.ring, RingDelta::default()), (ring, ring));
    assert_eq!(s.softnet, SoftnetDelta::default());
    assert_eq!((s.softnet.processed, s.softnet.max_cpu_id), (0, 0));
    assert_eq!(s.snmp_udp, SnmpUdpDelta::default());
    assert_eq!((s.snmp_udp.in_datagrams, s.snmp_udp.no_ports), (0, 0));
}

#[test]
fn a_tracker_compares_with_the_last_good_reading() {
    let mut t = NetTracker::new("eth0".to_string());
    assert!(matches!(t.sample(&files()), NetOutcome::First));
    let mut bad = files();
    bad.snmp = Err("gone".to_string());
    match t.sample(&bad) {
        NetOutcome::Failed { warning } => {
            assert_eq!(warning, Some("WARN: net read failed: snmp: gone".to_string()))
        }
        _ => panic!("not failed"),
    }
    match t.sample(&bad) {
        NetOutcome::Failed { warning } => assert_eq!(warning, None),
        _ => panic!("not failed"),
    }
    assert_eq!(t.parse_errors(), 2);
    let mut f = files();
    f.rx_dropped = ok("9");
    match t.sample(&f) {
        NetOutcome::Grown(d) => assert_eq!(d.ring.rx_dropped, 7),
        _ => panic!("not grown"),
    }
    match t.sample(&bad) {
        NetOutcome::Failed { warning } => assert!(warning.is_some()),
        _ => panic!("not failed"),
    }
    assert_eq!(t.iface(), "eth0");
}

#[test]
fn the_state_of_the_interface_is_kept_for_a_minute() {
    let mut t = NetTracker::new("eth0".to_string());
    t.sample(&files());
    let d = match t.sample(&files()) {
        NetOutcome::Grown(d) => d,
        _ => panic!("not grown"),
    };
    assert!(t.xdp_stale(0) && t.ethtool_stale(0));
    let stats = ran(b"NIC statistics:\n a: 1\n");
    let s = t.complete(d, &ran(b"prog/xdp id 1"), &stats, 5);
    assert_eq!((s.iface.as_str(), s.is_xdp, s.ethtool.get("a")), ("eth0", Some(true), Some(1)));
    assert!(!t.xdp_stale(5 + XDP_CACHE_TTL_NS));
    assert!(t.xdp_stale(6 + XDP_CACHE_TTL_NS));
    assert!(t.ethtool_stale(6 + ETHTOOL_CACHE_TTL_NS));
    assert_eq!(t.is_xdp(&None, 7), Some(true));
    assert_eq!(t.is_xdp(&None, 6 + XDP_CACHE_TTL_NS), None);
    assert_eq!(t.ethtool_stats(&None, 7).get("a"), Some(1));
    assert_eq!(t.ethtool_stats(&None, 6 + ETHTOOL_CACHE_TTL_NS).len(), 0);
}
