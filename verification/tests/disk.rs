use driftwatch::disk::{
    compact_latency, compact_stats, dev_name, format_event, format_stats, human_latency, size, total_drops,
    DropWatch, Window, WindowStats,
};
use driftwatch::event::{
    read_event, ByteOrder, DiskEvent, DiskKey, EVENT_LEN, RW_OTHER, RW_READ, RW_WRITE,
};
use driftwatch::probe::{request_kind, try_complete, try_issue, Completion};

fn event(latency_ns: u64, rw: u8) -> DiskEvent {
    DiskEvent { sector: 8, latency_ns, dev: (253 << 20) | 16, bytes: 4096, error: 0, rw }
}

fn window(evs: &[DiskEvent], secs: u64) -> WindowStats {
    let mut w = Window::new();
    for ev in evs {
        assert!(w.has_room(ev));
        w.add(ev);
    }
    w.finish(secs)
}

#[test]
fn an_empty_window_is_idle() {
    let s = window(&[], 5);
    assert_eq!((s.reqs, s.writes, s.reads, s.others, s.bytes, s.errors), (0, 0, 0, 0, 0, 0));
    assert_eq!((s.p50_ns, s.p99_ns, s.max_ns), (0, 0, 0));
    assert_eq!(s.dev, None);
    assert_eq!(s.window_secs, 5);
    assert_eq!(compact_stats(&s), "disk idle");
    assert_eq!(format_stats(&s), "disk  | 5s | idle");
}

#[test]
fn a_default_window_is_empty() {
    let s = Window::default().finish(5);
    assert_eq!((s.reqs, s.bytes, s.dev), (0, 0, None));
}

#[test]
fn percentiles_are_taken_at_their_ranks() {
    let evs: Vec<DiskEvent> = (1..=200u64).rev().map(|n| event(n * 1000, RW_WRITE)).collect();
    let s = window(&evs, 3);
    assert_eq!(s.reqs, 200);
    assert_eq!(s.p50_ns, 101_000);
    assert_eq!(s.p99_ns, 199_000);
    assert_eq!(s.max_ns, 200_000);
    let one = window(&[event(7, RW_READ)], 3);
    assert_eq!((one.p50_ns, one.p99_ns, one.max_ns), (7, 7, 7));
}

#[test]
fn kinds_bytes_and_errors_add_up() {
    let mut bad = event(5, RW_OTHER);
    bad.error = -5;
    bad.dev = 1;
    let s = window(&[event(1, RW_READ), event(2, RW_WRITE), event(3, RW_WRITE), bad, event(4, 9)], 3);
    assert_eq!((s.reads, s.writes, s.others), (1, 2, 2));
    assert_eq!(s.reqs as u64, s.reads + s.writes + s.others);
    assert_eq!(s.errors, 1);
    assert_eq!(s.bytes, 5 * 4096);
    assert_eq!(s.dev, Some((253 << 20) | 16));
    assert!(s.p50_ns <= s.p99_ns && s.p99_ns <= s.max_ns);
}

fn stats() -> WindowStats {
    WindowStats {
        window_secs: 5,
        reqs: 81,
        writes: 81,
        reads: 0,
        others: 0,
        bytes: 6_291_456,
        errors: 0,
        dev: Some((253 << 20) | 16),
        p50_ns: 62_300,
        p99_ns: 4_200_000,
        max_ns: 4_240_000,
    }
}

#[test]
fn the_full_line() {
    assert_eq!(
        format_stats(&stats()),
        "disk 253:16 | 5s | 81 reqs (81W/0R/0O) | p50 62µs | p99 4.2ms | max 4.2ms | 1.2 MB/s"
    );
    let mut s = stats();
    s.errors = 3;
    assert!(format_stats(&s).ends_with("1.2 MB/s | ERRORS 3"));
}

#[test]
fn the_short_line() {
    assert_eq!(compact_stats(&stats()), "disk p99 4.2ms | 81 reqs | 1.2 MB/s");
    let mut s = stats();
    s.errors = 3;
    assert_eq!(compact_stats(&s), "disk p99 4.2ms | 81 reqs | 1.2 MB/s | ERR 3");
    s.window_secs = 0;
    assert_eq!(compact_stats(&s), "disk p99 4.2ms | 81 reqs | inf MB/s | ERR 3");
}

#[test]
fn latencies() {
    assert_eq!(human_latency(0), "0µs");
    assert_eq!(human_latency(812_999), "812µs");
    assert_eq!(human_latency(999_999), "999µs");
    assert_eq!(human_latency(1_000_000), "1.0ms");
    assert_eq!(human_latency(2_689_000_000), "2689.0ms");
    assert_eq!(human_latency(u64::MAX), format!("{:.1}ms", u64::MAX as f64 / 1e6));
}

#[test]
fn latencies_in_the_combined_line() {
    assert_eq!(compact_latency(812_999), "812µs");
    assert_eq!(compact_latency(4_200_000), "4.2ms");
    assert_eq!(compact_latency(999_900_000), "999.9ms");
    assert_eq!(compact_latency(1_000_000_000), "1,000ms");
    assert_eq!(compact_latency(2_689_000_000), "2,689ms");
    assert_eq!(compact_latency(2_689_499_999), "2,689ms");
    assert_eq!(compact_latency(2_689_500_000), "2,690ms");
    assert_eq!(compact_latency(2_688_500_000), "2,688ms");
    assert_eq!(compact_latency(2_689_999_999), "2,690ms");
    assert_eq!(compact_latency(1_234_567_999_999), "1,234,568ms");
    for ns in (1_000_000_000u64..90_000_000_000).step_by(123_450_000) {
        let whole = compact_latency(ns).replace(',', "");
        assert_eq!(whole, format!("{:.0}ms", ns as f64 / 1e6));
    }
}

#[test]
fn sizes_and_devices() {
    assert_eq!(size(0), "0.0K");
    assert_eq!(size(4096), "4.0K");
    assert_eq!(size(1_048_575), "1024.0K");
    assert_eq!(size(1_048_576), "1.0M");
    assert_eq!(size(u32::MAX), format!("{:.1}M", u32::MAX as f64 / (1024.0 * 1024.0)));
    assert_eq!(dev_name((259 << 20) | 7), "259:7");
    assert_eq!(dev_name(u32::MAX), "4095:1048575");
}

#[test]
fn the_raw_line() {
    assert_eq!(format_event(&event(812_000, RW_WRITE)), "disk 253:16 W 4.0K 812µs");
    let mut bad = event(1_500_000, RW_READ);
    bad.error = -5;
    assert_eq!(format_event(&bad), "disk 253:16 R 4.0K 1.5ms ERR=-5");
    bad.rw = RW_OTHER;
    bad.error = 0;
    assert_eq!(format_event(&bad), "disk 253:16 O 4.0K 1.5ms");
}

#[test]
fn records_are_read_in_either_byte_order() {
    let ev = DiskEvent {
        sector: 0x0102_0304_0506_0708,
        latency_ns: 0x1112_1314_1516_1718,
        dev: 0x2122_2324,
        bytes: 0x3132_3334,
        error: -5,
        rw: RW_WRITE,
    };
    let mut le: Vec<u8> = vec![];
    le.extend(ev.sector.to_le_bytes());
    le.extend(ev.latency_ns.to_le_bytes());
    le.extend(ev.dev.to_le_bytes());
    le.extend(ev.bytes.to_le_bytes());
    le.extend(ev.error.to_le_bytes());
    le.extend([ev.rw, 0, 0, 0]);
    assert_eq!(le.len(), EVENT_LEN);
    assert_eq!(read_event(&le, ByteOrder::Little), ev);
    let mut be: Vec<u8> = vec![];
    be.extend(ev.sector.to_be_bytes());
    be.extend(ev.latency_ns.to_be_bytes());
    be.extend(ev.dev.to_be_bytes());
    be.extend(ev.bytes.to_be_bytes());
    be.extend(ev.error.to_be_bytes());
    be.extend([ev.rw, 9, 9, 9, 77]);
    assert_eq!(read_event(&be, ByteOrder::Big), ev);
}

#[test]
fn drops_are_summed_and_reported_as_they_grow() {
    assert_eq!(total_drops(&[]), Some(0));
    assert_eq!(total_drops(&[3, 0, 4]), Some(7));
    assert_eq!(total_drops(&[u64::MAX, 1]), None);
    let mut d = DropWatch::new();
    assert_eq!(d.observe(0), None);
    assert_eq!(d.observe(7), Some("WARN: ringbuf dropped 7 events (total 7)".to_string()));
    assert_eq!(d.observe(7), None);
    assert_eq!(d.observe(10), Some("WARN: ringbuf dropped 3 events (total 10)".to_string()));
    assert_eq!(d.observe(2), None);
    assert_eq!(d.observe(11), Some("WARN: ringbuf dropped 1 events (total 11)".to_string()));
}

#[test]
fn kinds_of_requests() {
    assert_eq!(request_kind(b"W\0\0\0\0\0\0\0"), RW_WRITE);
    assert_eq!(request_kind(b"FWS\0\0\0\0\0"), RW_WRITE);
    assert_eq!(request_kind(b"RA\0\0\0\0\0\0"), RW_READ);
    assert_eq!(request_kind(b"D\0\0\0\0\0\0\0"), RW_OTHER);
    assert_eq!(request_kind(b"\0W\0\0\0\0\0\0"), RW_OTHER);
}

fn completion() -> Completion {
    Completion { dev: 5, sector: 100, nr_sector: 8, error: 0, rwbs: *b"W\0\0\0\0\0\0\0" }
}

#[test]
fn issues_are_filtered_by_device() {
    assert_eq!(try_issue(0, 5, 100), Some(DiskKey { sector: 100, dev: 5 }));
    assert_eq!(try_issue(5, 5, 100), Some(DiskKey { sector: 100, dev: 5 }));
    assert_eq!(try_issue(6, 5, 100), None);
}

#[test]
fn completions_become_events() {
    let ev = try_complete(0, &completion(), Some(1_000), 4_500).unwrap();
    assert_eq!(
        ev,
        DiskEvent { sector: 100, latency_ns: 3_500, dev: 5, bytes: 4096, error: 0, rw: RW_WRITE }
    );
    assert_eq!(try_complete(6, &completion(), Some(1_000), 4_500), None);
    assert_eq!(try_complete(0, &completion(), None, 4_500), None);
    assert_eq!(try_complete(0, &completion(), Some(9_000), 4_500).unwrap().latency_ns, 0);
}
