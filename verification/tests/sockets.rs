use std::collections::HashMap;

use driftwatch::sockets::{
    parse_proc_net_udp, read_udp_sockets, RawUdpSocket, SocketTracker,
};
use driftwatch::source::CommandOutput;
use driftwatch::validator::{
    agave_bin_path, agave_uid, describe_contact_failure, find_agave_pid, find_known_role,
    is_validator, label_to_role, parse_contact_info, proc_pid, refresh_port_roles, resolve_pid,
    walk_fd_inodes, ProcEntry,
};

const UDP: &str = "  sl  local_address rem_address   st tx_queue rx_queue tr tm->when retrnsmt   uid  timeout inode ref pointer drops\n 100: 00000000:1F42 00000000:0000 07 00000010:00000020 00:00000000 00000000  1000        0 5001 2 0000000000000000 7\n bad\n 101: 00000000:xyz 00000000:0000 07 0:0 0 0 0 0 1 2 0 1\n 102: 00000000:1F43 00000000:0000 07 zz:3 00:00000000 00000000  1000        0 5002 2 0000000000000000 x\n";

fn sock(port: u16, inode: u64, drops: u64) -> RawUdpSocket {
    RawUdpSocket { port, inode, rx_queue: 1, tx_queue: 2, drops }
}

fn targets(inodes: &[u64]) -> Vec<String> {
    inodes.iter().map(|i| format!("socket:[{}]", i)).collect()
}

fn roles(pairs: &[(u16, &str)]) -> HashMap<u16, String> {
    pairs.iter().map(|(p, r)| (*p, r.to_string())).collect()
}

#[test]
fn udp_tables_are_read_by_column() {
    let v = parse_proc_net_udp("/proc/net/udp", &Ok(UDP.to_string())).unwrap();
    assert_eq!(
        v,
        vec![
            RawUdpSocket { port: 8002, inode: 5001, rx_queue: 32, tx_queue: 16, drops: 7 },
            RawUdpSocket { port: 8003, inode: 5002, rx_queue: 3, tx_queue: 0, drops: 0 },
        ]
    );
    assert_eq!(
        parse_proc_net_udp("/proc/net/udp", &Err("denied".to_string())).err().unwrap(),
        "/proc/net/udp: denied"
    );
}

#[test]
fn both_udp_tables_count() {
    let both = read_udp_sockets(&Ok(UDP.to_string()), &Ok(UDP.to_string()));
    assert_eq!(both.len(), 4);
    let one = read_udp_sockets(&Err("gone".to_string()), &Ok(UDP.to_string()));
    assert_eq!(one.len(), 2);
}

#[test]
fn without_a_process_a_sample_is_empty() {
    let mut t = SocketTracker::new(None, 30, None);
    assert!(t.needs_refresh(0));
    let s = t.sample(&vec![sock(8000, 1, 5)]);
    assert_eq!(s.pid, None);
    assert!(s.sockets.is_empty());
}

#[test]
fn ports_are_grouped_and_ordered() {
    let mut t = SocketTracker::new(Some(77), 30, Some("/ledger".to_string()));
    assert_eq!(t.pid_override(), Some(77));
    assert_eq!(t.ledger(), Some("/ledger"));
    let found = roles(&[(8000, "gossip")]);
    assert_eq!(t.refresh(Some(77), &targets(&[1, 2, 3]), Some(Ok(found)), 0), None);
    let raw = vec![sock(9000, 3, 4), sock(8000, 1, 10), sock(8000, 2, 20), sock(8000, 99, 1)];
    let first = t.sample(&raw);
    assert_eq!(first.pid, Some(77));
    assert_eq!(first.sockets.len(), 2);
    assert_eq!(first.sockets[0].port, 8000);
    assert_eq!(first.sockets[0].role, "gossip");
    assert_eq!(first.sockets[0].count, 2);
    assert_eq!((first.sockets[0].rx_queue, first.sockets[0].tx_queue), (2, 4));
    assert_eq!(first.sockets[1].port, 9000);
    assert_eq!(first.sockets[1].role, "unknown");
    assert!(first.sockets.iter().all(|e| e.drops == 0));
    let raw = vec![sock(8000, 1, 13), sock(8000, 2, 25), sock(9000, 3, 1), sock(8000, 99, 50)];
    let second = t.sample(&raw);
    assert_eq!(second.sockets[0].drops, 8);
    assert_eq!(second.sockets[1].drops, 0);
    let third = t.sample(&vec![sock(9000, 3, 6)]);
    assert_eq!(third.sockets.len(), 1);
    assert_eq!(third.sockets[0].drops, 5);
}

#[test]
fn a_restart_starts_over() {
    let mut t = SocketTracker::new(None, 30, None);
    t.refresh(Some(1), &targets(&[1]), None, 0);
    t.sample(&vec![sock(8000, 1, 10)]);
    t.refresh(Some(2), &targets(&[1]), None, 1);
    assert_eq!(t.sample(&vec![sock(8000, 1, 90)]).sockets[0].drops, 0);
    t.refresh(Some(2), &targets(&[1]), None, 2);
    assert_eq!(t.sample(&vec![sock(8000, 1, 95)]).sockets[0].drops, 5);
    t.refresh(None, &targets(&[1]), None, 3);
    assert_eq!(t.sample(&vec![sock(8000, 1, 99)]).pid, None);
}

#[test]
fn roles_survive_a_failure_that_is_reported_once() {
    let mut t = SocketTracker::new(None, 30, Some("/l".to_string()));
    t.refresh(Some(1), &targets(&[1]), Some(Ok(roles(&[(8000, "tvu")]))), 0);
    let fail = || Some(Err("no admin socket".to_string()));
    assert_eq!(
        t.refresh(Some(1), &targets(&[1]), fail(), 1),
        Some("WARN: socket role discovery failed: no admin socket".to_string())
    );
    assert_eq!(t.refresh(Some(1), &targets(&[1]), fail(), 2), None);
    assert_eq!(t.sample(&vec![sock(8000, 1, 0)]).sockets[0].role, "tvu");
    t.refresh(Some(1), &targets(&[1]), Some(Ok(roles(&[]))), 3);
    assert_eq!(t.sample(&vec![sock(8000, 1, 0)]).sockets[0].role, "unknown");
    assert!(t.refresh(Some(1), &targets(&[1]), fail(), 4).is_some());
}

#[test]
fn roles_need_a_ledger() {
    let mut t = SocketTracker::new(None, 30, None);
    t.refresh(Some(1), &targets(&[1]), Some(Ok(roles(&[(8000, "tvu")]))), 0);
    assert_eq!(t.sample(&vec![sock(8000, 1, 0)]).sockets[0].role, "unknown");
    assert_eq!(t.refresh(Some(1), &targets(&[1]), Some(Err("e".to_string())), 1), None);
}

#[test]
fn lookups_are_due_when_the_interval_has_run_out() {
    let mut t = SocketTracker::new(None, 2, None);
    t.refresh(None, &vec![], None, 1_000);
    assert!(!t.needs_refresh(2_000_001_000));
    assert!(t.needs_refresh(2_000_001_001));
    let mut t = SocketTracker::new(None, 0, None);
    t.refresh(None, &vec![], None, 0);
    assert!(!t.needs_refresh(1_000_000_000));
    assert!(t.needs_refresh(1_000_000_001));
    let mut t = SocketTracker::new(None, u64::MAX, None);
    t.refresh(None, &vec![], None, 0);
    assert!(!t.needs_refresh(u64::MAX));
}

#[test]
fn a_lone_socket_is_its_port() {
    let mut t = SocketTracker::new(None, 30, None);
    t.refresh(Some(1), &targets(&[1, 2]), None, 0);
    t.sample(&vec![sock(8000, 1, 3), sock(9000, 2, 4)]);
    let s = t.sample(&vec![sock(8000, 1, 9), sock(9000, 2, 5)]);
    assert_eq!((s.sockets[1].count, s.sockets[1].drops), (1, 1));
    let s = t.sample(&vec![sock(8000, 2, 7), sock(9000, 2, 10)]);
    assert_eq!((s.sockets[0].drops, s.sockets[1].drops), (2, 3));
}

#[test]
fn sums_that_do_not_fit_give_no_sample() {
    let mut t = SocketTracker::new(None, 30, None);
    t.refresh(Some(1), &targets(&[1, 2]), None, 0);
    let mut a = sock(8000, 1, 3);
    a.rx_queue = u64::MAX;
    assert!(t.checked_sample(&vec![a, sock(8000, 2, 4)]).is_none());
    let s = t.checked_sample(&vec![sock(8000, 1, 5), sock(8000, 2, 4)]).unwrap();
    assert_eq!(s.sockets[0].drops, 2);
}

fn entry(name: &str, cmdline: Option<&str>) -> ProcEntry {
    ProcEntry { name: name.to_string(), cmdline: cmdline.map(|c| c.to_string()) }
}

#[test]
fn the_validator_is_found_by_its_first_argument() {
    assert!(is_validator("/opt/bin/agave-validator\0--ledger\0/x"));
    assert!(is_validator("solana-validator"));
    assert!(!is_validator("agave-validator-2\0"));
    assert!(!is_validator("bash\0/opt/agave-validator"));
    assert!(!is_validator(""));
    assert_eq!(proc_pid("123"), Some(123));
    assert_eq!(proc_pid("self"), None);
    assert_eq!(proc_pid("4294967296"), None);
    let es = vec![
        entry("self", Some("agave-validator\0")),
        entry("10", None),
        entry("11", Some("bash\0")),
        entry("12", Some("/usr/bin/solana-validator\0run")),
        entry("13", Some("agave-validator\0")),
    ];
    assert_eq!(find_agave_pid(&es), Some(12));
    assert_eq!(resolve_pid(None, &es), Some(12));
    assert_eq!(resolve_pid(Some(5), &es), Some(5));
    assert_eq!(resolve_pid(None, &vec![]), None);
}

#[test]
fn open_sockets_are_picked_out() {
    let v: Vec<String> = ["socket:[12]", "/dev/null", "socket:[]", "socket:[x]", "socket:[7", "pipe:[3]", "socket:[12]"]
        .iter()
        .map(|s| s.to_string())
        .collect();
    let got = walk_fd_inodes(&v);
    assert_eq!(got.len(), 1);
    assert!(got.contains(&12));
}

#[test]
fn the_program_of_a_process() {
    assert_eq!(agave_bin_path(7, Ok(Some("/opt/agave".to_string()))), Ok("/opt/agave".to_string()));
    assert_eq!(agave_bin_path(7, Ok(None)), Err("/proc/7/exe: not valid utf8".to_string()));
    assert_eq!(
        agave_bin_path(7, Err("denied".to_string())),
        Err("/proc/7/exe: denied".to_string())
    );
}

#[test]
fn the_user_of_a_process() {
    let status = "Name:\tx\nUid:\t1001\t1002\t0\t0\nGid:\t5\n".to_string();
    assert_eq!(agave_uid(7, &Ok(status)), Ok(1001));
    assert_eq!(agave_uid(7, &Ok("Uid:\nUid: 4\n".to_string())), Ok(4));
    assert_eq!(
        agave_uid(7, &Ok("Uid: x\n".to_string())),
        Err("/proc/7/status: bad Uid line: invalid digit found in string".to_string())
    );
    assert_eq!(
        agave_uid(7, &Ok("Name: x\n".to_string())),
        Err("/proc/7/status: no Uid line found".to_string())
    );
    assert_eq!(agave_uid(7, &Err("gone".to_string())), Err("/proc/7/status: gone".to_string()));
}

fn role(label: &str) -> String {
    label_to_role(label)
}

#[test]
fn labels_become_roles() {
    for (label, want) in [
        ("Gossip", "gossip"),
        ("TVU", "tvu"),
        ("TVU QUIC", "tvu_quic"),
        ("TPU", "tpu"),
        ("TPU QUIC", "tpu_quic"),
        ("TPU Forwards", "tpu_forwards"),
        ("TPU Forwards QUIC", "tpu_forwards_quic"),
        ("TPU Votes", "tpu_vote"),
        ("TPU Votes QUIC", "tpu_vote_quic"),
        ("Serve Repair", "serve_repair"),
        ("Serve Repair QUIC", "serve_repair_quic"),
        ("Repair", "repair"),
        ("RPC", "rpc"),
        ("RPC Pubsub", "rpc_pubsub"),
        ("Alpenglow New", "alpenglow_new"),
        ("ÄB Ç", "äb_ç"),
        ("", ""),
    ] {
        assert_eq!(role(label), want);
    }
    assert_eq!(find_known_role("TVU"), Some("tvu"));
    assert_eq!(find_known_role("tvu"), None);
}

const CONTACT: &str = "Identity: 7xKX\nTimestamp: 1700000000\nGossip: 1.2.3.4:8001\nTVU: 1.2.3.4:8002\nTPU: 1.2.3.4:1\nRPC: 0.0.0.0:0\nTPU Votes:  1.2.3.4:8004 \nOdd Port: 1.2.3.4:99999\nNew Thing: [::1]:8002\n";

#[test]
fn contact_information() {
    let m = parse_contact_info(CONTACT);
    assert_eq!(m.len(), 3);
    assert_eq!(m[&8001], "gossip");
    assert_eq!(m[&8002], "new_thing");
    assert_eq!(m[&8004], "tpu_vote");
    assert!(!m.contains_key(&0) && !m.contains_key(&1));
}

#[test]
fn roles_from_the_command() {
    let mut out = CommandOutput {
        success: true,
        status: "exit status: 0".to_string(),
        stdout: CONTACT.as_bytes().to_vec(),
        stderr: b" boom \n".to_vec(),
    };
    let bin = "/opt/agave";
    assert_eq!(refresh_port_roles(bin, &Ok(out)).unwrap().len(), 3);
    out = CommandOutput {
        success: false,
        status: "exit status: 1".to_string(),
        stdout: b"\xff\n".to_vec(),
        stderr: b" boom \n".to_vec(),
    };
    assert_eq!(
        refresh_port_roles(bin, &Ok(out)).err().unwrap(),
        "/opt/agave contact-info: exit status: 1 stderr: boom stdout: \u{fffd}"
    );
    assert_eq!(
        refresh_port_roles(bin, &Err("not found".to_string())).err().unwrap(),
        "/opt/agave contact-info: not found"
    );
    assert_eq!(describe_contact_failure("b", "s", " e", "o "), "b contact-info: s stderr: e stdout: o");
}
