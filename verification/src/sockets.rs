//! Layer 4: the drops of each socket of the validator, under the role of its
//! port (tvu, tpu, gossip, ...). Layers 1 to 3 say that the machine dropped
//! something; this says where.

use std::collections::{HashMap, HashSet};

use vstd::prelude::*;

use crate::net::{option_text, strings_view};
use crate::source::{text_view, FileText};
use crate::text::{
    chars_of, cut_first, cut_last, labelled, law_first_cut_is_at_the_first, lemma_occurs,
    lemma_uint_bound, lines, lines_of, parse_uint, same_text, split_first, split_last, uint_value,
    views, words, words_of, IntError,
};
use crate::validator::{
    law_every_open_socket_counts, roles_view, socket_inode, socket_inodes, walk_fd_inodes,
};

verus! {

broadcast use vstd::std_specs::hash::group_hash_axioms;

// ---- UDP sockets ----

/// One line of the kernel's socket table.
#[derive(Clone, Copy, Debug, PartialEq, Eq, Structural)]
pub struct RawUdpSocket {
    pub port: u16,
    pub inode: u64,
    pub rx_queue: u64,
    pub tx_queue: u64,
    /// Since the socket was made.
    pub drops: u64,
}

/// The number that a text writes in the given base, or 0.
pub open spec fn number_or_zero(s: Seq<char>, radix: int) -> u64 {
    match uint_value(s, radix, u64::MAX as int) {
        Ok(v) => v as u64,
        Err(_) => 0,
    }
}

/// The socket in a line: word 1 ends in the port behind a colon, word 4 holds
/// the two queues around a colon, all hexadecimal; word 9 is the inode and word
/// 12 the drops, both decimal.
pub open spec fn udp_row(line: Seq<char>) -> Option<RawUdpSocket> {
    let f = words_of(line);
    if f.len() < 13 {
        None
    } else {
        match cut_last(f[1], ':') {
            None => None,
            Some((_, port_hex)) => match uint_value(port_hex, 16, u16::MAX as int) {
                Err(_) => None,
                Ok(port) => match cut_first(f[4], ':') {
                    None => None,
                    Some((tx_hex, rx_hex)) => match uint_value(f[9], 10, u64::MAX as int) {
                        Err(_) => None,
                        Ok(inode) => Some(
                            RawUdpSocket {
                                port: port as u16,
                                inode: inode as u64,
                                rx_queue: number_or_zero(rx_hex, 16),
                                tx_queue: number_or_zero(tx_hex, 16),
                                drops: number_or_zero(f[12], 10),
                            },
                        ),
                    },
                },
            },
        }
    }
}

/// The sockets in the lines before `n` but the first, which is a header; a line
/// that is malformed is passed over.
pub open spec fn udp_rows(ls: Seq<Seq<char>>, n: int) -> Seq<RawUdpSocket>
    decreases n,
{
    if n <= 1 {
        Seq::empty()
    } else {
        match udp_row(ls[n - 1]) {
            Some(s) => udp_rows(ls, n - 1).push(s),
            None => udp_rows(ls, n - 1),
        }
    }
}

/// The sockets in a table, or why it could not be read.
pub open spec fn udp_value(path: Seq<char>, file: Result<Seq<char>, Seq<char>>) -> Result<
    Seq<RawUdpSocket>,
    Seq<char>,
> {
    match file {
        Err(e) => Err(path + ": "@ + e),
        Ok(t) => Ok(udp_rows(lines_of(t), lines_of(t).len() as int)),
    }
}

fn read_number(s: &[char], radix: u64) -> (r: u64)
    requires
        radix <= 16,
    ensures
        r == number_or_zero(s@, radix as int),
{
    match parse_uint(s, radix, u64::MAX) {
        Ok(v) => v,
        Err(_) => 0,
    }
}

fn read_udp_row(line: &[char]) -> (r: Option<RawUdpSocket>)
    ensures
        r == udp_row(line@),
{
    let f = words(line);
    if f.len() < 13 {
        return None;
    }
    assert(forall|i: int| 0 <= i < f@.len() ==> views(f@)[i] == #[trigger] f@[i]@);
    assert(views(f@)[1] == f@[1]@);
    assert(views(f@)[4] == f@[4]@);
    assert(views(f@)[9] == f@[9]@);
    assert(views(f@)[12] == f@[12]@);
    let port_hex = match split_last(f[1], ':') {
        Some((_, p)) => p,
        None => {
            return None;
        },
    };
    let port = match parse_uint(port_hex, 16, 65535) {
        Ok(p) => p as u16,
        Err(_) => {
            return None;
        },
    };
    let (tx_hex, rx_hex) = match split_first(f[4], ':') {
        Some(q) => q,
        None => {
            return None;
        },
    };
    let inode = match parse_uint(f[9], 10, u64::MAX) {
        Ok(i) => i,
        Err(_) => {
            return None;
        },
    };
    Some(
        RawUdpSocket {
            port,
            inode,
            rx_queue: read_number(rx_hex, 16),
            tx_queue: read_number(tx_hex, 16),
            drops: read_number(f[12], 10),
        },
    )
}

/// Reads `/proc/net/udp` or `/proc/net/udp6`, whose columns are fixed.
/// Malformed lines are passed over.
pub fn parse_proc_net_udp(path: &str, file: &FileText) -> (r: Result<Vec<RawUdpSocket>, String>)
    ensures
        (match r {
            Ok(v) => Ok(v@),
            Err(e) => Err(e@),
        }) == udp_value(path@, text_view(*file)),
{
    match file {
        Err(e) => {
            let mut out = path.to_string();
            out.append(": ");
            out.append(e.as_str());
            Err(out)
        },
        Ok(t) => {
            let chars = chars_of(t.as_str());
            let ls = lines(chars.as_slice());
            let mut out: Vec<RawUdpSocket> = Vec::new();
            let mut i: usize = 1;
            while i < ls.len()
                invariant
                    1 <= i,
                    i == 1 || i <= ls@.len(),
                    views(ls@) == lines_of(t@),
                    out@ == udp_rows(lines_of(t@), i as int),
                decreases ls@.len() - i,
            {
                assert(views(ls@)[i as int] == ls@[i as int]@);
                match read_udp_row(ls[i]) {
                    Some(s) => {
                        out.push(s);
                    },
                    None => {},
                }
                i = i + 1;
            }
            Ok(out)
        },
    }
}

/// The sockets of both tables; a table that could not be read holds none.
pub open spec fn all_sockets(
    udp: Result<Seq<char>, Seq<char>>,
    udp6: Result<Seq<char>, Seq<char>>,
) -> Seq<RawUdpSocket> {
    let a = match udp_value("/proc/net/udp"@, udp) {
        Ok(v) => v,
        Err(_) => Seq::empty(),
    };
    let b = match udp_value("/proc/net/udp6"@, udp6) {
        Ok(v) => v,
        Err(_) => Seq::empty(),
    };
    a + b
}

/// Reads both socket tables.
pub fn read_udp_sockets(udp: &FileText, udp6: &FileText) -> (r: Vec<RawUdpSocket>)
    ensures
        r@ == all_sockets(text_view(*udp), text_view(*udp6)),
{
    let mut raw: Vec<RawUdpSocket> = Vec::new();
    if let Ok(mut v4) = parse_proc_net_udp("/proc/net/udp", udp) {
        raw.append(&mut v4);
    }
    if let Ok(mut v6) = parse_proc_net_udp("/proc/net/udp6", udp6) {
        raw.append(&mut v6);
    }
    assert(raw@ =~= all_sockets(text_view(*udp), text_view(*udp6)));
    raw
}

// ---- ports ----

/// The sockets of one port.
#[derive(Debug)]
pub struct SocketEntry {
    pub port: u16,
    pub role: String,
    /// How many sockets share this port.
    pub count: u32,
    /// What their drops grew by since the last sample, added up.
    pub drops: u64,
    pub rx_queue: u64,
    pub tx_queue: u64,
}

/// One sample of layer 4. No sockets and no pid means that the validator was
/// not found, not that nothing happens.
#[derive(Debug)]
pub struct SocketSample {
    pub pid: Option<u32>,
    pub sockets: Vec<SocketEntry>,
}

/// The numbers of one port.
pub struct PortTotals {
    pub count: int,
    pub drops: int,
    pub rx_queue: int,
    pub tx_queue: int,
}

/// The drops last seen of each socket, after the first `n` sockets of a
/// reading: those that belong to the validator overwrite what was known.
pub open spec fn known_drops(
    raw: Seq<RawUdpSocket>,
    inodes: Set<u64>,
    before: Map<u64, u64>,
    n: int,
) -> Map<u64, u64>
    decreases n,
{
    if n <= 0 {
        before
    } else if inodes.contains(raw[n - 1].inode) {
        known_drops(raw, inodes, before, n - 1).insert(raw[n - 1].inode, raw[n - 1].drops)
    } else {
        known_drops(raw, inodes, before, n - 1)
    }
}

/// What the drops of a socket grew by over those last known of it; 0 for a
/// socket of which none are known, or whose drops shrank.
pub open spec fn drop_growth(s: RawUdpSocket, known: Map<u64, u64>) -> int {
    if known.contains_key(s.inode) && s.drops > known[s.inode] {
        s.drops - known[s.inode]
    } else {
        0
    }
}

/// The numbers of one port over the first `n` sockets of a reading, counting
/// those that belong to the validator.
pub open spec fn port_totals(
    raw: Seq<RawUdpSocket>,
    inodes: Set<u64>,
    before: Map<u64, u64>,
    port: u16,
    n: int,
) -> PortTotals
    decreases n,
{
    if n <= 0 {
        PortTotals { count: 0, drops: 0, rx_queue: 0, tx_queue: 0 }
    } else {
        let t = port_totals(raw, inodes, before, port, n - 1);
        let s = raw[n - 1];
        if inodes.contains(s.inode) && s.port == port {
            PortTotals {
                count: t.count + 1,
                drops: t.drops + drop_growth(s, known_drops(raw, inodes, before, n - 1)),
                rx_queue: t.rx_queue + s.rx_queue,
                tx_queue: t.tx_queue + s.tx_queue,
            }
        } else {
            t
        }
    }
}

/// Whether the numbers of a port fit their fields.
pub open spec fn totals_fit(t: PortTotals) -> bool {
    t.count <= u32::MAX && t.drops <= u64::MAX && t.rx_queue <= u64::MAX && t.tx_queue <= u64::MAX
}

/// Whether the numbers of every port fit their fields.
pub open spec fn all_totals_fit(
    raw: Seq<RawUdpSocket>,
    inodes: Set<u64>,
    before: Map<u64, u64>,
) -> bool {
    forall|port: u16| totals_fit(#[trigger] port_totals(raw, inodes, before, port, raw.len() as int))
}

/// The role of a port.
pub open spec fn role_of(roles: Map<u16, Seq<char>>, port: u16) -> Seq<char> {
    if roles.contains_key(port) {
        roles[port]
    } else {
        "unknown"@
    }
}

/// Whether an entry shows the numbers `t` under `role`.
pub open spec fn shows(e: SocketEntry, t: PortTotals, role: Seq<char>) -> bool {
    &&& e.role@ == role
    &&& e.count == t.count
    &&& e.drops == t.drops
    &&& e.rx_queue == t.rx_queue
    &&& e.tx_queue == t.tx_queue
}

/// Whether a port has an entry.
pub open spec fn has_port(entries: Seq<SocketEntry>, port: u16) -> bool {
    exists|i: int| 0 <= i < entries.len() && (#[trigger] entries[i]).port == port
}

/// Whether the ports of entries ascend, so that none stands twice.
pub open spec fn ports_ascend(entries: Seq<SocketEntry>) -> bool {
    forall|i: int, j: int|
        0 <= i < j < entries.len() ==> (#[trigger] entries[i]).port < (#[trigger] entries[j]).port
}

/// Whether entries show the first `n` sockets of a reading: one entry for each
/// port on which the validator has a socket, by ascending port.
pub open spec fn lists_ports(
    entries: Seq<SocketEntry>,
    raw: Seq<RawUdpSocket>,
    inodes: Set<u64>,
    before: Map<u64, u64>,
    roles: Map<u16, Seq<char>>,
    n: int,
) -> bool {
    &&& ports_ascend(entries)
    &&& forall|i: int|
        0 <= i < entries.len() ==> {
            let e = #[trigger] entries[i];
            shows(e, port_totals(raw, inodes, before, e.port, n), role_of(roles, e.port))
        }
    &&& forall|port: u16| #[trigger]
        has_port(entries, port) <==> port_totals(raw, inodes, before, port, n).count > 0
}

/// The numbers of a port only grow with the sockets counted.
proof fn lemma_totals_grow(
    raw: Seq<RawUdpSocket>,
    inodes: Set<u64>,
    before: Map<u64, u64>,
    port: u16,
    m: int,
    n: int,
)
    requires
        0 <= m <= n,
    ensures
        ({
            let a = port_totals(raw, inodes, before, port, m);
            let b = port_totals(raw, inodes, before, port, n);
            &&& 0 <= a.count <= b.count
            &&& 0 <= a.drops <= b.drops
            &&& 0 <= a.rx_queue <= b.rx_queue
            &&& 0 <= a.tx_queue <= b.tx_queue
        }),
    decreases n,
{
    if n > 0 {
        if m == n {
            lemma_totals_grow(raw, inodes, before, port, n - 1, n - 1);
        } else {
            lemma_totals_grow(raw, inodes, before, port, m, n - 1);
        }
    }
}

/// The first entry from the left whose port is not below `port`.
fn find_port(entries: &Vec<SocketEntry>, port: u16) -> (r: usize)
    requires
        ports_ascend(entries@),
    ensures
        r <= entries@.len(),
        forall|i: int| 0 <= i < r ==> (#[trigger] entries@[i]).port < port,
        forall|i: int| r <= i < entries@.len() ==> (#[trigger] entries@[i]).port >= port,
{
    let mut i: usize = 0;
    while i < entries.len() && entries[i].port < port
        invariant
            i <= entries@.len(),
            forall|k: int| 0 <= k < i ==> (#[trigger] entries@[k]).port < port,
        decreases entries@.len() - i,
    {
        i = i + 1;
    }
    i
}

/// Looks the role of a port up.
fn find_role(roles: &HashMap<u16, String>, port: u16) -> (r: String)
    ensures
        r@ == role_of(roles_view(*roles), port),
{
    match roles.get(&port) {
        Some(s) => s.clone(),
        None => "unknown".to_string(),
    }
}

/// Adds one socket to the entry of its port, or gives false where a number
/// would no longer fit.
fn add_socket(entries: &mut Vec<SocketEntry>, at: usize, s: &RawUdpSocket, grown: u64) -> (r: bool)
    requires
        at < old(entries)@.len(),
    ensures
        r == (old(entries)@[at as int].count + 1 <= u32::MAX && old(entries)@[at as int].drops
            + grown <= u64::MAX && old(entries)@[at as int].rx_queue + s.rx_queue <= u64::MAX
            && old(entries)@[at as int].tx_queue + s.tx_queue <= u64::MAX),
        !r ==> final(entries)@ == old(entries)@,
        r ==> final(entries)@ == old(entries)@.update(
            at as int,
            (SocketEntry {
                port: old(entries)@[at as int].port,
                role: old(entries)@[at as int].role,
                count: (old(entries)@[at as int].count + 1) as u32,
                drops: (old(entries)@[at as int].drops + grown) as u64,
                rx_queue: (old(entries)@[at as int].rx_queue + s.rx_queue) as u64,
                tx_queue: (old(entries)@[at as int].tx_queue + s.tx_queue) as u64,
            }),
        ),
{
    match (
        entries[at].count.checked_add(1),
        entries[at].drops.checked_add(grown),
        entries[at].rx_queue.checked_add(s.rx_queue),
        entries[at].tx_queue.checked_add(s.tx_queue),
    ) {
        (Some(count), Some(drops), Some(rx_queue), Some(tx_queue)) => {
            entries[at].count = count;
            entries[at].drops = drops;
            entries[at].rx_queue = rx_queue;
            entries[at].tx_queue = tx_queue;
            true
        },
        _ => false,
    }
}

/// Of a port without sockets all numbers are 0.
proof fn lemma_no_sockets(
    raw: Seq<RawUdpSocket>,
    inodes: Set<u64>,
    before: Map<u64, u64>,
    port: u16,
    n: int,
)
    requires
        port_totals(raw, inodes, before, port, n).count == 0,
    ensures
        port_totals(raw, inodes, before, port, n) == (PortTotals {
            count: 0,
            drops: 0,
            rx_queue: 0,
            tx_queue: 0,
        }),
    decreases n,
{
    if n > 0 {
        lemma_totals_grow(raw, inodes, before, port, n - 1, n);
        lemma_no_sockets(raw, inodes, before, port, n - 1);
    }
}

/// Counts one socket of the validator under its port, or gives false where a
/// number of that port no longer fits.
fn count_socket(
    entries: &mut Vec<SocketEntry>,
    raw: &Vec<RawUdpSocket>,
    i: usize,
    grown: u64,
    roles: &HashMap<u16, String>,
    Ghost(inodes): Ghost<Set<u64>>,
    Ghost(before): Ghost<Map<u64, u64>>,
) -> (r: bool)
    requires
        i < raw@.len(),
        inodes.contains(raw@[i as int].inode),
        grown == drop_growth(raw@[i as int], known_drops(raw@, inodes, before, i as int)),
        lists_ports(old(entries)@, raw@, inodes, before, roles_view(*roles), i as int),
    ensures
        r ==> lists_ports(final(entries)@, raw@, inodes, before, roles_view(*roles), i + 1),
        !r ==> !all_totals_fit(raw@, inodes, before),
{
    let s = raw[i];
    let ghost was = entries@;
    let at = find_port(entries, s.port);
    proof {
        assert forall|port: u16| port != s.port implies #[trigger] port_totals(
            raw@,
            inodes,
            before,
            port,
            i + 1,
        ) == port_totals(raw@, inodes, before, port, i as int) by {}
    }
    if at < entries.len() && entries[at].port == s.port {
        let fits = add_socket(entries, at, &s, grown);
        proof {
            assert(has_port(was, s.port));
            if fits {
                assert forall|port: u16| #[trigger] has_port(entries@, port) == has_port(
                    was,
                    port,
                ) by {
                    if has_port(was, port) {
                        let k = choose|k: int| 0 <= k < was.len() && (#[trigger] was[k]).port == port;
                        assert(entries@[k].port == port);
                    }
                    if has_port(entries@, port) {
                        let k = choose|k: int|
                            0 <= k < entries@.len() && (#[trigger] entries@[k]).port == port;
                        assert(was[k].port == port);
                    }
                }
                lemma_totals_grow(raw@, inodes, before, s.port, i as int, i + 1);
            } else {
                assert(!totals_fit(port_totals(raw@, inodes, before, s.port, i + 1)));
                lemma_totals_grow(raw@, inodes, before, s.port, i + 1, raw@.len() as int);
                assert(!totals_fit(
                    port_totals(raw@, inodes, before, s.port, raw@.len() as int),
                ));
            }
        }
        fits
    } else {
        proof {
            assert(!has_port(was, s.port));
            lemma_totals_grow(raw@, inodes, before, s.port, i as int, i as int);
            lemma_no_sockets(raw@, inodes, before, s.port, i as int);
        }
        let entry = SocketEntry {
            port: s.port,
            role: find_role(roles, s.port),
            count: 1,
            drops: grown,
            rx_queue: s.rx_queue,
            tx_queue: s.tx_queue,
        };
        entries.insert(at, entry);
        proof {
            assert forall|port: u16| #[trigger] has_port(entries@, port) == (has_port(was, port)
                || port == s.port) by {
                if has_port(was, port) {
                    let k = choose|k: int| 0 <= k < was.len() && (#[trigger] was[k]).port == port;
                    assert(entries@[if k < at { k } else { k + 1 }] == was[k]);
                }
                if port == s.port {
                    assert(entries@[at as int].port == port);
                }
                if has_port(entries@, port) && port != s.port {
                    let k = choose|k: int|
                        0 <= k < entries@.len() && (#[trigger] entries@[k]).port == port;
                    assert(entries@[k] == was[if k < at { k } else { k - 1 }]);
                }
            }
            assert forall|k: int| 0 <= k < entries@.len() implies ({
                let e = #[trigger] entries@[k];
                shows(
                    e,
                    port_totals(raw@, inodes, before, e.port, i + 1),
                    role_of(roles_view(*roles), e.port),
                )
            }) by {
                if k < at {
                    assert(entries@[k] == was[k]);
                } else if k > at {
                    assert(entries@[k] == was[k - 1]);
                }
            }
        }
        true
    }
}

// ---- tracker ----

/// Follows the sockets of the validator from sample to sample. The process, its
/// open files and the roles are looked up on a slower timer than the samples.
pub struct SocketTracker {
    pid_override: Option<u32>,
    pid: Option<u32>,
    fd_inodes: HashSet<u64>,
    port_roles: HashMap<u16, String>,
    prev_drops: HashMap<u64, u64>,
    fd_refresh_secs: u64,
    last_fd_refresh: Option<u64>,
    ledger: Option<String>,
    last_err: Option<String>,
}

/// What a tracker knows.
#[verifier::ext_equal]
pub struct SocketState {
    pub pid_override: Option<u32>,
    pub pid: Option<u32>,
    /// The inodes of the sockets that the validator holds open.
    pub inodes: Set<u64>,
    pub roles: Map<u16, Seq<char>>,
    /// The drops last seen of each socket, by inode.
    pub known: Map<u64, u64>,
    pub refresh_secs: u64,
    pub refreshed_at: Option<u64>,
    pub ledger: Option<Seq<char>>,
    pub last_err: Option<Seq<char>>,
}

/// Whether the lookups have to be made again: they never were, or the interval
/// has run out. Times are in nanoseconds.
pub open spec fn refresh_due(s: SocketState, now: u64) -> bool {
    match s.refreshed_at {
        None => true,
        Some(t) => now - t > s.refresh_secs * 1_000_000_000,
    }
}

/// What came of asking for the roles.
pub open spec fn discovery_view(d: Option<Result<HashMap<u16, String>, String>>) -> Option<
    Result<Map<u16, Seq<char>>, Seq<char>>,
> {
    match d {
        None => None,
        Some(Ok(m)) => Some(Ok(roles_view(m))),
        Some(Err(e)) => Some(Err(e@)),
    }
}

/// Whether the roles can be asked for: the process and its ledger are known.
pub open spec fn roles_reachable(s: SocketState, found: Option<u32>) -> bool {
    found is Some && s.ledger is Some
}

/// What is known after a lookup at `now` that found the process `found`, the
/// open files `targets` and the roles `discovered`. A process that changed makes
/// the drops seen so far meaningless; roles that could not be asked for stay.
pub open spec fn after_refresh(
    s: SocketState,
    found: Option<u32>,
    targets: Seq<Seq<char>>,
    discovered: Option<Result<Map<u16, Seq<char>>, Seq<char>>>,
    now: u64,
) -> SocketState {
    let asked = if roles_reachable(s, found) {
        discovered
    } else {
        None
    };
    SocketState {
        pid: found,
        inodes: if found is Some {
            socket_inodes(targets, targets.len() as int)
        } else {
            Set::empty()
        },
        known: if found != s.pid {
            Map::empty()
        } else {
            s.known
        },
        roles: match asked {
            Some(Ok(m)) => m,
            _ => s.roles,
        },
        last_err: match asked {
            Some(Ok(_)) => None,
            Some(Err(e)) => Some(e),
            None => s.last_err,
        },
        refreshed_at: Some(now),
        ..s
    }
}

/// What there is to be said of a lookup: that the roles could not be asked for,
/// unless the same was said last.
pub open spec fn refresh_warning(
    s: SocketState,
    found: Option<u32>,
    discovered: Option<Result<Map<u16, Seq<char>>, Seq<char>>>,
) -> Option<Seq<char>> {
    match discovered {
        Some(Err(e)) if roles_reachable(s, found) && s.last_err != Some(e) => Some(
            "WARN: socket role discovery failed: "@ + e,
        ),
        _ => None,
    }
}

/// What is known after a sample of the sockets `raw`.
pub open spec fn after_sample(s: SocketState, raw: Seq<RawUdpSocket>) -> SocketState {
    if s.pid is None {
        s
    } else {
        SocketState { known: known_drops(raw, s.inodes, s.known, raw.len() as int), ..s }
    }
}

/// Whether the numbers of a sample of the sockets `raw` fit their fields.
pub open spec fn sample_fits(s: SocketState, raw: Seq<RawUdpSocket>) -> bool {
    s.pid is Some ==> all_totals_fit(raw, s.inodes, s.known)
}

/// Whether `x` is the sample of the sockets `raw`: nothing where there is no
/// process, else its ports.
pub open spec fn is_socket_sample(s: SocketState, raw: Seq<RawUdpSocket>, x: SocketSample) -> bool {
    &&& x.pid == s.pid
    &&& match s.pid {
        None => x.sockets@.len() == 0,
        Some(_) => lists_ports(
            x.sockets@,
            raw,
            s.inodes,
            s.known,
            s.roles,
            raw.len() as int,
        ),
    }
}

impl View for SocketTracker {
    type V = SocketState;

    closed spec fn view(&self) -> SocketState {
        SocketState {
            pid_override: self.pid_override,
            pid: self.pid,
            inodes: self.fd_inodes@,
            roles: roles_view(self.port_roles),
            known: self.prev_drops@,
            refresh_secs: self.fd_refresh_secs,
            refreshed_at: self.last_fd_refresh,
            ledger: option_text(self.ledger),
            last_err: option_text(self.last_err),
        }
    }
}

impl SocketTracker {
    /// A tracker that has looked nothing up yet. The interval is at least one
    /// second.
    pub fn new(pid_override: Option<u32>, fd_refresh_secs: u64, ledger: Option<String>) -> (r:
        SocketTracker)
        ensures
            r@ == (SocketState {
                pid_override,
                pid: None,
                inodes: Set::empty(),
                roles: Map::empty(),
                known: Map::empty(),
                refresh_secs: if fd_refresh_secs == 0 {
                    1
                } else {
                    fd_refresh_secs
                },
                refreshed_at: None,
                ledger: option_text(ledger),
                last_err: None,
            }),
    {
        let r = SocketTracker {
            pid_override,
            pid: None,
            fd_inodes: HashSet::new(),
            port_roles: HashMap::new(),
            prev_drops: HashMap::new(),
            fd_refresh_secs: if fd_refresh_secs == 0 {
                1
            } else {
                fd_refresh_secs
            },
            last_fd_refresh: None,
            ledger,
            last_err: None,
        };
        assert(r@.roles =~= Map::empty());
        r
    }

    /// The process that was asked for.
    pub fn pid_override(&self) -> (r: Option<u32>)
        ensures
            r == self@.pid_override,
    {
        self.pid_override
    }

    /// The ledger, by which the roles are asked for.
    pub fn ledger(&self) -> (r: Option<&str>)
        ensures
            (match r {
                Some(l) => Some(l@),
                None => None,
            }) == self@.ledger,
    {
        match &self.ledger {
            Some(l) => Some(l.as_str()),
            None => None,
        }
    }

    /// Tells whether a lookup is due before the next sample.
    pub fn needs_refresh(&self, now_ns: u64) -> (r: bool)
        ensures
            r == refresh_due(self@, now_ns),
    {
        match self.last_fd_refresh {
            None => true,
            Some(t) => now_ns.saturating_sub(t) as u128 > self.fd_refresh_secs as u128
                * 1_000_000_000u128,
        }
    }

    /// Takes in what a lookup found, and gives what there is to be said of it.
    /// Roles are taken only where the process and the ledger are known.
    pub fn refresh(
        &mut self,
        found: Option<u32>,
        targets: &Vec<String>,
        discovered: Option<Result<HashMap<u16, String>, String>>,
        now_ns: u64,
    ) -> (r: Option<String>)
        ensures
            final(self)@ == after_refresh(
                old(self)@,
                found,
                strings_view(targets@),
                discovery_view(discovered),
                now_ns,
            ),
            option_text(r) == refresh_warning(old(self)@, found, discovery_view(discovered)),
    {
        let changed = match (found, self.pid) {
            (Some(a), Some(b)) => a != b,
            (None, None) => false,
            _ => true,
        };
        if changed {
            self.prev_drops = HashMap::new();
        }
        self.pid = found;
        self.fd_inodes = match found {
            Some(_) => walk_fd_inodes(targets),
            None => HashSet::new(),
        };
        self.last_fd_refresh = Some(now_ns);
        if found.is_none() || self.ledger.is_none() {
            return None;
        }
        match discovered {
            None => None,
            Some(Ok(roles)) => {
                self.port_roles = roles;
                self.last_err = None;
                None
            },
            Some(Err(e)) => {
                let said = match &self.last_err {
                    Some(l) => same_text(l.as_str(), e.as_str()),
                    None => false,
                };
                if said {
                    return None;
                }
                let mut warning = "WARN: socket role discovery failed: ".to_string();
                warning.append(e.as_str());
                self.last_err = Some(e);
                Some(warning)
            },
        }
    }

    /// Takes a sample of the sockets `raw`, or gives `None` where a number of a
    /// port does not fit its field; what is known of the drops is the same
    /// either way.
    pub fn checked_sample(&mut self, raw: &Vec<RawUdpSocket>) -> (r: Option<SocketSample>)
        ensures
            final(self)@ == after_sample(old(self)@, raw@),
            r is Some <==> sample_fits(old(self)@, raw@),
            r matches Some(x) ==> is_socket_sample(old(self)@, raw@, x),
    {
        let ghost s = self@;
        if self.pid.is_none() {
            return Some(SocketSample { pid: None, sockets: Vec::new() });
        }
        let mut entries: Vec<SocketEntry> = Vec::new();
        let mut fits = true;
        let mut i: usize = 0;
        assert forall|port: u16| !(#[trigger] has_port(entries@, port)) by {}
        while i < raw.len()
            invariant
                i <= raw@.len(),
                s.pid is Some,
                self@ == (SocketState { known: known_drops(raw@, s.inodes, s.known, i as int), ..s }),
                fits ==> lists_ports(entries@, raw@, s.inodes, s.known, s.roles, i as int),
                !fits ==> !all_totals_fit(raw@, s.inodes, s.known),
            decreases raw@.len() - i,
        {
            let sock = raw[i];
            if self.fd_inodes.contains(&sock.inode) {
                let prev = self.prev_drops.insert(sock.inode, sock.drops);
                if fits {
                    let grown = match prev {
                        Some(p) => sock.drops.saturating_sub(p),
                        None => 0,
                    };
                    fits = count_socket(
                        &mut entries,
                        raw,
                        i,
                        grown,
                        &self.port_roles,
                        Ghost(s.inodes),
                        Ghost(s.known),
                    );
                }
            } else if fits {
                proof {
                    assert forall|port: u16| #[trigger] port_totals(
                        raw@,
                        s.inodes,
                        s.known,
                        port,
                        i + 1,
                    ) == port_totals(raw@, s.inodes, s.known, port, i as int) by {}
                }
            }
            i = i + 1;
        }
        if fits {
            proof {
                assert forall|port: u16| totals_fit(
                    #[trigger] port_totals(raw@, s.inodes, s.known, port, raw@.len() as int),
                ) by {
                    lemma_totals_grow(raw@, s.inodes, s.known, port, 0, raw@.len() as int);
                    if has_port(entries@, port) {
                        let k = choose|k: int|
                            0 <= k < entries@.len() && (#[trigger] entries@[k]).port == port;
                        assert(entries@[k].port == port);
                    } else {
                        lemma_no_sockets(raw@, s.inodes, s.known, port, raw@.len() as int);
                    }
                }
            }
            Some(SocketSample { pid: self.pid, sockets: entries })
        } else {
            None
        }
    }

    /// Takes a sample of the sockets `raw`.
    pub fn sample(&mut self, raw: &Vec<RawUdpSocket>) -> (r: SocketSample)
        requires
            sample_fits(old(self)@, raw@),
        ensures
            final(self)@ == after_sample(old(self)@, raw@),
            is_socket_sample(old(self)@, raw@, r),
    {
        match self.checked_sample(raw) {
            Some(x) => x,
            None => SocketSample { pid: None, sockets: Vec::new() },
        }
    }
}

// ---- what holds of all samples ----

/// Whether no two sockets of a reading that belong to the validator share an
/// inode.
pub open spec fn inodes_distinct(raw: Seq<RawUdpSocket>, inodes: Set<u64>) -> bool {
    forall|i: int, j: int|
        0 <= i < j < raw.len() && inodes.contains(raw[i].inode) ==> (#[trigger] raw[i]).inode != (
        #[trigger] raw[j]).inode
}

proof fn lemma_known_apart(
    raw: Seq<RawUdpSocket>,
    inodes: Set<u64>,
    before: Map<u64, u64>,
    inode: u64,
    n: int,
)
    requires
        0 <= n <= raw.len(),
        forall|k: int| 0 <= k < n && inodes.contains((#[trigger] raw[k]).inode) ==> raw[k].inode != inode,
    ensures
        known_drops(raw, inodes, before, n).contains_key(inode) == before.contains_key(inode),
        before.contains_key(inode) ==> known_drops(raw, inodes, before, n)[inode] == before[inode],
    decreases n,
{
    if n > 0 {
        lemma_known_apart(raw, inodes, before, inode, n - 1);
    }
}

proof fn lemma_known_after(
    raw: Seq<RawUdpSocket>,
    inodes: Set<u64>,
    before: Map<u64, u64>,
    i: int,
    n: int,
)
    requires
        0 <= i < n <= raw.len(),
        inodes.contains(raw[i].inode),
        inodes_distinct(raw, inodes),
    ensures
        known_drops(raw, inodes, before, n).contains_key(raw[i].inode),
        known_drops(raw, inodes, before, n)[raw[i].inode] == raw[i].drops,
    decreases n,
{
    if i < n - 1 {
        lemma_known_after(raw, inodes, before, i, n - 1);
        assert(raw[i].inode != raw[n - 1].inode);
    }
}

/// A sample measures from the one before it: of a socket that the validator
/// held, and still holds, the next sample counts by how much its drops exceed
/// those of this one.
pub proof fn law_sample_measures_from_the_last(
    s: SocketState,
    raw: Seq<RawUdpSocket>,
    i: int,
    later: RawUdpSocket,
)
    requires
        s.pid is Some,
        inodes_distinct(raw, s.inodes),
        0 <= i < raw.len(),
        s.inodes.contains(raw[i].inode),
        later.inode == raw[i].inode,
    ensures
        drop_growth(later, after_sample(s, raw).known) == if later.drops > raw[i].drops {
            later.drops - raw[i].drops
        } else {
            0
        },
{
    lemma_known_after(raw, s.inodes, s.known, i, raw.len() as int);
}

/// Sockets seen for the first time show no drops: where none of a reading is
/// known yet, no port has any.
pub proof fn law_first_sight_shows_no_drops(s: SocketState, raw: Seq<RawUdpSocket>, port: u16)
    requires
        inodes_distinct(raw, s.inodes),
        forall|i: int| 0 <= i < raw.len() && s.inodes.contains((#[trigger] raw[i]).inode)
            ==> !s.known.contains_key(raw[i].inode),
    ensures
        port_totals(raw, s.inodes, s.known, port, raw.len() as int).drops == 0,
{
    lemma_first_sight(raw, s.inodes, s.known, port, raw.len() as int);
}

proof fn lemma_first_sight(
    raw: Seq<RawUdpSocket>,
    inodes: Set<u64>,
    before: Map<u64, u64>,
    port: u16,
    n: int,
)
    requires
        0 <= n <= raw.len(),
        inodes_distinct(raw, inodes),
        forall|i: int| 0 <= i < raw.len() && inodes.contains((#[trigger] raw[i]).inode)
            ==> !before.contains_key(raw[i].inode),
    ensures
        port_totals(raw, inodes, before, port, n).drops == 0,
    decreases n,
{
    if n > 0 {
        lemma_first_sight(raw, inodes, before, port, n - 1);
        if inodes.contains(raw[n - 1].inode) {
            lemma_known_apart(raw, inodes, before, raw[n - 1].inode, n - 1);
        }
    }
}

/// A restart starts over: after a lookup that found another process no drops
/// are known, so that the next sample shows none.
pub proof fn law_restart_starts_over(
    s: SocketState,
    found: Option<u32>,
    targets: Seq<Seq<char>>,
    discovered: Option<Result<Map<u16, Seq<char>>, Seq<char>>>,
    now: u64,
    raw: Seq<RawUdpSocket>,
    port: u16,
)
    requires
        found != s.pid,
        inodes_distinct(raw, after_refresh(s, found, targets, discovered, now).inodes),
    ensures
        ({
            let t = after_refresh(s, found, targets, discovered, now);
            &&& t.known.is_empty()
            &&& port_totals(raw, t.inodes, t.known, port, raw.len() as int).drops == 0
        }),
{
    let t = after_refresh(s, found, targets, discovered, now);
    law_first_sight_shows_no_drops(t, raw, port);
}

/// Sockets of other processes do not count: a port on which the validator has
/// no socket has no numbers, and by that no entry.
pub proof fn law_foreign_sockets_do_not_count(
    raw: Seq<RawUdpSocket>,
    inodes: Set<u64>,
    before: Map<u64, u64>,
    port: u16,
    n: int,
)
    requires
        0 <= n <= raw.len(),
        forall|i: int| 0 <= i < n && inodes.contains((#[trigger] raw[i]).inode) ==> raw[i].port != port,
    ensures
        port_totals(raw, inodes, before, port, n) == (PortTotals {
            count: 0,
            drops: 0,
            rx_queue: 0,
            tx_queue: 0,
        }),
    decreases n,
{
    if n > 0 {
        law_foreign_sockets_do_not_count(raw, inodes, before, port, n - 1);
    }
}

/// A port with one socket shows the numbers of that socket, and its drops since
/// they were last known, unless an earlier line of the reading has the same inode:
/// then they are measured from that line.
pub proof fn law_lone_socket_is_its_port(
    raw: Seq<RawUdpSocket>,
    inodes: Set<u64>,
    before: Map<u64, u64>,
    i: int,
    n: int,
)
    requires
        0 <= i < n <= raw.len(),
        inodes.contains(raw[i].inode),
        forall|k: int|
            0 <= k < n && k != i && inodes.contains((#[trigger] raw[k]).inode) ==> raw[k].port
                != raw[i].port,
    ensures
        port_totals(raw, inodes, before, raw[i].port, n) == (PortTotals {
            count: 1,
            drops: drop_growth(raw[i], known_drops(raw, inodes, before, i)),
            rx_queue: raw[i].rx_queue as int,
            tx_queue: raw[i].tx_queue as int,
        }),
        (forall|k: int| 0 <= k < i ==> (#[trigger] raw[k]).inode != raw[i].inode) ==> drop_growth(
            raw[i],
            known_drops(raw, inodes, before, i),
        ) == drop_growth(raw[i], before),
    decreases n,
{
    if i < n - 1 {
        law_lone_socket_is_its_port(raw, inodes, before, i, n - 1);
    } else {
        law_foreign_sockets_do_not_count(raw, inodes, before, raw[i].port, i);
        if forall|k: int| 0 <= k < i ==> (#[trigger] raw[k]).inode != raw[i].inode {
            lemma_known_apart(raw, inodes, before, raw[i].inode, i);
        }
    }
}

/// Roles are not lost to a failure: a lookup that could not ask for them keeps
/// the last known ones, and the same failure is reported once.
pub proof fn law_failed_discovery_keeps_roles(
    s: SocketState,
    found: Option<u32>,
    targets: Seq<Seq<char>>,
    e: Seq<char>,
    now: u64,
)
    ensures
        ({
            let failed = Some(Err::<Map<u16, Seq<char>>, Seq<char>>(e));
            let t = after_refresh(s, found, targets, failed, now);
            &&& t.roles == s.roles
            &&& refresh_warning(t, found, failed) is None
        }),
{
}

/// What the sockets of a list amount to by some measure.
pub open spec fn sum_by(ss: Seq<RawUdpSocket>, f: spec_fn(RawUdpSocket) -> int) -> int
    decreases ss.len(),
{
    if ss.len() == 0 {
        0
    } else {
        sum_by(ss.drop_last(), f) + f(ss.last())
    }
}

proof fn lemma_totals_are_sums(
    raw: Seq<RawUdpSocket>,
    inodes: Set<u64>,
    before: Map<u64, u64>,
    port: u16,
    n: int,
    mine: spec_fn(RawUdpSocket) -> bool,
    grown: spec_fn(RawUdpSocket) -> int,
    rx: spec_fn(RawUdpSocket) -> int,
    tx: spec_fn(RawUdpSocket) -> int,
)
    requires
        0 <= n <= raw.len(),
        inodes_distinct(raw, inodes),
        forall|r: RawUdpSocket| #[trigger]
            mine(r) == (inodes.contains(r.inode) && r.port == port),
        forall|r: RawUdpSocket| #[trigger] grown(r) == drop_growth(r, before),
        forall|r: RawUdpSocket| #[trigger] rx(r) == r.rx_queue,
        forall|r: RawUdpSocket| #[trigger] tx(r) == r.tx_queue,
    ensures
        ({
            let t = port_totals(raw, inodes, before, port, n);
            let ss = raw.take(n).filter(mine);
            &&& t.count == ss.len()
            &&& t.drops == sum_by(ss, grown)
            &&& t.rx_queue == sum_by(ss, rx)
            &&& t.tx_queue == sum_by(ss, tx)
        }),
    decreases n,
{
    reveal_with_fuel(Seq::filter, 1);
    if n > 0 {
        lemma_totals_are_sums(raw, inodes, before, port, n - 1, mine, grown, rx, tx);
        assert(raw.take(n).drop_last() =~= raw.take(n - 1));
        assert(raw.take(n).last() == raw[n - 1]);
        if mine(raw[n - 1]) {
            let ss = raw.take(n - 1).filter(mine);
            assert(ss.push(raw[n - 1]).drop_last() =~= ss);
            assert forall|k: int|
                0 <= k < n - 1 && inodes.contains((#[trigger] raw[k]).inode) implies raw[k].inode
                != raw[n - 1].inode by {}
            lemma_known_apart(raw, inodes, before, raw[n - 1].inode, n - 1);
        }
    }
}

/// An entry shows all sockets of the validator on its port, however many they are:
/// their number, the sum of what the drops of each exceed the last known ones by (a
/// socket not known yet adds none), and the sums of their queues.
pub proof fn law_entry_sums_all_sockets_of_its_port(
    s: SocketState,
    raw: Seq<RawUdpSocket>,
    x: SocketSample,
    i: int,
)
    requires
        s.pid is Some,
        is_socket_sample(s, raw, x),
        inodes_distinct(raw, s.inodes),
        0 <= i < x.sockets@.len(),
    ensures
        ({
            let e = x.sockets@[i];
            let ss = raw.filter(
                |r: RawUdpSocket| s.inodes.contains(r.inode) && r.port == e.port,
            );
            &&& e.count == ss.len()
            &&& e.drops == sum_by(
                ss,
                |r: RawUdpSocket|
                    if s.known.contains_key(r.inode) && r.drops >= s.known[r.inode] {
                        r.drops - s.known[r.inode]
                    } else {
                        0
                    },
            )
            &&& e.rx_queue == sum_by(ss, |r: RawUdpSocket| r.rx_queue as int)
            &&& e.tx_queue == sum_by(ss, |r: RawUdpSocket| r.tx_queue as int)
        }),
{
    let e = x.sockets@[i];
    let mine = |r: RawUdpSocket| s.inodes.contains(r.inode) && r.port == e.port;
    let grown = |r: RawUdpSocket|
        if s.known.contains_key(r.inode) && r.drops >= s.known[r.inode] {
            r.drops - s.known[r.inode]
        } else {
            0
        };
    let rx = |r: RawUdpSocket| r.rx_queue as int;
    let tx = |r: RawUdpSocket| r.tx_queue as int;
    lemma_totals_are_sums(raw, s.inodes, s.known, e.port, raw.len() as int, mine, grown, rx, tx);
    assert(raw.take(raw.len() as int) =~= raw);
}

/// A sample has an entry for a port if and only if a line of the reading is a socket
/// of the validator on that port; the ports ascend, and the role of each is the one
/// looked up, or `unknown`.
pub proof fn law_entries_are_the_ports_in_use(
    s: SocketState,
    raw: Seq<RawUdpSocket>,
    x: SocketSample,
    port: u16,
)
    requires
        s.pid is Some,
        is_socket_sample(s, raw, x),
    ensures
        x.pid == s.pid,
        (exists|i: int| 0 <= i < x.sockets@.len() && (#[trigger] x.sockets@[i]).port == port) <==> (
        exists|k: int|
            0 <= k < raw.len() && s.inodes.contains((#[trigger] raw[k]).inode) && raw[k].port
                == port),
        forall|i: int, j: int|
            0 <= i < j < x.sockets@.len() ==> (#[trigger] x.sockets@[i]).port < (
            #[trigger] x.sockets@[j]).port,
        forall|i: int|
            0 <= i < x.sockets@.len() ==> (#[trigger] x.sockets@[i]).role@ == (
            if s.roles.contains_key(x.sockets@[i].port) {
                s.roles[x.sockets@[i].port]
            } else {
                "unknown"@
            }),
{
    let n = raw.len() as int;
    assert(has_port(x.sockets@, port) == (port_totals(raw, s.inodes, s.known, port, n).count > 0));
    lemma_totals_grow(raw, s.inodes, s.known, port, n, n);
    if exists|k: int|
        0 <= k < raw.len() && s.inodes.contains((#[trigger] raw[k]).inode) && raw[k].port == port {
        let k = choose|k: int|
            0 <= k < raw.len() && s.inodes.contains((#[trigger] raw[k]).inode) && raw[k].port
                == port;
        lemma_totals_grow(raw, s.inodes, s.known, port, k, k);
        lemma_totals_grow(raw, s.inodes, s.known, port, k + 1, n);
    } else {
        law_foreign_sockets_do_not_count(raw, s.inodes, s.known, port, n);
    }
}

/// One more socket of the validator at the end of a reading raises the numbers of its
/// port by its own, whatever the count so far, and those of no other port; a socket of
/// another process raises none.
pub proof fn law_one_more_socket(
    raw: Seq<RawUdpSocket>,
    inodes: Set<u64>,
    before: Map<u64, u64>,
    r: RawUdpSocket,
    port: u16,
)
    requires
        forall|k: int| 0 <= k < raw.len() ==> (#[trigger] raw[k]).inode != r.inode,
    ensures
        ({
            let a = port_totals(raw, inodes, before, port, raw.len() as int);
            let b = port_totals(raw.push(r), inodes, before, port, (raw.len() + 1) as int);
            if inodes.contains(r.inode) && r.port == port {
                &&& b.count == a.count + 1
                &&& b.rx_queue == a.rx_queue + r.rx_queue
                &&& b.tx_queue == a.tx_queue + r.tx_queue
                &&& before.contains_key(r.inode) && before[r.inode] <= r.drops ==> b.drops == a.drops
                    + (r.drops - before[r.inode])
                &&& !before.contains_key(r.inode) || before[r.inode] > r.drops ==> b.drops
                    == a.drops
            } else {
                b == a
            }
        }),
{
    let n = raw.len() as int;
    lemma_totals_prefix(raw, raw.push(r), inodes, before, port, n);
    lemma_known_apart(raw.push(r), inodes, before, r.inode, n);
}

proof fn lemma_totals_prefix(
    a: Seq<RawUdpSocket>,
    b: Seq<RawUdpSocket>,
    inodes: Set<u64>,
    before: Map<u64, u64>,
    port: u16,
    n: int,
)
    requires
        0 <= n <= a.len() <= b.len(),
        forall|k: int| 0 <= k < n ==> a[k] == b[k],
    ensures
        port_totals(a, inodes, before, port, n) == port_totals(b, inodes, before, port, n),
        known_drops(a, inodes, before, n) == known_drops(b, inodes, before, n),
    decreases n,
{
    if n > 0 {
        lemma_totals_prefix(a, b, inodes, before, port, n - 1);
    }
}

// ---- what holds of the tables and the lookups ----

/// The columns of a line of the socket table: the port ends word 1 in hexadecimal, behind
/// its last colon; word 4 has the transmit queue before and the receive queue behind its
/// first colon, in hexadecimal; word 9 is the inode and word 12 the drops, in decimal. A
/// queue or a drop count that is no number is 0; a line without a port, the colon of the
/// queues or an inode is passed over.
pub proof fn law_udp_columns(line: Seq<char>)
    ensures
        ({
            let f = words_of(line);
            &&& udp_row(line) is Some <==> {
                &&& f.len() >= 13
                &&& (cut_last(f[1], ':') matches Some((_, p)) && uint_value(p, 16, 65535) is Ok)
                &&& f[4].contains(':')
                &&& uint_value(f[9], 10, u64::MAX as int) is Ok
            }
            &&& udp_row(line) matches Some(r) ==> {
                &&& (cut_last(f[1], ':') matches Some((_, p)) && uint_value(p, 16, 65535) == Ok::<
                    int,
                    IntError,
                >(r.port as int))
                &&& (cut_first(f[4], ':') matches Some((tx, rx)) && (match uint_value(
                    tx,
                    16,
                    u64::MAX as int,
                ) {
                    Ok(v) => r.tx_queue == v,
                    Err(_) => r.tx_queue == 0,
                }) && (match uint_value(rx, 16, u64::MAX as int) {
                    Ok(v) => r.rx_queue == v,
                    Err(_) => r.rx_queue == 0,
                }))
                &&& uint_value(f[9], 10, u64::MAX as int) == Ok::<int, IntError>(r.inode as int)
                &&& (match uint_value(f[12], 10, u64::MAX as int) {
                    Ok(v) => r.drops == v,
                    Err(_) => r.drops == 0,
                })
            }
        }),
{
    let f = words_of(line);
    if f.len() >= 13 {
        law_first_cut_is_at_the_first(f[4], ':');
        lemma_uint_bound(f[9], 10, u64::MAX as int);
        lemma_uint_bound(f[12], 10, u64::MAX as int);
        match cut_last(f[1], ':') {
            Some((_, p)) => {
                lemma_uint_bound(p, 16, 65535);
            },
            None => {},
        }
        match cut_first(f[4], ':') {
            Some((tx, rx)) => {
                lemma_uint_bound(tx, 16, u64::MAX as int);
                lemma_uint_bound(rx, 16, u64::MAX as int);
            },
            None => {},
        }
    }
}

/// Every line of a table behind its header adds its socket, if it has one, behind the
/// others; both tables count, and one that cannot be read takes nothing from the other.
pub proof fn law_every_line_of_both_tables_counts(
    ls: Seq<Seq<char>>,
    n: int,
    a: Seq<char>,
    b: Seq<char>,
    e: Seq<char>,
)
    requires
        1 <= n,
    ensures
        udp_rows(ls, 1).len() == 0,
        udp_row(ls[n]) matches Some(r) ==> udp_rows(ls, n + 1) == udp_rows(ls, n).push(r),
        udp_row(ls[n]) is None ==> udp_rows(ls, n + 1) == udp_rows(ls, n),
        ({
            let x = udp_rows(lines_of(a), lines_of(a).len() as int);
            let y = udp_rows(lines_of(b), lines_of(b).len() as int);
            let failed = Err::<Seq<char>, Seq<char>>(e);
            &&& all_sockets(Ok(a), Ok(b)) == x + y
            &&& all_sockets(failed, Ok(b)) == y
            &&& all_sockets(Ok(a), failed) == x
            &&& all_sockets(failed, failed).len() == 0
        }),
{
    let x = udp_rows(lines_of(a), lines_of(a).len() as int);
    let y = udp_rows(lines_of(b), lines_of(b).len() as int);
    assert(Seq::<RawUdpSocket>::empty() + y =~= y);
    assert(x + Seq::<RawUdpSocket>::empty() =~= x);
}

/// A lookup is due before the first sample, and then whenever more than the interval, in
/// seconds, has gone by.
pub proof fn law_lookup_is_due_after_the_interval(s: SocketState, at: u64, now: u64)
    requires
        at <= now,
    ensures
        s.refreshed_at == Some(at) ==> (refresh_due(s, now) <==> now - at > s.refresh_secs
            * 1_000_000_000),
        s.refreshed_at is None ==> refresh_due(s, now),
{
}

/// A lookup takes in what it found: the process, the sockets that it holds open, and the
/// time; the settings stay. The drops known stay where the process is the same.
pub proof fn law_lookup_takes_in_what_it_found(
    s: SocketState,
    found: Option<u32>,
    targets: Seq<Seq<char>>,
    discovered: Option<Result<Map<u16, Seq<char>>, Seq<char>>>,
    now: u64,
    inode: u64,
)
    ensures
        ({
            let t = after_refresh(s, found, targets, discovered, now);
            &&& t.pid == found
            &&& t.refreshed_at == Some(now)
            &&& t.pid_override == s.pid_override && t.ledger == s.ledger && t.refresh_secs
                == s.refresh_secs
            &&& found == s.pid ==> t.known == s.known
            &&& found is None ==> !t.inodes.contains(inode)
            &&& found is Some ==> (t.inodes.contains(inode) <==> exists|k: int|
                0 <= k < targets.len() && socket_inode(#[trigger] targets[k]) == Some(inode))
        }),
{
    law_every_open_socket_counts(targets, targets.len() as int, inode);
}

/// Roles that were found take the place of those known, where the process and the ledger
/// are known; else nothing about roles changes.
pub proof fn law_found_roles_are_taken(
    s: SocketState,
    found: Option<u32>,
    targets: Seq<Seq<char>>,
    roles: Map<u16, Seq<char>>,
    e: Seq<char>,
    now: u64,
)
    ensures
        ({
            let ok = Some(Ok::<Map<u16, Seq<char>>, Seq<char>>(roles));
            let failed = Some(Err::<Map<u16, Seq<char>>, Seq<char>>(e));
            let t = after_refresh(s, found, targets, ok, now);
            if found is Some && s.ledger is Some {
                &&& t.roles == roles && t.last_err is None
                &&& refresh_warning(s, found, ok) is None
                &&& after_refresh(s, found, targets, failed, now).last_err == Some(e)
                &&& s.last_err != Some(e) ==> (refresh_warning(s, found, failed) matches Some(w)
                    && labelled(w, "socket role discovery failed: "@, e, Seq::empty()))
            } else {
                &&& t.roles == s.roles && t.last_err == s.last_err
                &&& refresh_warning(s, found, failed) is None
            }
        }),
{
    reveal_strlit("WARN: socket role discovery failed: ");
    reveal_strlit("socket role discovery failed: ");
    reveal_strlit("WARN: ");
    let none = Seq::<char>::empty();
    let l = "socket role discovery failed: "@;
    assert("WARN: socket role discovery failed: "@ =~= "WARN: "@ + l);
    let w = "WARN: socket role discovery failed: "@ + e;
    assert(w =~= "WARN: "@ + (l + e + none) + none);
    lemma_occurs(w, "WARN: "@, l + e + none, none);
}

/// A sample changes what is known of the drops of the validator's sockets in the reading,
/// and of no others; without a process it changes nothing.
pub proof fn law_sample_leaves_other_sockets_alone(
    s: SocketState,
    raw: Seq<RawUdpSocket>,
    inode: u64,
)
    requires
        s.pid is None || (forall|k: int|
            0 <= k < raw.len() && s.inodes.contains((#[trigger] raw[k]).inode) ==> raw[k].inode
                != inode),
    ensures
        ({
            let t = after_sample(s, raw);
            &&& t.known.contains_key(inode) == s.known.contains_key(inode)
            &&& s.known.contains_key(inode) ==> t.known[inode] == s.known[inode]
            &&& t == (SocketState { known: t.known, ..s })
        }),
{
    if s.pid is Some {
        lemma_known_apart(raw, s.inodes, s.known, inode, raw.len() as int);
    }
}

/// A sample is given where the number of sockets of each port has 32 bits and the sums
/// over them have 64, and nowhere else.
pub proof fn law_sample_is_given_where_the_sums_fit(t: PortTotals)
    ensures
        totals_fit(t) <==> t.count < 0x1_0000_0000 && t.drops < 0x1_0000_0000_0000_0000
            && t.rx_queue < 0x1_0000_0000_0000_0000 && t.tx_queue < 0x1_0000_0000_0000_0000,
{
}

/// Without a process there is no sample but an empty one.
pub proof fn law_no_process_no_sockets(s: SocketState, raw: Seq<RawUdpSocket>, x: SocketSample)
    requires
        s.pid is None,
    ensures
        sample_fits(s, raw),
        is_socket_sample(s, raw, x) <==> x.pid is None && x.sockets@.len() == 0,
{
}

}
