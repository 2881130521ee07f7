//! Network ingest over a window: what the counters of layers 1 to 3 grew by,
//! the state of the interface, and where the files with the counters lie.
//!
//! Where a counter went backwards (reboot, reset of the interface), growth means
//! nothing, and the window says so.

use std::collections::HashMap;

use vstd::prelude::*;

use crate::counters::{
    raw_value, read_raw, ring_path, ring_path_text, NetFiles, Raw, RawView,
};
use crate::number::{decimal, law_decimal_reads_back, lemma_decimal_chars};
use crate::source::{decode, decoded, text_view, CommandOutput, FileText};
use crate::table::StatTable;
use crate::text::{
    chars_of, contains, cut_first, is_space, is_text, labelled, law_first_cut_is_at_the_first,
    lemma_occurs, lemma_position_at, lemma_trim_keeps, lines, lines_of, occurs_in, parse_uint,
    same_text, split_first, stands_at, string_of, trim, trimmed, uint_value, views, words, words_of,
};

verus! {

broadcast use vstd::std_specs::hash::group_hash_axioms;

// ---- paths and the default interface ----

/// The files that must be readable before a run, in lexicographic order.
pub open spec fn check_path_texts(iface: Seq<char>) -> Seq<Seq<char>> {
    seq![
        "/proc/net/snmp"@,
        "/proc/net/softnet_stat"@,
        ring_path_text(iface, "rx_dropped"@),
        ring_path_text(iface, "rx_errors"@),
        ring_path_text(iface, "rx_fifo_errors"@),
        ring_path_text(iface, "rx_missed_errors"@),
    ]
}

/// The characters of each string of a list.
pub open spec fn strings_view(v: Seq<String>) -> Seq<Seq<char>> {
    v.map_values(|s: String| s@)
}

/// Every file whose readability is to be checked before a run.
pub fn check_paths(iface: &str) -> (r: Vec<String>)
    ensures
        strings_view(r@) == check_path_texts(iface@),
{
    let mut out: Vec<String> = Vec::new();
    out.push("/proc/net/snmp".to_string());
    out.push("/proc/net/softnet_stat".to_string());
    out.push(ring_path(iface, "rx_dropped"));
    out.push(ring_path(iface, "rx_errors"));
    out.push(ring_path(iface, "rx_fifo_errors"));
    out.push(ring_path(iface, "rx_missed_errors"));
    assert(strings_view(out@) =~= check_path_texts(iface@));
    out
}

/// Whether a route line is that of the default route, all zeros in hexadecimal.
pub open spec fn is_default_route(line: Seq<char>) -> bool {
    let cols = words_of(line);
    cols.len() > 1 && cols[1] == "00000000"@
}

/// The first line from `i` on with the default route, or the end.
pub open spec fn default_route(ls: Seq<Seq<char>>, i: int) -> int
    decreases ls.len() - i,
{
    if 0 <= i < ls.len() && !is_default_route(ls[i]) {
        default_route(ls, i + 1)
    } else {
        i
    }
}

/// The interface of the default route; line 0 is a header.
pub open spec fn iface_value(file: Result<Seq<char>, Seq<char>>) -> Result<Seq<char>, Seq<char>> {
    match file {
        Err(e) => Err("route: "@ + e),
        Ok(t) => {
            let ls = lines_of(t);
            let i = default_route(ls, 1);
            if i < ls.len() {
                Ok(words_of(ls[i])[0])
            } else {
                Err("no default route found; pass --iface explicitly"@)
            }
        },
    }
}

/// Finds the primary interface in `/proc/net/route`.
pub fn detect_iface(file: &FileText) -> (r: Result<String, String>)
    ensures
        text_view(r) == iface_value(text_view(*file)),
{
    match file {
        Err(e) => {
            let mut out = "route: ".to_string();
            out.append(e.as_str());
            Err(out)
        },
        Ok(t) => {
            let chars = chars_of(t.as_str());
            let ls = lines(chars.as_slice());
            let mut i: usize = 1;
            while i < ls.len()
                invariant
                    1 <= i,
                    views(ls@) == lines_of(t@),
                    text_view(*file) == Ok::<Seq<char>, Seq<char>>(t@),
                    default_route(lines_of(t@), 1) == default_route(lines_of(t@), i as int),
                decreases ls@.len() - i,
            {
                assert(views(ls@)[i as int] == ls@[i as int]@);
                let cols = words(ls[i]);
                if cols.len() > 1 {
                    assert(views(cols@)[1] == cols@[1]@);
                    assert(views(cols@)[0] == cols@[0]@);
                    if is_text(cols[1], "00000000") {
                        return Ok(string_of(cols[0]));
                    }
                }
                i = i + 1;
            }
            Err("no default route found; pass --iface explicitly".to_string())
        },
    }
}

// ---- commands ----

/// Whether the output of `ip -d link show` tells of an attached XDP program;
/// nothing where the command could not be run or failed.
pub open spec fn xdp_value(out: Option<CommandOutput>) -> Option<bool> {
    match out {
        Some(o) if o.success => Some(occurs_in(decoded(o.stdout@), "prog/xdp"@)),
        _ => None,
    }
}

/// Tells whether a link description names an attached XDP program.
pub fn names_xdp(text: &str) -> (r: bool)
    ensures
        r == occurs_in(text@, "prog/xdp"@),
{
    let chars = chars_of(text);
    contains(chars.as_slice(), "prog/xdp")
}

/// Reads the XDP state off the output of `ip -d link show`.
pub fn detect_is_xdp(out: &Option<CommandOutput>) -> (r: Option<bool>)
    ensures
        r == xdp_value(*out),
{
    match out {
        Some(o) => {
            if !o.success {
                return None;
            }
            let text = decode(o.stdout.as_slice());
            Some(names_xdp(text.as_str()))
        },
        None => None,
    }
}

/// The name and value in a line `name: value`, where the value is a number.
pub open spec fn stat_value(line: Seq<char>) -> Option<(Seq<char>, u64)> {
    match cut_first(line, ':') {
        None => None,
        Some((name, value)) => match uint_value(trimmed(value), 10, u64::MAX as int) {
            Ok(v) => Some((trimmed(name), v as u64)),
            Err(_) => None,
        },
    }
}

/// The names and values in the lines before `n` but the first, which is a
/// header; of two values under one name the later counts.
pub open spec fn stat_values(ls: Seq<Seq<char>>, n: int) -> Map<Seq<char>, u64>
    decreases n,
{
    if n <= 1 {
        Map::empty()
    } else {
        match stat_value(ls[n - 1]) {
            Some((name, v)) => stat_values(ls, n - 1).insert(name, v),
            None => stat_values(ls, n - 1),
        }
    }
}

/// The statistics in the output of `ethtool -S`; nothing where the command
/// could not be run or failed.
pub open spec fn ethtool_value(out: Option<CommandOutput>) -> Option<Map<Seq<char>, u64>> {
    match out {
        Some(o) if o.success => {
            let ls = lines_of(decoded(o.stdout@));
            Some(stat_values(ls, ls.len() as int))
        },
        _ => None,
    }
}

/// Reads lines of names and values, passing over all others.
pub fn parse_stats(text: &str) -> (r: StatTable)
    ensures
        r.wf(),
        r@ == stat_values(lines_of(text@), lines_of(text@).len() as int),
{
    let chars = chars_of(text);
    let ls = lines(chars.as_slice());
    let mut out = StatTable::new();
    let mut i: usize = 1;
    while i < ls.len()
        invariant
            1 <= i,
            i <= ls@.len() || i == 1,
            views(ls@) == lines_of(text@),
            out.wf(),
            out@ == stat_values(lines_of(text@), i as int),
        decreases ls@.len() - i,
    {
        assert(views(ls@)[i as int] == ls@[i as int]@);
        match split_first(ls[i], ':') {
            Some((name, value)) => {
                match parse_uint(trim(value), 10, u64::MAX) {
                    Ok(v) => {
                        out.insert(string_of(trim(name)), v);
                    },
                    Err(_) => {},
                }
            },
            None => {},
        }
        i = i + 1;
    }
    out
}

/// The contents of an optional table.
pub open spec fn table_view(t: Option<StatTable>) -> Option<Map<Seq<char>, u64>> {
    match t {
        Some(t) => Some(t@),
        None => None,
    }
}

/// Reads the output of `ethtool -S` as plain names and values. The names are
/// driver-specific and not interpreted.
pub fn read_ethtool_stats(out: &Option<CommandOutput>) -> (r: Option<StatTable>)
    ensures
        table_view(r) == ethtool_value(*out),
        r is Some ==> r->0.wf(),
{
    match out {
        Some(o) => {
            if !o.success {
                return None;
            }
            let text = decode(o.stdout.as_slice());
            Some(parse_stats(text.as_str()))
        },
        None => None,
    }
}

// ---- growth over a window ----

/// What the ring counters grew by.
#[derive(Clone, Copy, Debug, PartialEq, Eq, Structural)]
pub struct RingDelta {
    pub rx_missed_errors: u64,
    pub rx_dropped: u64,
    pub rx_errors: u64,
    pub rx_fifo_errors: u64,
}

/// What the NAPI counters grew by, and the CPU whose squeezes grew most.
#[derive(Clone, Copy, Debug, PartialEq, Eq, Structural)]
pub struct SoftnetDelta {
    pub processed: u64,
    pub dropped: u64,
    pub time_squeeze: u64,
    /// The highest growth of one CPU.
    pub time_squeeze_max_cpu: u64,
    /// A CPU with that growth, or 0 where none grew.
    pub max_cpu_id: u32,
}

/// What the UDP counters grew by.
#[derive(Clone, Copy, Debug, PartialEq, Eq, Structural)]
pub struct SnmpUdpDelta {
    pub in_datagrams: u64,
    pub in_errors: u64,
    pub rcvbuf_errors: u64,
    pub sndbuf_errors: u64,
    pub no_ports: u64,
}

/// What all counters grew by over a window.
#[derive(Clone, Copy, Debug, PartialEq, Eq, Structural)]
pub struct NetDelta {
    /// A counter went backwards; all growth is given as 0.
    pub counters_reset: bool,
    pub ring: RingDelta,
    pub softnet: SoftnetDelta,
    pub snmp_udp: SnmpUdpDelta,
}

/// The sample of one window.
pub struct NetSample {
    pub iface: String,
    pub is_xdp: Option<bool>,
    pub counters_reset: bool,
    pub ring: RingDelta,
    pub softnet: SoftnetDelta,
    pub snmp_udp: SnmpUdpDelta,
    /// Whatever the driver of the NIC reports, by its own names.
    pub ethtool: StatTable,
}

/// Whether a counter went backwards from `p` to `r`.
pub open spec fn went_backwards(p: RawView, r: RawView) -> bool {
    ||| r.ring.rx_missed_errors < p.ring.rx_missed_errors
    ||| r.ring.rx_dropped < p.ring.rx_dropped
    ||| r.ring.rx_errors < p.ring.rx_errors
    ||| r.ring.rx_fifo_errors < p.ring.rx_fifo_errors
    ||| r.softnet.processed < p.softnet.processed
    ||| r.softnet.dropped < p.softnet.dropped
    ||| r.softnet.time_squeeze < p.softnet.time_squeeze
    ||| r.snmp_udp.in_datagrams < p.snmp_udp.in_datagrams
    ||| r.snmp_udp.in_errors < p.snmp_udp.in_errors
    ||| r.snmp_udp.rcvbuf_errors < p.snmp_udp.rcvbuf_errors
    ||| r.snmp_udp.sndbuf_errors < p.snmp_udp.sndbuf_errors
    ||| r.snmp_udp.no_ports < p.snmp_udp.no_ports
}

/// What the squeezes of one CPU grew by; 0 where they shrank, or where the CPU
/// is missing on either side.
pub open spec fn cpu_growth(p: Map<u32, u64>, r: Map<u32, u64>, cpu: u32) -> int {
    if p.contains_key(cpu) && r.contains_key(cpu) && r[cpu] > p[cpu] {
        r[cpu] - p[cpu]
    } else {
        0
    }
}

/// Whether `growth` is the highest growth of one CPU, and `cpu` a CPU with it,
/// or 0 where no CPU grew. Of several such CPUs any may stand there.
pub open spec fn is_busiest_cpu(
    p: Map<u32, u64>,
    r: Map<u32, u64>,
    growth: u64,
    cpu: u32,
) -> bool {
    &&& forall|c: u32| #[trigger] cpu_growth(p, r, c) <= growth
    &&& if growth == 0 {
        cpu == 0
    } else {
        cpu_growth(p, r, cpu) == growth
    }
}

/// No growth at all.
pub open spec fn no_growth() -> NetDelta {
    NetDelta {
        counters_reset: false,
        ring: RingDelta { rx_missed_errors: 0, rx_dropped: 0, rx_errors: 0, rx_fifo_errors: 0 },
        softnet: SoftnetDelta {
            processed: 0,
            dropped: 0,
            time_squeeze: 0,
            time_squeeze_max_cpu: 0,
            max_cpu_id: 0,
        },
        snmp_udp: SnmpUdpDelta {
            in_datagrams: 0,
            in_errors: 0,
            rcvbuf_errors: 0,
            sndbuf_errors: 0,
            no_ports: 0,
        },
    }
}

impl Default for RingDelta {
    /// No growth.
    fn default() -> (r: RingDelta)
        ensures
            r == no_growth().ring,
    {
        RingDelta { rx_missed_errors: 0, rx_dropped: 0, rx_errors: 0, rx_fifo_errors: 0 }
    }
}

impl Default for SoftnetDelta {
    /// No growth.
    fn default() -> (r: SoftnetDelta)
        ensures
            r == no_growth().softnet,
    {
        SoftnetDelta {
            processed: 0,
            dropped: 0,
            time_squeeze: 0,
            time_squeeze_max_cpu: 0,
            max_cpu_id: 0,
        }
    }
}

impl Default for SnmpUdpDelta {
    /// No growth.
    fn default() -> (r: SnmpUdpDelta)
        ensures
            r == no_growth().snmp_udp,
    {
        SnmpUdpDelta {
            in_datagrams: 0,
            in_errors: 0,
            rcvbuf_errors: 0,
            sndbuf_errors: 0,
            no_ports: 0,
        }
    }
}

impl Default for NetSample {
    /// A sample of no interface, in which nothing grew.
    fn default() -> (r: NetSample)
        ensures
            r.iface@ == Seq::<char>::empty(),
            r.is_xdp is None,
            !r.counters_reset,
            r.ring == no_growth().ring,
            r.softnet == no_growth().softnet,
            r.snmp_udp == no_growth().snmp_udp,
            r.ethtool.wf(),
            r.ethtool@ == Map::<Seq<char>, u64>::empty(),
    {
        NetSample {
            iface: String::new(),
            is_xdp: None,
            counters_reset: false,
            ring: RingDelta::default(),
            softnet: SoftnetDelta::default(),
            snmp_udp: SnmpUdpDelta::default(),
            ethtool: StatTable::new(),
        }
    }
}

/// Whether `d` is what the counters grew by from `p` to `r`.
pub open spec fn is_growth(p: RawView, r: RawView, d: NetDelta) -> bool {
    if went_backwards(p, r) {
        d == (NetDelta { counters_reset: true, ..no_growth() })
    } else {
        &&& !d.counters_reset
        &&& d.ring.rx_missed_errors == r.ring.rx_missed_errors - p.ring.rx_missed_errors
        &&& d.ring.rx_dropped == r.ring.rx_dropped - p.ring.rx_dropped
        &&& d.ring.rx_errors == r.ring.rx_errors - p.ring.rx_errors
        &&& d.ring.rx_fifo_errors == r.ring.rx_fifo_errors - p.ring.rx_fifo_errors
        &&& d.softnet.processed == r.softnet.processed - p.softnet.processed
        &&& d.softnet.dropped == r.softnet.dropped - p.softnet.dropped
        &&& d.softnet.time_squeeze == r.softnet.time_squeeze - p.softnet.time_squeeze
        &&& is_busiest_cpu(
            p.softnet.per_cpu,
            r.softnet.per_cpu,
            d.softnet.time_squeeze_max_cpu,
            d.softnet.max_cpu_id,
        )
        &&& d.snmp_udp.in_datagrams == r.snmp_udp.in_datagrams - p.snmp_udp.in_datagrams
        &&& d.snmp_udp.in_errors == r.snmp_udp.in_errors - p.snmp_udp.in_errors
        &&& d.snmp_udp.rcvbuf_errors == r.snmp_udp.rcvbuf_errors - p.snmp_udp.rcvbuf_errors
        &&& d.snmp_udp.sndbuf_errors == r.snmp_udp.sndbuf_errors - p.snmp_udp.sndbuf_errors
        &&& d.snmp_udp.no_ports == r.snmp_udp.no_ports - p.snmp_udp.no_ports
    }
}

/// Finds the CPU whose squeezes grew most.
fn busiest_cpu(p: &HashMap<u32, u64>, r: &HashMap<u32, u64>) -> (m: (u64, u32))
    ensures
        is_busiest_cpu(p@, r@, m.0, m.1),
{
    let mut growth: u64 = 0;
    let mut id: u32 = 0;
    for kv in it: r.iter()
        invariant
            forall|i: int|
                0 <= i < it.index() ==> cpu_growth(p@, r@, *(#[trigger] it.seq()[i]).0) <= growth,
            growth == 0 ==> id == 0,
            growth > 0 ==> cpu_growth(p@, r@, id) == growth,
            forall|i: int| #![trigger it.seq()[i]]
                0 <= i < it.seq().len() ==> r@.contains_key(*it.seq()[i].0) && r@[*it.seq()[i].0]
                    == *it.seq()[i].1,
            forall|k: u32| #[trigger] r@.contains_key(k) ==> it.seq().contains((&k, &r@[k])),
    {
        let cpu = *kv.0;
        let cur = *kv.1;
        match p.get(&cpu) {
            Some(prev) => {
                let delta = cur.saturating_sub(*prev);
                if delta > growth {
                    growth = delta;
                    id = cpu;
                }
            },
            None => {},
        }
    }
    assert forall|c: u32| #[trigger] cpu_growth(p@, r@, c) <= growth by {
        if r@.contains_key(c) {}
    }
    (growth, id)
}

/// Compares two readings.
pub fn growth(p: &Raw, r: &Raw) -> (d: NetDelta)
    ensures
        is_growth(p@, r@, d),
{
    let reset = r.ring.rx_missed_errors < p.ring.rx_missed_errors || r.ring.rx_dropped
        < p.ring.rx_dropped || r.ring.rx_errors < p.ring.rx_errors || r.ring.rx_fifo_errors
        < p.ring.rx_fifo_errors || r.softnet.processed < p.softnet.processed || r.softnet.dropped
        < p.softnet.dropped || r.softnet.time_squeeze < p.softnet.time_squeeze
        || r.snmp_udp.in_datagrams < p.snmp_udp.in_datagrams || r.snmp_udp.in_errors
        < p.snmp_udp.in_errors || r.snmp_udp.rcvbuf_errors < p.snmp_udp.rcvbuf_errors
        || r.snmp_udp.sndbuf_errors < p.snmp_udp.sndbuf_errors || r.snmp_udp.no_ports
        < p.snmp_udp.no_ports;
    if reset {
        return NetDelta {
            counters_reset: true,
            ring: RingDelta::default(),
            softnet: SoftnetDelta::default(),
            snmp_udp: SnmpUdpDelta::default(),
        };
    }
    let (time_squeeze_max_cpu, max_cpu_id) = busiest_cpu(
        &p.softnet.per_cpu_time_squeeze,
        &r.softnet.per_cpu_time_squeeze,
    );
    NetDelta {
        counters_reset: false,
        ring: RingDelta {
            rx_missed_errors: r.ring.rx_missed_errors - p.ring.rx_missed_errors,
            rx_dropped: r.ring.rx_dropped - p.ring.rx_dropped,
            rx_errors: r.ring.rx_errors - p.ring.rx_errors,
            rx_fifo_errors: r.ring.rx_fifo_errors - p.ring.rx_fifo_errors,
        },
        softnet: SoftnetDelta {
            processed: r.softnet.processed - p.softnet.processed,
            dropped: r.softnet.dropped - p.softnet.dropped,
            time_squeeze: r.softnet.time_squeeze - p.softnet.time_squeeze,
            time_squeeze_max_cpu,
            max_cpu_id,
        },
        snmp_udp: SnmpUdpDelta {
            in_datagrams: r.snmp_udp.in_datagrams - p.snmp_udp.in_datagrams,
            in_errors: r.snmp_udp.in_errors - p.snmp_udp.in_errors,
            rcvbuf_errors: r.snmp_udp.rcvbuf_errors - p.snmp_udp.rcvbuf_errors,
            sndbuf_errors: r.snmp_udp.sndbuf_errors - p.snmp_udp.sndbuf_errors,
            no_ports: r.snmp_udp.no_ports - p.snmp_udp.no_ports,
        },
    }
}

// ---- the tracker ----

/// How long the XDP state is kept before it is asked for again, in
/// nanoseconds.
pub const XDP_CACHE_TTL_NS: u64 = 60_000_000_000;

/// How long the driver statistics are kept before they are asked for again, in
/// nanoseconds.
pub const ETHTOOL_CACHE_TTL_NS: u64 = 60_000_000_000;

/// Follows the counters of one interface from window to window. Times are
/// nanoseconds of a clock that never goes backwards.
pub struct NetTracker {
    iface: String,
    prev: Option<Raw>,
    last_err: Option<String>,
    parse_errors: u64,
    xdp_cache: Option<bool>,
    xdp_checked_at: Option<u64>,
    ethtool_cache: StatTable,
    ethtool_checked_at: Option<u64>,
}

/// The state of a tracker.
#[verifier::ext_equal]
pub struct NetState {
    pub iface: Seq<char>,
    /// The last good reading.
    pub prev: Option<RawView>,
    /// The error of the last reading, where it failed.
    pub last_err: Option<Seq<char>>,
    /// How many readings failed since the start.
    pub parse_errors: u64,
    pub xdp: Option<bool>,
    pub xdp_at: Option<u64>,
    pub ethtool: Map<Seq<char>, u64>,
    pub ethtool_at: Option<u64>,
}

/// What came of one reading.
pub enum NetOutcome {
    /// The reading failed; a warning is due unless the last one failed alike.
    Failed { warning: Option<String> },
    /// The first good reading: there is nothing to compare it with yet.
    First,
    /// What the counters grew by since the last good reading.
    Grown(NetDelta),
}

/// Whether what was learnt at `at` is older than `ttl`, or was never learnt.
pub open spec fn is_stale(at: Option<u64>, now: u64, ttl: u64) -> bool {
    match at {
        None => true,
        Some(t) => now - t > ttl,
    }
}

/// The state after a reading.
pub open spec fn after_reading(s: NetState, raw: Result<RawView, Seq<char>>) -> NetState {
    match raw {
        Err(e) => NetState {
            parse_errors: if s.parse_errors < u64::MAX {
                (s.parse_errors + 1) as u64
            } else {
                u64::MAX
            },
            last_err: Some(e),
            ..s
        },
        Ok(r) => NetState { prev: Some(r), last_err: None, ..s },
    }
}

/// The warning about a failed reading: none where the last reading failed with
/// the same error.
pub open spec fn reading_warning(s: NetState, e: Seq<char>) -> Option<Seq<char>> {
    if s.last_err == Some(e) {
        None
    } else {
        Some("WARN: net read failed: "@ + e)
    }
}

/// The characters of an optional string.
pub open spec fn option_text(o: Option<String>) -> Option<Seq<char>> {
    match o {
        Some(t) => Some(t@),
        None => None,
    }
}

/// Whether `o` comes of a reading in a state.
pub open spec fn is_outcome(
    s: NetState,
    raw: Result<RawView, Seq<char>>,
    o: NetOutcome,
) -> bool {
    match raw {
        Err(e) => match o {
            NetOutcome::Failed { warning } => option_text(warning) == reading_warning(s, e),
            _ => false,
        },
        Ok(r) => match s.prev {
            None => o is First,
            Some(p) => match o {
                NetOutcome::Grown(d) => is_growth(p, r, d),
                _ => false,
            },
        },
    }
}

/// The state after the XDP state was asked for: where it was stale, what `link`
/// says of it is kept.
pub open spec fn after_xdp(s: NetState, link: Option<CommandOutput>, now: u64) -> NetState {
    if is_stale(s.xdp_at, now, XDP_CACHE_TTL_NS) {
        NetState { xdp: xdp_value(link), xdp_at: Some(now), ..s }
    } else {
        s
    }
}

/// The state after the driver statistics were asked for: where they were
/// stale, those in `stats` are kept, or none.
pub open spec fn after_ethtool(s: NetState, stats: Option<CommandOutput>, now: u64) -> NetState {
    if is_stale(s.ethtool_at, now, ETHTOOL_CACHE_TTL_NS) {
        NetState {
            ethtool: match ethtool_value(stats) {
                Some(m) => m,
                None => Map::empty(),
            },
            ethtool_at: Some(now),
            ..s
        }
    } else {
        s
    }
}

fn stale(at: Option<u64>, now: u64, ttl: u64) -> (r: bool)
    ensures
        r == is_stale(at, now, ttl),
{
    match at {
        None => true,
        Some(t) => now.saturating_sub(t) > ttl,
    }
}

impl View for NetTracker {
    type V = NetState;

    closed spec fn view(&self) -> NetState {
        NetState {
            iface: self.iface@,
            prev: match self.prev {
                Some(r) => Some(r@),
                None => None,
            },
            last_err: option_text(self.last_err),
            parse_errors: self.parse_errors,
            xdp: self.xdp_cache,
            xdp_at: self.xdp_checked_at,
            ethtool: self.ethtool_cache@,
            ethtool_at: self.ethtool_checked_at,
        }
    }
}

impl NetTracker {
    /// Whether the kept statistics form a table.
    pub closed spec fn wf(&self) -> bool {
        self.ethtool_cache.wf()
    }

    /// A tracker that has read nothing yet.
    pub fn new(iface: String) -> (r: NetTracker)
        ensures
            r.wf(),
            r@ == (NetState {
                iface: iface@,
                prev: None,
                last_err: None,
                parse_errors: 0,
                xdp: None,
                xdp_at: None,
                ethtool: Map::empty(),
                ethtool_at: None,
            }),
    {
        NetTracker {
            iface,
            prev: None,
            last_err: None,
            parse_errors: 0,
            xdp_cache: None,
            xdp_checked_at: None,
            ethtool_cache: StatTable::new(),
            ethtool_checked_at: None,
        }
    }

    /// The interface that is followed.
    pub fn iface(&self) -> (r: &str)
        ensures
            r@ == self@.iface,
    {
        self.iface.as_str()
    }

    /// How many readings failed since the start, whichever window they were in.
    pub fn parse_errors(&self) -> (r: u64)
        ensures
            r == self@.parse_errors,
    {
        self.parse_errors
    }

    /// Takes the reading of one window.
    pub fn sample(&mut self, files: &NetFiles) -> (r: NetOutcome)
        ensures
            is_outcome(old(self)@, raw_value(old(self)@.iface, *files), r),
            final(self)@ == after_reading(old(self)@, raw_value(old(self)@.iface, *files)),
            final(self).wf() == old(self).wf(),
    {
        match read_raw(self.iface.as_str(), files) {
            Err(e) => {
                self.parse_errors = self.parse_errors.saturating_add(1);
                let known = match &self.last_err {
                    Some(l) => same_text(l.as_str(), e.as_str()),
                    None => false,
                };
                if known {
                    return NetOutcome::Failed { warning: None };
                }
                let mut warning = "WARN: net read failed: ".to_string();
                warning.append(e.as_str());
                self.last_err = Some(e);
                NetOutcome::Failed { warning: Some(warning) }
            },
            Ok(raw) => {
                self.last_err = None;
                let r = match &self.prev {
                    None => NetOutcome::First,
                    Some(p) => NetOutcome::Grown(growth(p, &raw)),
                };
                self.prev = Some(raw);
                r
            },
        }
    }

    /// Tells whether the XDP state has to be asked for again.
    pub fn xdp_stale(&self, now_ns: u64) -> (r: bool)
        ensures
            r == is_stale(self@.xdp_at, now_ns, XDP_CACHE_TTL_NS),
    {
        stale(self.xdp_checked_at, now_ns, XDP_CACHE_TTL_NS)
    }

    /// Tells whether the driver statistics have to be asked for again.
    pub fn ethtool_stale(&self, now_ns: u64) -> (r: bool)
        ensures
            r == is_stale(self@.ethtool_at, now_ns, ETHTOOL_CACHE_TTL_NS),
    {
        stale(self.ethtool_checked_at, now_ns, ETHTOOL_CACHE_TTL_NS)
    }

    /// The XDP state: the kept one, or where that is stale the one that the
    /// output of `ip -d link show` tells of.
    pub fn is_xdp(&mut self, link: &Option<CommandOutput>, now_ns: u64) -> (r: Option<bool>)
        ensures
            final(self)@ == after_xdp(old(self)@, *link, now_ns),
            r == final(self)@.xdp,
            final(self).wf() == old(self).wf(),
    {
        if self.xdp_stale(now_ns) {
            self.xdp_cache = detect_is_xdp(link);
            self.xdp_checked_at = Some(now_ns);
        }
        self.xdp_cache
    }

    /// The driver statistics: the kept ones, or where those are stale the ones
    /// in the output of `ethtool -S`.
    pub fn ethtool_stats(&mut self, stats: &Option<CommandOutput>, now_ns: u64) -> (r: StatTable)
        requires
            old(self).wf(),
        ensures
            final(self).wf(),
            final(self)@ == after_ethtool(old(self)@, *stats, now_ns),
            r.wf(),
            r@ == final(self)@.ethtool,
    {
        if self.ethtool_stale(now_ns) {
            self.ethtool_cache = match read_ethtool_stats(stats) {
                Some(t) => t,
                None => StatTable::new(),
            };
            self.ethtool_checked_at = Some(now_ns);
        }
        self.ethtool_cache.clone()
    }

    /// Makes the sample of a window out of what the counters grew by and the
    /// state of the interface.
    pub fn complete(
        &mut self,
        d: NetDelta,
        link: &Option<CommandOutput>,
        stats: &Option<CommandOutput>,
        now_ns: u64,
    ) -> (r: NetSample)
        requires
            old(self).wf(),
        ensures
            final(self).wf(),
            final(self)@ == after_ethtool(after_xdp(old(self)@, *link, now_ns), *stats, now_ns),
            r.iface@ == old(self)@.iface,
            r.is_xdp == final(self)@.xdp,
            r.counters_reset == d.counters_reset,
            r.ring == d.ring,
            r.softnet == d.softnet,
            r.snmp_udp == d.snmp_udp,
            r.ethtool.wf(),
            r.ethtool@ == final(self)@.ethtool,
    {
        let is_xdp = self.is_xdp(link, now_ns);
        let ethtool = self.ethtool_stats(stats, now_ns);
        NetSample {
            iface: self.iface.clone(),
            is_xdp,
            counters_reset: d.counters_reset,
            ring: d.ring,
            softnet: d.softnet,
            snmp_udp: d.snmp_udp,
            ethtool,
        }
    }
}

// ---- what holds of all windows ----

/// Growth adds up: over two windows in which no counter went backwards the
/// counters grew by what they grew in the first and in the second.
pub proof fn law_growth_adds_up(
    a: RawView,
    b: RawView,
    c: RawView,
    ab: NetDelta,
    bc: NetDelta,
    ac: NetDelta,
)
    requires
        is_growth(a, b, ab),
        is_growth(b, c, bc),
        is_growth(a, c, ac),
        !ab.counters_reset,
        !bc.counters_reset,
    ensures
        !ac.counters_reset,
        ac.ring.rx_missed_errors == ab.ring.rx_missed_errors + bc.ring.rx_missed_errors,
        ac.ring.rx_dropped == ab.ring.rx_dropped + bc.ring.rx_dropped,
        ac.ring.rx_errors == ab.ring.rx_errors + bc.ring.rx_errors,
        ac.ring.rx_fifo_errors == ab.ring.rx_fifo_errors + bc.ring.rx_fifo_errors,
        ac.softnet.processed == ab.softnet.processed + bc.softnet.processed,
        ac.softnet.dropped == ab.softnet.dropped + bc.softnet.dropped,
        ac.softnet.time_squeeze == ab.softnet.time_squeeze + bc.softnet.time_squeeze,
        ac.snmp_udp.in_datagrams == ab.snmp_udp.in_datagrams + bc.snmp_udp.in_datagrams,
        ac.snmp_udp.in_errors == ab.snmp_udp.in_errors + bc.snmp_udp.in_errors,
        ac.snmp_udp.rcvbuf_errors == ab.snmp_udp.rcvbuf_errors + bc.snmp_udp.rcvbuf_errors,
        ac.snmp_udp.sndbuf_errors == ab.snmp_udp.sndbuf_errors + bc.snmp_udp.sndbuf_errors,
        ac.snmp_udp.no_ports == ab.snmp_udp.no_ports + bc.snmp_udp.no_ports,
{
}

/// A window in which a counter went backwards says so, and shows no growth;
/// no other window says so.
pub proof fn law_reset_is_flagged(p: RawView, r: RawView, d: NetDelta)
    requires
        is_growth(p, r, d),
    ensures
        d.counters_reset <==> went_backwards(p, r),
        d.counters_reset ==> d == (NetDelta { counters_reset: true, ..no_growth() }),
{
}

/// Failures are reported once: of two readings in a row that fail with the
/// same error, the second brings no warning, while each of them is counted.
pub proof fn law_same_failure_is_reported_once(s: NetState, e: Seq<char>)
    ensures
        reading_warning(
            after_reading(s, Err::<RawView, Seq<char>>(e)),
            e,
        ) is None,
        s.parse_errors < u64::MAX ==> after_reading(
            s,
            Err::<RawView, Seq<char>>(e),
        ).parse_errors == s.parse_errors + 1,
{
}

/// A failed reading is no gap in the comparison: the next good reading is
/// compared with the last good one.
pub proof fn law_failure_keeps_the_last_reading(s: NetState, e: Seq<char>)
    ensures
        after_reading(s, Err::<RawView, Seq<char>>(e)).prev == s.prev,
{
}

/// Whether `a` stands before `b` in lexicographic order of characters.
pub open spec fn text_before(a: Seq<char>, b: Seq<char>) -> bool {
    exists|i: int| #![trigger a[i]]
        0 <= i < b.len() && i <= a.len() && (forall|k: int| 0 <= k < i ==> a[k] == b[k]) && (i
            == a.len() || (a[i] as u32) < (b[i] as u32))
}

proof fn lemma_ring_paths_ordered(iface: Seq<char>, a: Seq<char>, b: Seq<char>, i: int)
    requires
        0 <= i < a.len(),
        i < b.len(),
        forall|k: int| 0 <= k < i ==> a[k] == b[k],
        (a[i] as u32) < (b[i] as u32),
    ensures
        text_before(ring_path_text(iface, a), ring_path_text(iface, b)),
{
    let p = "/sys/class/net/"@ + iface + "/statistics/"@;
    let x = ring_path_text(iface, a);
    let y = ring_path_text(iface, b);
    let n = p.len() as int;
    assert forall|k: int| 0 <= k < n + i implies x[k] == y[k] by {
        if k >= n {
            assert(x[k] == a[k - n]);
            assert(y[k] == b[k - n]);
        } else {
            assert(x[k] == p[k]);
            assert(y[k] == p[k]);
        }
    }
    assert(x[n + i] == a[i]);
    assert(y[n + i] == b[i]);
}

/// The files to be checked are listed in lexicographic order, whatever the
/// interface is called.
pub proof fn law_check_paths_are_ordered(iface: Seq<char>, i: int)
    requires
        0 <= i < 5,
    ensures
        text_before(check_path_texts(iface)[i], check_path_texts(iface)[i + 1]),
{
    reveal_strlit("/proc/net/snmp");
    reveal_strlit("/proc/net/softnet_stat");
    reveal_strlit("/sys/class/net/");
    reveal_strlit("rx_dropped");
    reveal_strlit("rx_errors");
    reveal_strlit("rx_fifo_errors");
    reveal_strlit("rx_missed_errors");
    let s = check_path_texts(iface);
    if i == 0 {
        assert(s[0][11] == 'n');
        assert(text_before(s[0], s[1]));
    } else if i == 1 {
        let x = s[1];
        let y = s[2];
        assert(y[0] == '/' && y[1] == 's');
        assert(x[1] == 'p');
        assert(text_before(x, y));
    } else if i == 2 {
        lemma_ring_paths_ordered(iface, "rx_dropped"@, "rx_errors"@, 3);
    } else if i == 3 {
        lemma_ring_paths_ordered(iface, "rx_errors"@, "rx_fifo_errors"@, 3);
    } else {
        lemma_ring_paths_ordered(iface, "rx_fifo_errors"@, "rx_missed_errors"@, 3);
    }
}

/// Each counter grew by its own difference: what it is shown to have grown by, added
/// to what it was in the first reading, gives what it is in the second.
pub proof fn law_growth_leads_from_one_reading_to_the_next(p: RawView, r: RawView, d: NetDelta)
    requires
        is_growth(p, r, d),
        !d.counters_reset,
    ensures
        p.ring.rx_missed_errors + d.ring.rx_missed_errors == r.ring.rx_missed_errors,
        p.ring.rx_dropped + d.ring.rx_dropped == r.ring.rx_dropped,
        p.ring.rx_errors + d.ring.rx_errors == r.ring.rx_errors,
        p.ring.rx_fifo_errors + d.ring.rx_fifo_errors == r.ring.rx_fifo_errors,
        p.softnet.processed + d.softnet.processed == r.softnet.processed,
        p.softnet.dropped + d.softnet.dropped == r.softnet.dropped,
        p.softnet.time_squeeze + d.softnet.time_squeeze == r.softnet.time_squeeze,
        p.snmp_udp.in_datagrams + d.snmp_udp.in_datagrams == r.snmp_udp.in_datagrams,
        p.snmp_udp.in_errors + d.snmp_udp.in_errors == r.snmp_udp.in_errors,
        p.snmp_udp.rcvbuf_errors + d.snmp_udp.rcvbuf_errors == r.snmp_udp.rcvbuf_errors,
        p.snmp_udp.sndbuf_errors + d.snmp_udp.sndbuf_errors == r.snmp_udp.sndbuf_errors,
        p.snmp_udp.no_ports + d.snmp_udp.no_ports == r.snmp_udp.no_ports,
{
}

/// A reset is flagged if and only if one of the twelve counters is lower than it was,
/// and then nothing is shown to have grown.
pub proof fn law_reset_is_a_lower_counter(p: RawView, r: RawView, d: NetDelta)
    requires
        is_growth(p, r, d),
    ensures
        d.counters_reset <==> !(p.ring.rx_missed_errors <= r.ring.rx_missed_errors
            && p.ring.rx_dropped <= r.ring.rx_dropped && p.ring.rx_errors <= r.ring.rx_errors
            && p.ring.rx_fifo_errors <= r.ring.rx_fifo_errors && p.softnet.processed
            <= r.softnet.processed && p.softnet.dropped <= r.softnet.dropped
            && p.softnet.time_squeeze <= r.softnet.time_squeeze && p.snmp_udp.in_datagrams
            <= r.snmp_udp.in_datagrams && p.snmp_udp.in_errors <= r.snmp_udp.in_errors
            && p.snmp_udp.rcvbuf_errors <= r.snmp_udp.rcvbuf_errors && p.snmp_udp.sndbuf_errors
            <= r.snmp_udp.sndbuf_errors && p.snmp_udp.no_ports <= r.snmp_udp.no_ports),
        d.counters_reset ==> d.ring.rx_missed_errors == 0 && d.ring.rx_dropped == 0
            && d.ring.rx_errors == 0 && d.ring.rx_fifo_errors == 0 && d.softnet.processed == 0
            && d.softnet.dropped == 0 && d.softnet.time_squeeze == 0
            && d.softnet.time_squeeze_max_cpu == 0 && d.softnet.max_cpu_id == 0
            && d.snmp_udp.in_datagrams == 0 && d.snmp_udp.in_errors == 0
            && d.snmp_udp.rcvbuf_errors == 0 && d.snmp_udp.sndbuf_errors == 0
            && d.snmp_udp.no_ports == 0,
{
}

/// No CPU that both readings list was squeezed more often than is shown of the
/// busiest; and where that is more than nothing the CPU named was squeezed so often.
pub proof fn law_busiest_cpu_is_the_busiest(p: RawView, r: RawView, d: NetDelta, cpu: u32)
    requires
        is_growth(p, r, d),
        !d.counters_reset,
        p.softnet.per_cpu.contains_key(cpu),
        r.softnet.per_cpu.contains_key(cpu),
    ensures
        r.softnet.per_cpu[cpu] - p.softnet.per_cpu[cpu] <= d.softnet.time_squeeze_max_cpu,
        d.softnet.time_squeeze_max_cpu > 0 ==> {
            let m = d.softnet.max_cpu_id;
            &&& p.softnet.per_cpu.contains_key(m)
            &&& r.softnet.per_cpu.contains_key(m)
            &&& p.softnet.per_cpu[m] + d.softnet.time_squeeze_max_cpu == r.softnet.per_cpu[m]
        },
        d.softnet.time_squeeze_max_cpu == 0 ==> d.softnet.max_cpu_id == 0,
{
    assert(cpu_growth(p.softnet.per_cpu, r.softnet.per_cpu, cpu)
        <= d.softnet.time_squeeze_max_cpu);
}

// ---- what holds of all commands and tables ----

/// The interface is that of the first line behind the header whose second column is all
/// zeros, and its first column; without such a line there is none.
pub proof fn law_interface_is_that_of_the_default_route(t: Seq<char>, at: int)
    requires
        1 <= at < lines_of(t).len(),
        words_of(lines_of(t)[at]).len() > 1,
        words_of(lines_of(t)[at])[1] == "00000000"@,
        forall|k: int|
            1 <= k < at ==> words_of(#[trigger] lines_of(t)[k]).len() <= 1 || words_of(
                lines_of(t)[k],
            )[1] != "00000000"@,
    ensures
        iface_value(Ok::<Seq<char>, Seq<char>>(t)) == Ok::<Seq<char>, Seq<char>>(
            words_of(lines_of(t)[at])[0],
        ),
{
    lemma_default_route(lines_of(t), 1, at);
}

proof fn lemma_default_route(ls: Seq<Seq<char>>, i: int, at: int)
    requires
        1 <= i <= at < ls.len(),
        words_of(ls[at]).len() > 1 && words_of(ls[at])[1] == "00000000"@,
        forall|k: int|
            i <= k < at ==> words_of(#[trigger] ls[k]).len() <= 1 || words_of(ls[k])[1]
                != "00000000"@,
    ensures
        default_route(ls, i) == at,
    decreases at - i,
{
    if i < at {
        lemma_default_route(ls, i + 1, at);
    }
}

/// Without a default route behind the header there is no interface.
pub proof fn law_no_default_route_no_interface(t: Seq<char>, i: int)
    requires
        1 <= i,
        forall|k: int|
            i <= k < lines_of(t).len() ==> words_of(#[trigger] lines_of(t)[k]).len() <= 1 || words_of(
                lines_of(t)[k],
            )[1] != "00000000"@,
    ensures
        default_route(lines_of(t), i) >= lines_of(t).len(),
        i == 1 ==> iface_value(Ok::<Seq<char>, Seq<char>>(t)) is Err,
    decreases lines_of(t).len() - i,
{
    if i < lines_of(t).len() {
        law_no_default_route_no_interface(t, i + 1);
    }
}

/// An XDP program is attached if and only if the description of the link has `prog/xdp`
/// somewhere; of a command that failed nothing is known.
pub proof fn law_xdp_is_named_by_the_link(o: CommandOutput, a: Seq<char>, b: Seq<char>)
    requires
        o.success,
    ensures
        decoded(o.stdout@) == a + "prog/xdp"@ + b ==> xdp_value(Some(o)) == Some(true),
        xdp_value(Some(o)) == Some(true) ==> exists|i: int|
            0 <= i <= decoded(o.stdout@).len() - 8 && #[trigger] decoded(o.stdout@).subrange(
                i,
                i + 8,
            ) == "prog/xdp"@,
        xdp_value(Some(o)) is Some,
        xdp_value(None) is None,
        xdp_value(Some(CommandOutput { success: false, ..o })) is None,
        ethtool_value(None) is None,
        ethtool_value(Some(CommandOutput { success: false, ..o })) is None,
{
    reveal_strlit("prog/xdp");
    let t = decoded(o.stdout@);
    if t == a + "prog/xdp"@ + b {
        lemma_occurs(t, a, "prog/xdp"@, b);
    }
    if occurs_in(t, "prog/xdp"@) {
        let i = choose|i: int| stands_at(t, "prog/xdp"@, i);
        assert(t.subrange(i, i + 8) == "prog/xdp"@);
    }
}

/// A line of statistics is a name, a colon and a number, and reads back as these.
pub proof fn law_statistic_reads_back(name: Seq<char>, v: u64)
    requires
        name.len() > 0,
        !name.contains(':'),
        !is_space(name[0]) && !is_space(name.last()),
    ensures
        stat_value(name.push(':') + decimal(v as nat)) == Some((name, v)),
        stat_value(name) is None,
{
    let line = name.push(':') + decimal(v as nat);
    let n = name.len() as int;
    assert(line[n] == ':');
    assert forall|k: int| 0 <= k < n implies line[k] != ':' by {
        assert(line[k] == name[k]);
        assert(name.contains(name[k]));
    }
    lemma_position_at(line, ':', 0, n);
    assert(line.subrange(0, n) =~= name);
    assert(line.subrange(n + 1, line.len() as int) =~= decimal(v as nat));
    lemma_decimal_chars(v as nat);
    law_decimal_reads_back(v as nat, u64::MAX as int);
    lemma_trim_keeps(name);
    lemma_trim_keeps(decimal(v as nat));
    law_first_cut_is_at_the_first(name, ':');
}

/// One more line adds its statistic under its name, in place of an earlier one, if it
/// has one; the first line is a header and has none.
pub proof fn law_one_more_statistic(ls: Seq<Seq<char>>, n: int)
    requires
        1 <= n,
    ensures
        stat_values(ls, 1).dom().is_empty(),
        stat_value(ls[n]) matches Some((name, v)) ==> stat_values(ls, n + 1) == stat_values(
            ls,
            n,
        ).insert(name, v),
        stat_value(ls[n]) is None ==> stat_values(ls, n + 1) == stat_values(ls, n),
{
}

/// The XDP state and the statistics are kept for a minute: asked at one time they stand
/// until more than sixty seconds have gone by, and are then taken anew.
pub proof fn law_interface_state_is_kept_for_a_minute(
    s: NetState,
    link: Option<CommandOutput>,
    stats: Option<CommandOutput>,
    at: u64,
    now: u64,
)
    requires
        s.xdp_at == Some(at),
        s.ethtool_at == Some(at),
        at <= now,
    ensures
        now - at <= 60_000_000_000 ==> after_xdp(s, link, now) == s && after_ethtool(s, stats, now)
            == s,
        now - at > 60_000_000_000 ==> {
            let x = after_xdp(s, link, now);
            let e = after_ethtool(s, stats, now);
            &&& x.xdp == xdp_value(link) && x.xdp_at == Some(now)
            &&& e.ethtool_at == Some(now)
            &&& match ethtool_value(stats) {
                Some(m) => e.ethtool == m,
                None => e.ethtool.dom().is_empty(),
            }
            &&& x.prev == s.prev && e.prev == s.prev
            &&& x.ethtool == s.ethtool && e.xdp == s.xdp
        },
{
}

/// What was never asked for is asked for, and kept.
pub proof fn law_interface_state_is_asked_for_first(
    s: NetState,
    link: Option<CommandOutput>,
    stats: Option<CommandOutput>,
    now: u64,
)
    ensures
        s.xdp_at is None ==> after_xdp(s, link, now).xdp == xdp_value(link) && after_xdp(
            s,
            link,
            now,
        ).xdp_at == Some(now),
        s.ethtool_at is None ==> after_ethtool(s, stats, now).ethtool_at == Some(now),
{
}

/// A good reading is compared with the last good one and takes its place; the first has
/// nothing to be compared with; a failed one gives no sample.
pub proof fn law_readings_are_compared_in_turn(
    s: NetState,
    raw: Result<RawView, Seq<char>>,
    o: NetOutcome,
)
    requires
        is_outcome(s, raw, o),
    ensures
        raw is Err <==> o is Failed,
        raw is Ok && s.prev is None <==> o is First,
        raw matches Ok(r) ==> after_reading(s, raw).prev == Some(r) && after_reading(s, raw).last_err
            is None && after_reading(s, raw).parse_errors == s.parse_errors,
        raw is Ok && s.prev is Some ==> (o matches NetOutcome::Grown(d) && is_growth(
            s.prev->0,
            raw->Ok_0,
            d,
        )),
        raw matches Err(e) ==> (o matches NetOutcome::Failed { warning } && (warning is None
            <==> s.last_err == Some(e)) && (warning matches Some(w) ==> labelled(
            w@,
            "net read failed: "@,
            e,
            Seq::empty(),
        ))),
{
    match (raw, o) {
        (Err(e), NetOutcome::Failed { warning: Some(w) }) => {
            reveal_strlit("WARN: net read failed: ");
            reveal_strlit("net read failed: ");
            reveal_strlit("WARN: ");
            let none = Seq::<char>::empty();
            assert("WARN: net read failed: "@ =~= "WARN: "@ + "net read failed: "@);
            assert(w@ =~= "WARN: "@ + ("net read failed: "@ + e + none) + none);
            lemma_occurs(w@, "WARN: "@, "net read failed: "@ + e + none, none);
        },
        _ => {},
    }
}

/// The files to be checked are those that are read: the four ring counters of the
/// interface, the NAPI counters and the UDP counters.
pub proof fn law_checked_files_are_those_read(iface: Seq<char>, p: Seq<char>)
    ensures
        check_path_texts(iface).contains(p) <==> p == "/proc/net/softnet_stat"@ || p
            == "/proc/net/snmp"@ || p == "/sys/class/net/"@ + iface + "/statistics/"@
            + "rx_missed_errors"@ || p == "/sys/class/net/"@ + iface + "/statistics/"@
            + "rx_dropped"@ || p == "/sys/class/net/"@ + iface + "/statistics/"@ + "rx_errors"@ || p
            == "/sys/class/net/"@ + iface + "/statistics/"@ + "rx_fifo_errors"@,
        check_path_texts(iface).len() == 6,
{
    let s = check_path_texts(iface);
    assert(s.contains(s[0]) && s.contains(s[1]) && s.contains(s[2]));
    assert(s.contains(s[3]) && s.contains(s[4]) && s.contains(s[5]));
}

}
