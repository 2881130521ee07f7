//! The report of a window: one line, or one JSON object.

use vstd::prelude::*;

use crate::correlate::{strs_view, DiskResult, FreezeState};
use crate::disk::{compact_stats, compact_stats_text, WindowStats};
use crate::json::{
    array, document, documents, insert, json_text, members, null, number, number_or_null, object,
    optional_number, optional_truth, print, signed_number, start, text, truth, truth_or_null, Json,
};
use crate::net::{NetSample, RingDelta, SnmpUdpDelta, SoftnetDelta};
use crate::number::{
    decimal, double_integer, double_quotient, grouped, lemma_decimal_chars, nearest_tenths,
    push_decimal, push_two_digits, quotient_text, rounded, two_digits, Dyadic,
};
use crate::output::{compact, compact_text, state, state_text};
use crate::rpc::{Sample, ValidatorSample};
use crate::sockets::{SocketEntry, SocketSample};
use crate::table::{entry_map, named_at, names_distinct, StatTable};
use crate::text::{has_prefix, lemma_regroup, lower, lowered};

verus! {

// ---- the validator ----

/// The state of a validator as a word of the JSON report.
pub open spec fn state_key(s: ValidatorSample) -> Seq<char> {
    if !s.healthy {
        "unhealthy"@
    } else if s.delinquent {
        "delinquent"@
    } else if s.vote_lag > 150 {
        "lagging"@
    } else {
        "ok"@
    }
}

/// A validator that answered.
pub open spec fn up_tree(s: ValidatorSample) -> Json {
    Json::Object(
        map![
            "state"@ => Json::Text(state_key(s)),
            "epoch"@ => Json::Number(s.epoch as int),
            "slot"@ => Json::Number(s.network_slot as int),
            "last_vote"@ => Json::Number(s.my_last_vote as int),
            "vote_lag"@ => Json::Number(s.vote_lag as int),
            "credits"@ => Json::Number(s.credits as int),
            "delinquent"@ => Json::Bool(s.delinquent),
            "healthy"@ => Json::Bool(s.healthy),
        ],
    )
}

/// What the last poll of the validator gave, if there was one.
pub open spec fn validator_tree(v: Option<&Sample>) -> Json {
    match v {
        Some(Sample::Up(s)) => up_tree(*s),
        Some(Sample::Down { reason }) => Json::Object(
            map!["state"@ => Json::Text("down"@), "reason"@ => Json::Text(reason@)],
        ),
        None => Json::Null,
    }
}

proof fn lemma_state_key(s: ValidatorSample)
    ensures
        lowered(state_text(s)) == state_key(s),
{
    reveal_strlit("UNHEALTHY");
    reveal_strlit("DELINQUENT");
    reveal_strlit("LAGGING");
    reveal_strlit("OK");
    reveal_strlit("unhealthy");
    reveal_strlit("delinquent");
    reveal_strlit("lagging");
    reveal_strlit("ok");
    assert(lowered("UNHEALTHY"@) =~= "unhealthy"@);
    assert(lowered("DELINQUENT"@) =~= "delinquent"@);
    assert(lowered("LAGGING"@) =~= "lagging"@);
    assert(lowered("OK"@) =~= "ok"@);
}

/// Describes a validator that answered.
pub fn up_json(s: &ValidatorSample) -> (r: serde_json::Value)
    ensures
        document(r) == up_tree(*s),
{
    proof {
        lemma_state_key(*s);
    }
    let state = lower(state(s));
    let mut m = start();
    insert(&mut m, "state", text(state.as_str()));
    insert(&mut m, "epoch", number(s.epoch));
    insert(&mut m, "slot", number(s.network_slot));
    insert(&mut m, "last_vote", number(s.my_last_vote));
    insert(&mut m, "vote_lag", signed_number(s.vote_lag));
    insert(&mut m, "credits", number(s.credits));
    insert(&mut m, "delinquent", truth(s.delinquent));
    insert(&mut m, "healthy", truth(s.healthy));
    object(m)
}

/// Describes what the last poll of the validator gave.
pub fn validator_json(v: Option<&Sample>) -> (r: serde_json::Value)
    ensures
        document(r) == validator_tree(v),
{
    match v {
        Some(Sample::Up(s)) => up_json(s),
        Some(Sample::Down { reason }) => {
            let mut m = start();
            insert(&mut m, "state", text("down"));
            insert(&mut m, "reason", text(reason.as_str()));
            object(m)
        },
        None => null(),
    }
}

// ---- the network ----

/// One port of the validator.
pub open spec fn socket_tree(e: SocketEntry) -> Json {
    Json::Object(
        map![
            "port"@ => Json::Number(e.port as int),
            "role"@ => Json::Text(e.role@),
            "drops"@ => Json::Number(e.drops as int),
            "rx_queue"@ => Json::Number(e.rx_queue as int),
            "tx_queue"@ => Json::Number(e.tx_queue as int),
        ],
    )
}

/// The ports of the validator, in the order of the sample.
pub open spec fn socket_trees(s: Option<&SocketSample>) -> Seq<Json> {
    match s {
        Some(x) => x.sockets@.map_values(|e: SocketEntry| socket_tree(e)),
        None => Seq::empty(),
    }
}

/// The process of the validator, where it was found.
pub open spec fn pid_tree(s: Option<&SocketSample>) -> Json {
    match s {
        Some(x) => match x.pid {
            Some(pid) => Json::Number(pid as int),
            None => Json::Null,
        },
        None => Json::Null,
    }
}

/// The ring of the NIC.
pub open spec fn ring_tree(d: RingDelta) -> Json {
    Json::Object(
        map![
            "rx_missed_errors"@ => Json::Number(d.rx_missed_errors as int),
            "rx_dropped"@ => Json::Number(d.rx_dropped as int),
            "rx_errors"@ => Json::Number(d.rx_errors as int),
            "rx_fifo_errors"@ => Json::Number(d.rx_fifo_errors as int),
        ],
    )
}

/// The NAPI counters.
pub open spec fn softnet_tree(d: SoftnetDelta) -> Json {
    Json::Object(
        map![
            "processed"@ => Json::Number(d.processed as int),
            "dropped"@ => Json::Number(d.dropped as int),
            "time_squeeze"@ => Json::Number(d.time_squeeze as int),
            "time_squeeze_max_cpu"@ => Json::Number(d.time_squeeze_max_cpu as int),
            "max_cpu_id"@ => Json::Number(d.max_cpu_id as int),
        ],
    )
}

/// The UDP counters.
pub open spec fn snmp_tree(d: SnmpUdpDelta) -> Json {
    Json::Object(
        map![
            "in_datagrams"@ => Json::Number(d.in_datagrams as int),
            "in_errors"@ => Json::Number(d.in_errors as int),
            "rcvbuf_errors"@ => Json::Number(d.rcvbuf_errors as int),
            "sndbuf_errors"@ => Json::Number(d.sndbuf_errors as int),
            "no_ports"@ => Json::Number(d.no_ports as int),
        ],
    )
}

/// The statistics of the driver, each under its own name.
pub open spec fn table_tree(t: Map<Seq<char>, u64>) -> Json {
    Json::Object(t.map_values(|v: u64| Json::Number(v as int)))
}

/// The network layers of a window, if there was something to compare.
pub open spec fn net_tree(
    net: Option<NetSample>,
    sockets: Option<&SocketSample>,
    parse_errors: u64,
) -> Json {
    match net {
        None => Json::Null,
        Some(n) => Json::Object(
            map![
                "iface"@ => Json::Text(n.iface@),
                "is_xdp"@ => optional_truth(n.is_xdp),
                "ring"@ => ring_tree(n.ring),
                "softnet"@ => softnet_tree(n.softnet),
                "snmp_udp"@ => snmp_tree(n.snmp_udp),
                "sockets"@ => Json::Array(socket_trees(sockets)),
                "agave_pid"@ => pid_tree(sockets),
                "ethtool"@ => table_tree(n.ethtool@),
                "counters_reset"@ => Json::Bool(n.counters_reset),
                "parse_errors"@ => Json::Number(parse_errors as int),
            ],
        ),
    }
}

/// Whether the statistics of a sample form a table.
pub open spec fn net_wf(net: Option<NetSample>) -> bool {
    net matches Some(n) ==> n.ethtool.wf()
}

fn socket_json(e: &SocketEntry) -> (r: serde_json::Value)
    ensures
        document(r) == socket_tree(*e),
{
    let mut m = start();
    insert(&mut m, "port", number(e.port as u64));
    insert(&mut m, "role", text(e.role.as_str()));
    insert(&mut m, "drops", number(e.drops));
    insert(&mut m, "rx_queue", number(e.rx_queue));
    insert(&mut m, "tx_queue", number(e.tx_queue));
    object(m)
}

fn sockets_json(sockets: Option<&SocketSample>) -> (r: serde_json::Value)
    ensures
        document(r) == Json::Array(socket_trees(sockets)),
{
    let mut items: Vec<serde_json::Value> = Vec::new();
    match sockets {
        Some(s) => {
            let mut i: usize = 0;
            while i < s.sockets.len()
                invariant
                    i <= s.sockets@.len(),
                    items@.len() == i,
                    forall|k: int|
                        0 <= k < i ==> document(#[trigger] items@[k]) == socket_tree(s.sockets@[k]),
                decreases s.sockets@.len() - i,
            {
                items.push(socket_json(&s.sockets[i]));
                i = i + 1;
            }
        },
        None => {},
    }
    assert(documents(items@) =~= socket_trees(sockets));
    array(items)
}

fn ring_json(d: &RingDelta) -> (r: serde_json::Value)
    ensures
        document(r) == ring_tree(*d),
{
    let mut m = start();
    insert(&mut m, "rx_missed_errors", number(d.rx_missed_errors));
    insert(&mut m, "rx_dropped", number(d.rx_dropped));
    insert(&mut m, "rx_errors", number(d.rx_errors));
    insert(&mut m, "rx_fifo_errors", number(d.rx_fifo_errors));
    object(m)
}

fn softnet_json(d: &SoftnetDelta) -> (r: serde_json::Value)
    ensures
        document(r) == softnet_tree(*d),
{
    let mut m = start();
    insert(&mut m, "processed", number(d.processed));
    insert(&mut m, "dropped", number(d.dropped));
    insert(&mut m, "time_squeeze", number(d.time_squeeze));
    insert(&mut m, "time_squeeze_max_cpu", number(d.time_squeeze_max_cpu));
    insert(&mut m, "max_cpu_id", number(d.max_cpu_id as u64));
    object(m)
}

fn snmp_json(d: &SnmpUdpDelta) -> (r: serde_json::Value)
    ensures
        document(r) == snmp_tree(*d),
{
    let mut m = start();
    insert(&mut m, "in_datagrams", number(d.in_datagrams));
    insert(&mut m, "in_errors", number(d.in_errors));
    insert(&mut m, "rcvbuf_errors", number(d.rcvbuf_errors));
    insert(&mut m, "sndbuf_errors", number(d.sndbuf_errors));
    insert(&mut m, "no_ports", number(d.no_ports));
    object(m)
}

fn table_json(t: &StatTable) -> (r: serde_json::Value)
    requires
        t.wf(),
    ensures
        document(r) == table_tree(t@),
{
    proof {
        t.lemma_listed();
    }
    let mut m = start();
    let mut i: usize = 0;
    while i < t.len()
        invariant
            i <= t.listed().len(),
            names_distinct(t.listed()),
            t@ == entry_map(t.listed()),
            forall|name: Seq<char>| #[trigger]
                members(m).contains_key(name) <==> exists|k: int|
                    0 <= k < i && named_at(t.listed(), name, k),
            forall|k: int|
                0 <= k < i ==> members(m)[(#[trigger] t.listed()[k]).0@] == Json::Number(
                    t.listed()[k].1 as int,
                ),
        decreases t.listed().len() - i,
    {
        let ghost was = members(m);
        let (name, value) = t.entry(i);
        insert(&mut m, name, number(value));
        proof {
            assert forall|x: Seq<char>| #[trigger] members(m).contains_key(x) <==> exists|k: int|
                0 <= k < i + 1 && named_at(t.listed(), x, k) by {
                if members(m).contains_key(x) {
                    if x == name@ {
                        assert(named_at(t.listed(), x, i as int));
                    } else {
                        assert(was.contains_key(x));
                    }
                }
                if exists|k: int| 0 <= k < i + 1 && named_at(t.listed(), x, k) {
                    let k = choose|k: int| 0 <= k < i + 1 && named_at(t.listed(), x, k);
                    if k < i {
                        assert(was.contains_key(x));
                    }
                }
            }
        }
        i = i + 1;
    }
    proof {
        let want = t@.map_values(|v: u64| Json::Number(v as int));
        assert forall|x: Seq<char>| #[trigger]
            members(m).contains_key(x) == want.contains_key(x) by {
            if want.contains_key(x) {
                let k = choose|k: int| named_at(t.listed(), x, k);
                assert(0 <= k < i && named_at(t.listed(), x, k));
            }
        }
        assert forall|x: Seq<char>| #[trigger] members(m).contains_key(x) implies members(m)[x]
            == want[x] by {
            let k = choose|k: int| named_at(t.listed(), x, k);
            assert(t.listed()[k].0@ == x);
        }
        assert(members(m) =~= want);
    }
    object(m)
}

/// Describes the network layers of a window.
pub fn net_json(
    net: &Option<NetSample>,
    sockets: Option<&SocketSample>,
    parse_errors: u64,
) -> (r: serde_json::Value)
    requires
        net_wf(*net),
    ensures
        document(r) == net_tree(*net, sockets, parse_errors),
{
    match net {
        None => null(),
        Some(n) => {
            let pid = match sockets {
                Some(s) => match s.pid {
                    Some(pid) => number(pid as u64),
                    None => null(),
                },
                None => null(),
            };
            let mut m = start();
            insert(&mut m, "iface", text(n.iface.as_str()));
            insert(&mut m, "is_xdp", truth_or_null(n.is_xdp));
            insert(&mut m, "ring", ring_json(&n.ring));
            insert(&mut m, "softnet", softnet_json(&n.softnet));
            insert(&mut m, "snmp_udp", snmp_json(&n.snmp_udp));
            insert(&mut m, "sockets", sockets_json(sockets));
            insert(&mut m, "agave_pid", pid);
            insert(&mut m, "ethtool", table_json(&n.ethtool));
            insert(&mut m, "counters_reset", truth(n.counters_reset));
            insert(&mut m, "parse_errors", number(parse_errors));
            object(m)
        },
    }
}

// ---- the object ----

/// The disk in a window; latencies in whole microseconds.
pub open spec fn disk_tree(w: WindowStats) -> Json {
    Json::Object(
        map![
            "window_secs"@ => Json::Number(w.window_secs as int),
            "reqs"@ => Json::Number(w.reqs as int),
            "writes"@ => Json::Number(w.writes as int),
            "reads"@ => Json::Number(w.reads as int),
            "others"@ => Json::Number(w.others as int),
            "bytes"@ => Json::Number(w.bytes as int),
            "errors"@ => Json::Number(w.errors as int),
            "p50_us"@ => Json::Number(w.p50_ns as int / 1_000),
            "p99_us"@ => Json::Number(w.p99_ns as int / 1_000),
            "max_us"@ => Json::Number(w.max_ns as int / 1_000),
        ],
    )
}

/// The report of a window.
pub open spec fn report_tree(
    w: WindowStats,
    v: Option<&Sample>,
    disk: DiskResult,
    freeze: FreezeState,
    alerts: Seq<Seq<char>>,
    net: Option<NetSample>,
    net_parse_errors: u64,
    self_cpu_ms: Option<u64>,
    sockets: Option<&SocketSample>,
    ts: u64,
) -> Json {
    Json::Object(
        map![
            "ts"@ => Json::Number(ts as int),
            "schema_version"@ => Json::Number(2),
            "consensus"@ => Json::Text("towerbft"@),
            "self_cpu_ms"@ => optional_number(self_cpu_ms),
            "disk"@ => disk_tree(w),
            "validator"@ => validator_tree(v),
            "baseline"@ => Json::Object(
                map!["disk_p99_median_us"@ => optional_number(disk.median_us)],
            ),
            "freeze"@ => Json::Bool(freeze.freeze),
            "freeze_duration_ms"@ => Json::Number(freeze.freeze_duration_ms as int),
            "freeze_in_last_n"@ => Json::Number(freeze.freeze_in_last_n as int),
            "alerts"@ => Json::Array(alerts.map_values(|a: Seq<char>| Json::Text(a))),
            "net"@ => net_tree(net, sockets, net_parse_errors),
        ],
    )
}

fn disk_json(w: &WindowStats) -> (r: serde_json::Value)
    ensures
        document(r) == disk_tree(*w),
{
    let mut m = start();
    insert(&mut m, "window_secs", number(w.window_secs));
    insert(&mut m, "reqs", number(w.reqs as u64));
    insert(&mut m, "writes", number(w.writes));
    insert(&mut m, "reads", number(w.reads));
    insert(&mut m, "others", number(w.others));
    insert(&mut m, "bytes", number(w.bytes));
    insert(&mut m, "errors", number(w.errors));
    insert(&mut m, "p50_us", number(w.p50_ns / 1_000));
    insert(&mut m, "p99_us", number(w.p99_ns / 1_000));
    insert(&mut m, "max_us", number(w.max_ns / 1_000));
    object(m)
}

fn alerts_json(alerts: &[&str]) -> (r: serde_json::Value)
    ensures
        document(r) == Json::Array(
            strs_view(alerts@).map_values(|a: Seq<char>| Json::Text(a)),
        ),
{
    let mut items: Vec<serde_json::Value> = Vec::new();
    let mut i: usize = 0;
    while i < alerts.len()
        invariant
            i <= alerts@.len(),
            items@.len() == i,
            forall|k: int| 0 <= k < i ==> document(#[trigger] items@[k]) == Json::Text(alerts@[k]@),
        decreases alerts@.len() - i,
    {
        items.push(text(alerts[i]));
        i = i + 1;
    }
    assert(documents(items@) =~= strs_view(alerts@).map_values(|a: Seq<char>| Json::Text(a)));
    array(items)
}

/// Describes a window at the time `ts`, in seconds since 1970.
pub fn report_json(
    w: &WindowStats,
    v: Option<&Sample>,
    disk: &DiskResult,
    freeze: &FreezeState,
    alerts: &[&str],
    net: &Option<NetSample>,
    net_parse_errors: u64,
    self_cpu_ms: Option<u64>,
    sockets: Option<&SocketSample>,
    ts: u64,
) -> (r: serde_json::Value)
    requires
        net_wf(*net),
    ensures
        document(r) == report_tree(
            *w,
            v,
            *disk,
            *freeze,
            strs_view(alerts@),
            *net,
            net_parse_errors,
            self_cpu_ms,
            sockets,
            ts,
        ),
{
    let mut baseline = start();
    insert(&mut baseline, "disk_p99_median_us", number_or_null(disk.median_us));
    let mut m = start();
    insert(&mut m, "ts", number(ts));
    insert(&mut m, "schema_version", number(2));
    insert(&mut m, "consensus", text("towerbft"));
    insert(&mut m, "self_cpu_ms", number_or_null(self_cpu_ms));
    insert(&mut m, "disk", disk_json(w));
    insert(&mut m, "validator", validator_json(v));
    insert(&mut m, "baseline", object(baseline));
    insert(&mut m, "freeze", truth(freeze.freeze));
    insert(&mut m, "freeze_duration_ms", number(freeze.freeze_duration_ms));
    insert(&mut m, "freeze_in_last_n", number(freeze.freeze_in_last_n as u64));
    insert(&mut m, "alerts", alerts_json(alerts));
    insert(&mut m, "net", net_json(net, sockets, net_parse_errors));
    object(m)
}

/// Writes a window at the time `ts` as a JSON object.
pub fn to_json(
    w: &WindowStats,
    v: Option<&Sample>,
    disk: &DiskResult,
    freeze: &FreezeState,
    alerts: &[&str],
    net: &Option<NetSample>,
    net_parse_errors: u64,
    self_cpu_ms: Option<u64>,
    sockets: Option<&SocketSample>,
    ts: u64,
) -> (r: String)
    requires
        net_wf(*net),
    ensures
        r@ == json_text(
            report_tree(
                *w,
                v,
                *disk,
                *freeze,
                strs_view(alerts@),
                *net,
                net_parse_errors,
                self_cpu_ms,
                sockets,
                ts,
            ),
        ),
        one_line(r@),
{
    print(
        &report_json(
            w,
            v,
            disk,
            freeze,
            alerts,
            net,
            net_parse_errors,
            self_cpu_ms,
            sockets,
            ts,
        ),
    )
}

// ---- the line ----

/// Whether a text holds no line feed.
pub open spec fn one_line(s: Seq<char>) -> bool {
    forall|i: int| 0 <= i < s.len() ==> s[i] != '\n'
}

/// The time since the start, as `+02:41`, or `+1:02:41` from an hour on.
pub open spec fn elapsed_text(secs: u64) -> Seq<char> {
    if secs >= 3600 {
        "+"@ + decimal(secs as nat / 3600) + ":"@ + two_digits(secs as nat / 60 % 60) + ":"@
            + two_digits(secs as nat % 60)
    } else {
        "+"@ + two_digits(secs as nat / 60) + ":"@ + two_digits(secs as nat % 60)
    }
}

/// The first `n` of some texts, with commas between them.
pub open spec fn joined(names: Seq<Seq<char>>, n: int) -> Seq<char>
    decreases n,
{
    if n <= 0 {
        Seq::empty()
    } else if n == 1 {
        names[0]
    } else {
        joined(names, n - 1) + ","@ + names[n - 1]
    }
}

/// The alerts at the end of a line.
pub open spec fn alerts_suffix(alerts: Seq<Seq<char>>) -> Seq<char> {
    if alerts.len() == 0 {
        Seq::empty()
    } else {
        " | !! "@ + joined(alerts, alerts.len() as int)
    }
}

/// What the last poll of the validator gave, in short.
pub open spec fn validator_text(v: Option<&Sample>) -> Seq<char> {
    match v {
        Some(s) => compact_text(*s),
        None => "validator: no sample yet"@,
    }
}

/// The report of a window as a line.
pub open spec fn line_text(
    w: WindowStats,
    v: Option<&Sample>,
    alerts: Seq<Seq<char>>,
    elapsed_secs: u64,
) -> Seq<char> {
    elapsed_text(elapsed_secs) + " | "@ + compact_stats_text(w) + " || "@ + validator_text(v)
        + alerts_suffix(alerts)
}

/// Writes the time since the start.
pub fn elapsed(secs: u64) -> (r: String)
    ensures
        r@ == elapsed_text(secs),
{
    let mut out = "+".to_string();
    if secs >= 3600 {
        push_decimal(&mut out, (secs / 3600) as u128);
        out.append(":");
        push_two_digits(&mut out, secs / 60 % 60);
        out.append(":");
        push_two_digits(&mut out, secs % 60);
    } else {
        push_two_digits(&mut out, secs / 60);
        out.append(":");
        push_two_digits(&mut out, secs % 60);
    }
    out
}

fn join_alerts(alerts: &[&str]) -> (r: String)
    ensures
        r@ == joined(strs_view(alerts@), alerts@.len() as int),
{
    let mut out = String::new();
    let mut i: usize = 0;
    assert(out@ =~= Seq::empty());
    while i < alerts.len()
        invariant
            i <= alerts@.len(),
            out@ == joined(strs_view(alerts@), i as int),
        decreases alerts@.len() - i,
    {
        assert(strs_view(alerts@)[i as int] == alerts@[i as int]@);
        if i > 0 {
            out.append(",");
        }
        out.append(alerts[i]);
        i = i + 1;
        assert(out@ =~= joined(strs_view(alerts@), i as int));
    }
    out
}

/// Writes a window as a line.
pub fn window_line(w: &WindowStats, v: Option<&Sample>, alerts: &[&str], elapsed_secs: u64) -> (r:
    String)
    ensures
        r@ == line_text(*w, v, strs_view(alerts@), elapsed_secs),
{
    let mut out = elapsed(elapsed_secs);
    let disk = compact_stats(w);
    let validator = match v {
        Some(s) => compact(s),
        None => "validator: no sample yet".to_string(),
    };
    out.append(" | ");
    out.append(disk.as_str());
    out.append(" || ");
    out.append(validator.as_str());
    if alerts.len() > 0 {
        let mut suffix = " | !! ".to_string();
        let names = join_alerts(alerts);
        suffix.append(names.as_str());
        out.append(suffix.as_str());
    }
    assert(out@ =~= line_text(*w, v, strs_view(alerts@), elapsed_secs));
    out
}

/// The report of a window in the wanted form.
pub open spec fn emitted_text(
    json_mode: bool,
    w: WindowStats,
    v: Option<&Sample>,
    disk: DiskResult,
    freeze: FreezeState,
    alerts: Seq<Seq<char>>,
    net: Option<NetSample>,
    net_parse_errors: u64,
    self_cpu_ms: Option<u64>,
    sockets: Option<&SocketSample>,
    clock: Clock,
) -> Seq<char> {
    if json_mode {
        json_text(
            report_tree(
                w,
                v,
                disk,
                freeze,
                alerts,
                net,
                net_parse_errors,
                self_cpu_ms,
                sockets,
                clock.epoch_secs,
            ),
        )
    } else {
        line_text(w, v, alerts, clock.elapsed_secs)
    }
}

/// The time at which a window is reported.
#[derive(Clone, Copy, Debug, PartialEq, Eq, Structural)]
pub struct Clock {
    /// Since the start.
    pub elapsed_secs: u64,
    /// Since 1970.
    pub epoch_secs: u64,
}

/// Writes a window in the wanted form.
pub fn emit(
    w: &WindowStats,
    v: Option<&Sample>,
    json_mode: bool,
    clock: Clock,
    disk: &DiskResult,
    freeze: &FreezeState,
    alerts: &[&str],
    net: &Option<NetSample>,
    net_parse_errors: u64,
    self_cpu_ms: Option<u64>,
    sockets: Option<&SocketSample>,
) -> (r: String)
    requires
        net_wf(*net),
    ensures
        r@ == emitted_text(
            json_mode,
            *w,
            v,
            *disk,
            *freeze,
            strs_view(alerts@),
            *net,
            net_parse_errors,
            self_cpu_ms,
            sockets,
            clock,
        ),
        json_mode ==> one_line(r@),
{
    if json_mode {
        to_json(
            w,
            v,
            disk,
            freeze,
            alerts,
            net,
            net_parse_errors,
            self_cpu_ms,
            sockets,
            clock.epoch_secs,
        )
    } else {
        window_line(w, v, alerts, clock.elapsed_secs)
    }
}

// ---- what holds of all lines ----

proof fn lemma_decimal_is_one_line(n: nat)
    ensures
        one_line(decimal(n)),
{
    lemma_decimal_chars(n);
}

proof fn lemma_grouped_is_one_line(n: nat)
    ensures
        one_line(grouped(n)),
    decreases n,
{
    if n < 1000 {
        lemma_decimal_is_one_line(n);
    } else {
        lemma_grouped_is_one_line(n / 1000);
    }
}

proof fn lemma_quotient_is_one_line(n: nat, d: nat, shift: nat)
    ensures
        one_line(quotient_text(n, d, shift)),
{
    reveal_strlit("NaN");
    reveal_strlit("inf");
    if d > 0 {
        let q = double_quotient(double_integer(n), double_integer(d));
        let t = nearest_tenths(Dyadic { m: q.m, e: q.e - shift });
        lemma_decimal_is_one_line(t / 10);
    }
}

proof fn lemma_disk_is_one_line(w: WindowStats)
    ensures
        one_line(compact_stats_text(w)),
{
    reveal_strlit("disk idle");
    reveal_strlit("disk p99 ");
    reveal_strlit(" | ");
    reveal_strlit(" reqs | ");
    reveal_strlit(" MB/s");
    reveal_strlit(" | ERR ");
    reveal_strlit("ms");
    reveal_strlit("µs");
    lemma_decimal_is_one_line(w.errors as nat);
    lemma_decimal_is_one_line(w.reqs as nat);
    lemma_decimal_is_one_line(w.p99_ns as nat / 1_000);
    lemma_quotient_is_one_line(w.p99_ns as nat, 1_000_000, 0);
    lemma_grouped_is_one_line(rounded(w.p99_ns as nat, 1_000_000));
    lemma_quotient_is_one_line(w.bytes as nat, w.window_secs as nat, 20);
}

proof fn lemma_validator_is_one_line(v: Option<&Sample>)
    ensures
        one_line(validator_text(v)),
{
    reveal_strlit("validator: no sample yet");
    reveal_strlit("validator DOWN");
    reveal_strlit("slot ");
    reveal_strlit(" | lag ");
    reveal_strlit(" | credits ");
    reveal_strlit(" | ");
    reveal_strlit("UNHEALTHY");
    reveal_strlit("DELINQUENT");
    reveal_strlit("LAGGING");
    reveal_strlit("OK");
    match v {
        Some(Sample::Up(s)) => {
            lemma_grouped_is_one_line(s.network_slot as nat);
            lemma_grouped_is_one_line(s.credits as nat);
            lemma_decimal_is_one_line(s.vote_lag as nat);
            lemma_decimal_is_one_line((-s.vote_lag) as nat);
        },
        _ => {},
    }
}

proof fn lemma_joined_is_one_line(names: Seq<Seq<char>>, n: int)
    requires
        0 <= n <= names.len(),
        forall|i: int| 0 <= i < names.len() ==> one_line(#[trigger] names[i]),
    ensures
        one_line(joined(names, n)),
    decreases n,
{
    reveal_strlit(",");
    if n > 0 {
        lemma_joined_is_one_line(names, n - 1);
    }
}

/// A window makes one line: whatever the disk and the validator do, even one
/// that is down for a reason of many lines, no line feed gets into the report.
pub proof fn law_report_is_one_line(
    w: WindowStats,
    v: Option<&Sample>,
    alerts: Seq<Seq<char>>,
    elapsed_secs: u64,
)
    requires
        forall|i: int| 0 <= i < alerts.len() ==> one_line(#[trigger] alerts[i]),
    ensures
        one_line(line_text(w, v, alerts, elapsed_secs)),
{
    reveal_strlit("+");
    reveal_strlit(":");
    reveal_strlit(" | ");
    reveal_strlit(" || ");
    reveal_strlit(" | !! ");
    lemma_disk_is_one_line(w);
    lemma_validator_is_one_line(v);
    lemma_joined_is_one_line(alerts, alerts.len() as int);
    let secs = elapsed_secs as nat;
    lemma_decimal_is_one_line(secs / 3600);
    lemma_decimal_is_one_line(secs / 60);
    lemma_decimal_is_one_line(secs / 60 % 60);
    lemma_decimal_is_one_line(secs % 60);
    assert(one_line(elapsed_text(elapsed_secs)));
    assert(one_line(alerts_suffix(alerts)));
}

// ---- what holds of all objects ----

/// Whether a document is an object that has a member with this key and value.
pub open spec fn has_member(j: Json, key: Seq<char>, value: Json) -> bool {
    j matches Json::Object(m) && m.contains_key(key) && m[key] == value
}

/// The JSON state of a validator tells what is wrong with it, as its state in the lines
/// does: `unhealthy` if and only if it is not healthy, whatever else; `delinquent` of a
/// healthy one that is; `lagging` of one that is neither but more than 150 slots behind;
/// `ok` only where nothing of that holds.
pub proof fn law_json_state_names_the_worst(s: ValidatorSample)
    ensures
        has_member(up_tree(s), "state"@, Json::Text("unhealthy"@)) <==> !s.healthy,
        has_member(up_tree(s), "state"@, Json::Text("delinquent"@)) <==> s.healthy && s.delinquent,
        has_member(up_tree(s), "state"@, Json::Text("lagging"@)) <==> s.healthy && !s.delinquent
            && s.vote_lag > 150,
        has_member(up_tree(s), "state"@, Json::Text("ok"@)) <==> s.healthy && !s.delinquent
            && s.vote_lag <= 150,
        has_member(up_tree(s), "state"@, Json::Text(lowered(state_text(s)))),
{
    lemma_state_key(s);
    law_object_of_the_validator(s);
    reveal_strlit("unhealthy");
    reveal_strlit("delinquent");
    reveal_strlit("lagging");
    reveal_strlit("ok");
    assert("unhealthy"@.len() == 9 && "delinquent"@.len() == 10);
    assert("lagging"@.len() == 7 && "ok"@.len() == 2);
}

/// The object of a validator that answered has each of its numbers under its key.
pub proof fn law_object_of_the_validator(s: ValidatorSample)
    ensures
        has_member(up_tree(s), "state"@, Json::Text(state_key(s))),
        has_member(up_tree(s), "epoch"@, Json::Number(s.epoch as int)),
        has_member(up_tree(s), "slot"@, Json::Number(s.network_slot as int)),
        has_member(up_tree(s), "last_vote"@, Json::Number(s.my_last_vote as int)),
        has_member(up_tree(s), "vote_lag"@, Json::Number(s.vote_lag as int)),
        has_member(up_tree(s), "credits"@, Json::Number(s.credits as int)),
        has_member(up_tree(s), "delinquent"@, Json::Bool(s.delinquent)),
        has_member(up_tree(s), "healthy"@, Json::Bool(s.healthy)),
{
    reveal_strlit("state");
    reveal_strlit("epoch");
    reveal_strlit("slot");
    reveal_strlit("last_vote");
    reveal_strlit("vote_lag");
    reveal_strlit("credits");
    reveal_strlit("delinquent");
    reveal_strlit("healthy");
    assert("state"@.len() == 5 && "state"@[0] == 's' && "state"@[1] == 't' && "state"@[2] == 'a');
    assert("epoch"@.len() == 5 && "epoch"@[0] == 'e' && "epoch"@[1] == 'p' && "epoch"@[2] == 'o');
    assert("slot"@.len() == 4 && "slot"@[0] == 's' && "slot"@[1] == 'l' && "slot"@[2] == 'o');
    assert("last_vote"@.len() == 9 && "last_vote"@[0] == 'l' && "last_vote"@[1] == 'a' && "last_vote"@[2] == 's');
    assert("vote_lag"@.len() == 8 && "vote_lag"@[0] == 'v' && "vote_lag"@[1] == 'o' && "vote_lag"@[2] == 't');
    assert("credits"@.len() == 7 && "credits"@[0] == 'c' && "credits"@[1] == 'r' && "credits"@[2] == 'e');
    assert("delinquent"@.len() == 10 && "delinquent"@[0] == 'd' && "delinquent"@[1] == 'e' && "delinquent"@[2] == 'l');
    assert("healthy"@.len() == 7 && "healthy"@[0] == 'h' && "healthy"@[1] == 'e' && "healthy"@[2] == 'a');
}

/// A validator that did not answer is `down` for its reason; before the first poll there
/// is nothing.
pub proof fn law_object_of_a_failed_poll(v: &Sample)
    ensures
        v matches Sample::Down { reason } ==> has_member(
            validator_tree(Some(v)),
            "state"@,
            Json::Text("down"@),
        ) && has_member(validator_tree(Some(v)), "reason"@, Json::Text(reason@)),
        v matches Sample::Up(s) ==> validator_tree(Some(v)) == up_tree(*s),
        validator_tree(None) == Json::Null,
{
    reveal_strlit("state");
    reveal_strlit("reason");
    assert("state"@.len() == 5 && "state"@[0] == 's' && "state"@[1] == 't' && "state"@[2] == 'a');
    assert("reason"@.len() == 6 && "reason"@[0] == 'r' && "reason"@[1] == 'e' && "reason"@[2] == 'a');
}

/// The object of the disk has each number of the window under its key, latencies in whole
/// microseconds.
pub proof fn law_object_of_the_disk(w: WindowStats)
    ensures
        has_member(disk_tree(w), "window_secs"@, Json::Number(w.window_secs as int)),
        has_member(disk_tree(w), "reqs"@, Json::Number(w.reqs as int)),
        has_member(disk_tree(w), "writes"@, Json::Number(w.writes as int)),
        has_member(disk_tree(w), "reads"@, Json::Number(w.reads as int)),
        has_member(disk_tree(w), "others"@, Json::Number(w.others as int)),
        has_member(disk_tree(w), "bytes"@, Json::Number(w.bytes as int)),
        has_member(disk_tree(w), "errors"@, Json::Number(w.errors as int)),
        has_member(disk_tree(w), "p50_us"@, Json::Number(w.p50_ns as int / 1_000)),
        has_member(disk_tree(w), "p99_us"@, Json::Number(w.p99_ns as int / 1_000)),
        has_member(disk_tree(w), "max_us"@, Json::Number(w.max_ns as int / 1_000)),
{
    reveal_strlit("window_secs");
    reveal_strlit("reqs");
    reveal_strlit("writes");
    reveal_strlit("reads");
    reveal_strlit("others");
    reveal_strlit("bytes");
    reveal_strlit("errors");
    reveal_strlit("p50_us");
    reveal_strlit("p99_us");
    reveal_strlit("max_us");
    assert("window_secs"@.len() == 11 && "window_secs"@[0] == 'w' && "window_secs"@[1] == 'i' && "window_secs"@[2] == 'n');
    assert("reqs"@.len() == 4 && "reqs"@[0] == 'r' && "reqs"@[1] == 'e' && "reqs"@[2] == 'q');
    assert("writes"@.len() == 6 && "writes"@[0] == 'w' && "writes"@[1] == 'r' && "writes"@[2] == 'i');
    assert("reads"@.len() == 5 && "reads"@[0] == 'r' && "reads"@[1] == 'e' && "reads"@[2] == 'a');
    assert("others"@.len() == 6 && "others"@[0] == 'o' && "others"@[1] == 't' && "others"@[2] == 'h');
    assert("bytes"@.len() == 5 && "bytes"@[0] == 'b' && "bytes"@[1] == 'y' && "bytes"@[2] == 't');
    assert("errors"@.len() == 6 && "errors"@[0] == 'e' && "errors"@[1] == 'r' && "errors"@[2] == 'r');
    assert("p50_us"@.len() == 6 && "p50_us"@[0] == 'p' && "p50_us"@[1] == '5' && "p50_us"@[2] == '0');
    assert("p99_us"@.len() == 6 && "p99_us"@[0] == 'p' && "p99_us"@[1] == '9' && "p99_us"@[2] == '9');
    assert("max_us"@.len() == 6 && "max_us"@[0] == 'm' && "max_us"@[1] == 'a' && "max_us"@[2] == 'x');
}

/// The object of a port has each of its numbers under its key.
pub proof fn law_object_of_a_port(e: SocketEntry)
    ensures
        has_member(socket_tree(e), "port"@, Json::Number(e.port as int)),
        has_member(socket_tree(e), "role"@, Json::Text(e.role@)),
        has_member(socket_tree(e), "drops"@, Json::Number(e.drops as int)),
        has_member(socket_tree(e), "rx_queue"@, Json::Number(e.rx_queue as int)),
        has_member(socket_tree(e), "tx_queue"@, Json::Number(e.tx_queue as int)),
{
    reveal_strlit("port");
    reveal_strlit("role");
    reveal_strlit("drops");
    reveal_strlit("rx_queue");
    reveal_strlit("tx_queue");
    assert("port"@.len() == 4 && "port"@[0] == 'p' && "port"@[1] == 'o' && "port"@[2] == 'r');
    assert("role"@.len() == 4 && "role"@[0] == 'r' && "role"@[1] == 'o' && "role"@[2] == 'l');
    assert("drops"@.len() == 5 && "drops"@[0] == 'd' && "drops"@[1] == 'r' && "drops"@[2] == 'o');
    assert("rx_queue"@.len() == 8 && "rx_queue"@[0] == 'r' && "rx_queue"@[1] == 'x' && "rx_queue"@[2] == '_');
    assert("tx_queue"@.len() == 8 && "tx_queue"@[0] == 't' && "tx_queue"@[1] == 'x' && "tx_queue"@[2] == '_');
}

/// The object of the ring has each counter under its name.
pub proof fn law_object_of_the_ring(d: RingDelta)
    ensures
        has_member(ring_tree(d), "rx_missed_errors"@, Json::Number(d.rx_missed_errors as int)),
        has_member(ring_tree(d), "rx_dropped"@, Json::Number(d.rx_dropped as int)),
        has_member(ring_tree(d), "rx_errors"@, Json::Number(d.rx_errors as int)),
        has_member(ring_tree(d), "rx_fifo_errors"@, Json::Number(d.rx_fifo_errors as int)),
{
    reveal_strlit("rx_missed_errors");
    reveal_strlit("rx_dropped");
    reveal_strlit("rx_errors");
    reveal_strlit("rx_fifo_errors");
    assert("rx_missed_errors"@.len() == 16 && "rx_missed_errors"@[0] == 'r' && "rx_missed_errors"@[1] == 'x' && "rx_missed_errors"@[2] == '_');
    assert("rx_dropped"@.len() == 10 && "rx_dropped"@[0] == 'r' && "rx_dropped"@[1] == 'x' && "rx_dropped"@[2] == '_');
    assert("rx_errors"@.len() == 9 && "rx_errors"@[0] == 'r' && "rx_errors"@[1] == 'x' && "rx_errors"@[2] == '_');
    assert("rx_fifo_errors"@.len() == 14 && "rx_fifo_errors"@[0] == 'r' && "rx_fifo_errors"@[1] == 'x' && "rx_fifo_errors"@[2] == '_');
}

/// The object of the NAPI counters has each counter under its name.
pub proof fn law_object_of_the_softnet(d: SoftnetDelta)
    ensures
        has_member(softnet_tree(d), "processed"@, Json::Number(d.processed as int)),
        has_member(softnet_tree(d), "dropped"@, Json::Number(d.dropped as int)),
        has_member(softnet_tree(d), "time_squeeze"@, Json::Number(d.time_squeeze as int)),
        has_member(softnet_tree(d), "time_squeeze_max_cpu"@, Json::Number(d.time_squeeze_max_cpu as int)),
        has_member(softnet_tree(d), "max_cpu_id"@, Json::Number(d.max_cpu_id as int)),
{
    reveal_strlit("processed");
    reveal_strlit("dropped");
    reveal_strlit("time_squeeze");
    reveal_strlit("time_squeeze_max_cpu");
    reveal_strlit("max_cpu_id");
    assert("processed"@.len() == 9 && "processed"@[0] == 'p' && "processed"@[1] == 'r' && "processed"@[2] == 'o');
    assert("dropped"@.len() == 7 && "dropped"@[0] == 'd' && "dropped"@[1] == 'r' && "dropped"@[2] == 'o');
    assert("time_squeeze"@.len() == 12 && "time_squeeze"@[0] == 't' && "time_squeeze"@[1] == 'i' && "time_squeeze"@[2] == 'm');
    assert("time_squeeze_max_cpu"@.len() == 20 && "time_squeeze_max_cpu"@[0] == 't' && "time_squeeze_max_cpu"@[1] == 'i' && "time_squeeze_max_cpu"@[2] == 'm');
    assert("max_cpu_id"@.len() == 10 && "max_cpu_id"@[0] == 'm' && "max_cpu_id"@[1] == 'a' && "max_cpu_id"@[2] == 'x');
}

/// The object of the UDP counters has each counter under its name.
pub proof fn law_object_of_the_udp(d: SnmpUdpDelta)
    ensures
        has_member(snmp_tree(d), "in_datagrams"@, Json::Number(d.in_datagrams as int)),
        has_member(snmp_tree(d), "in_errors"@, Json::Number(d.in_errors as int)),
        has_member(snmp_tree(d), "rcvbuf_errors"@, Json::Number(d.rcvbuf_errors as int)),
        has_member(snmp_tree(d), "sndbuf_errors"@, Json::Number(d.sndbuf_errors as int)),
        has_member(snmp_tree(d), "no_ports"@, Json::Number(d.no_ports as int)),
{
    reveal_strlit("in_datagrams");
    reveal_strlit("in_errors");
    reveal_strlit("rcvbuf_errors");
    reveal_strlit("sndbuf_errors");
    reveal_strlit("no_ports");
    assert("in_datagrams"@.len() == 12 && "in_datagrams"@[0] == 'i' && "in_datagrams"@[1] == 'n' && "in_datagrams"@[2] == '_');
    assert("in_errors"@.len() == 9 && "in_errors"@[0] == 'i' && "in_errors"@[1] == 'n' && "in_errors"@[2] == '_');
    assert("rcvbuf_errors"@.len() == 13 && "rcvbuf_errors"@[0] == 'r' && "rcvbuf_errors"@[1] == 'c' && "rcvbuf_errors"@[2] == 'v');
    assert("sndbuf_errors"@.len() == 13 && "sndbuf_errors"@[0] == 's' && "sndbuf_errors"@[1] == 'n' && "sndbuf_errors"@[2] == 'd');
    assert("no_ports"@.len() == 8 && "no_ports"@[0] == 'n' && "no_ports"@[1] == 'o' && "no_ports"@[2] == '_');
}

/// The object of the network has each layer under its key: the interface, the growth of
/// the three kinds of counters, one object for each port in the order of the sample, the
/// process, every statistic of the driver under its own name, whether a counter went
/// backwards, and how many readings failed. Without a comparison there is nothing.
pub proof fn law_object_of_the_network(
    n: NetSample,
    sockets: Option<&SocketSample>,
    parse_errors: u64,
)
    ensures
        ({
            let j = net_tree(Some(n), sockets, parse_errors);
            &&& has_member(j, "iface"@, Json::Text(n.iface@))
            &&& has_member(
                j,
                "is_xdp"@,
                match n.is_xdp {
                    Some(b) => Json::Bool(b),
                    None => Json::Null,
                },
            )
            &&& has_member(j, "ring"@, ring_tree(n.ring))
            &&& has_member(j, "softnet"@, softnet_tree(n.softnet))
            &&& has_member(j, "snmp_udp"@, snmp_tree(n.snmp_udp))
            &&& has_member(j, "counters_reset"@, Json::Bool(n.counters_reset))
            &&& has_member(j, "parse_errors"@, Json::Number(parse_errors as int))
            &&& has_member(
                j,
                "agave_pid"@,
                match sockets {
                    Some(x) => match x.pid {
                        Some(pid) => Json::Number(pid as int),
                        None => Json::Null,
                    },
                    None => Json::Null,
                },
            )
            &&& has_member(j, "sockets"@, Json::Array(socket_trees(sockets)))
            &&& has_member(j, "ethtool"@, table_tree(n.ethtool@))
        }),
        net_tree(None, sockets, parse_errors) == Json::Null,
{
    reveal_strlit("iface");
    reveal_strlit("is_xdp");
    reveal_strlit("ring");
    reveal_strlit("softnet");
    reveal_strlit("snmp_udp");
    reveal_strlit("sockets");
    reveal_strlit("agave_pid");
    reveal_strlit("ethtool");
    reveal_strlit("counters_reset");
    reveal_strlit("parse_errors");
    assert("iface"@.len() == 5 && "iface"@[0] == 'i' && "iface"@[1] == 'f' && "iface"@[2] == 'a');
    assert("is_xdp"@.len() == 6 && "is_xdp"@[0] == 'i' && "is_xdp"@[1] == 's' && "is_xdp"@[2] == '_');
    assert("ring"@.len() == 4 && "ring"@[0] == 'r' && "ring"@[1] == 'i' && "ring"@[2] == 'n');
    assert("softnet"@.len() == 7 && "softnet"@[0] == 's' && "softnet"@[1] == 'o' && "softnet"@[2] == 'f');
    assert("snmp_udp"@.len() == 8 && "snmp_udp"@[0] == 's' && "snmp_udp"@[1] == 'n' && "snmp_udp"@[2] == 'm');
    assert("sockets"@.len() == 7 && "sockets"@[0] == 's' && "sockets"@[1] == 'o' && "sockets"@[2] == 'c');
    assert("agave_pid"@.len() == 9 && "agave_pid"@[0] == 'a' && "agave_pid"@[1] == 'g' && "agave_pid"@[2] == 'a');
    assert("ethtool"@.len() == 7 && "ethtool"@[0] == 'e' && "ethtool"@[1] == 't' && "ethtool"@[2] == 'h');
    assert("counters_reset"@.len() == 14 && "counters_reset"@[0] == 'c' && "counters_reset"@[1] == 'o' && "counters_reset"@[2] == 'u');
    assert("parse_errors"@.len() == 12 && "parse_errors"@[0] == 'p' && "parse_errors"@[1] == 'a' && "parse_errors"@[2] == 'r');
}

/// The ports are listed one by one, and the statistics of the driver name by name.
pub proof fn law_object_lists_ports_and_statistics(
    x: &SocketSample,
    t: Map<Seq<char>, u64>,
    i: int,
    name: Seq<char>,
)
    ensures
        socket_trees(Some(x)).len() == x.sockets@.len(),
        socket_trees(None).len() == 0,
        0 <= i < x.sockets@.len() ==> socket_trees(Some(x))[i] == socket_tree(x.sockets@[i]),
        t.contains_key(name) ==> has_member(table_tree(t), name, Json::Number(t[name] as int)),
        table_tree(t) matches Json::Object(m) && m.dom() == t.dom(),
{
    assert(table_tree(t)->Object_0.dom() =~= t.dom());
}

/// The report of a window has the disk, the validator and the network each under its
/// key, beside the time, the version, the own CPU time, the median, the freeze and the
/// alerts.
pub proof fn law_object_of_a_window(
    w: WindowStats,
    v: Option<&Sample>,
    disk: DiskResult,
    freeze: FreezeState,
    alerts: Seq<Seq<char>>,
    net: Option<NetSample>,
    net_parse_errors: u64,
    self_cpu_ms: Option<u64>,
    sockets: Option<&SocketSample>,
    ts: u64,
)
    ensures
        ({
            let j = report_tree(
                w,
                v,
                disk,
                freeze,
                alerts,
                net,
                net_parse_errors,
                self_cpu_ms,
                sockets,
                ts,
            );
            &&& has_member(j, "ts"@, Json::Number(ts as int))
            &&& has_member(j, "schema_version"@, Json::Number(2))
            &&& has_member(j, "consensus"@, Json::Text("towerbft"@))
            &&& has_member(
                j,
                "self_cpu_ms"@,
                match self_cpu_ms {
                    Some(ms) => Json::Number(ms as int),
                    None => Json::Null,
                },
            )
            &&& has_member(j, "disk"@, disk_tree(w))
            &&& has_member(j, "validator"@, validator_tree(v))
            &&& has_member(j, "freeze"@, Json::Bool(freeze.freeze))
            &&& has_member(
                j,
                "freeze_duration_ms"@,
                Json::Number(freeze.freeze_duration_ms as int),
            )
            &&& has_member(j, "freeze_in_last_n"@, Json::Number(freeze.freeze_in_last_n as int))
            &&& has_member(j, "net"@, net_tree(net, sockets, net_parse_errors))
            &&& j matches Json::Object(m) && has_member(
                m["baseline"@],
                "disk_p99_median_us"@,
                match disk.median_us {
                    Some(us) => Json::Number(us as int),
                    None => Json::Null,
                },
            ) && (m["alerts"@] matches Json::Array(a) && a.len() == alerts.len() && forall|i: int|
                0 <= i < alerts.len() ==> #[trigger] a[i] == Json::Text(alerts[i]))
        }),
{
    reveal_strlit("ts");
    reveal_strlit("schema_version");
    reveal_strlit("consensus");
    reveal_strlit("self_cpu_ms");
    reveal_strlit("disk");
    reveal_strlit("validator");
    reveal_strlit("baseline");
    reveal_strlit("freeze");
    reveal_strlit("freeze_duration_ms");
    reveal_strlit("freeze_in_last_n");
    reveal_strlit("alerts");
    reveal_strlit("net");
    assert("ts"@.len() == 2 && "ts"@[0] == 't' && "ts"@[1] == 's');
    assert("schema_version"@.len() == 14 && "schema_version"@[0] == 's' && "schema_version"@[1] == 'c' && "schema_version"@[2] == 'h');
    assert("consensus"@.len() == 9 && "consensus"@[0] == 'c' && "consensus"@[1] == 'o' && "consensus"@[2] == 'n');
    assert("self_cpu_ms"@.len() == 11 && "self_cpu_ms"@[0] == 's' && "self_cpu_ms"@[1] == 'e' && "self_cpu_ms"@[2] == 'l');
    assert("disk"@.len() == 4 && "disk"@[0] == 'd' && "disk"@[1] == 'i' && "disk"@[2] == 's');
    assert("validator"@.len() == 9 && "validator"@[0] == 'v' && "validator"@[1] == 'a' && "validator"@[2] == 'l');
    assert("baseline"@.len() == 8 && "baseline"@[0] == 'b' && "baseline"@[1] == 'a' && "baseline"@[2] == 's');
    assert("freeze"@.len() == 6 && "freeze"@[0] == 'f' && "freeze"@[1] == 'r' && "freeze"@[2] == 'e');
    assert("freeze_duration_ms"@.len() == 18 && "freeze_duration_ms"@[0] == 'f' && "freeze_duration_ms"@[1] == 'r' && "freeze_duration_ms"@[2] == 'e');
    assert("freeze_in_last_n"@.len() == 16 && "freeze_in_last_n"@[0] == 'f' && "freeze_in_last_n"@[1] == 'r' && "freeze_in_last_n"@[2] == 'e');
    assert("alerts"@.len() == 6 && "alerts"@[0] == 'a' && "alerts"@[1] == 'l' && "alerts"@[2] == 'e');
    assert("net"@.len() == 3 && "net"@[0] == 'n' && "net"@[1] == 'e' && "net"@[2] == 't');
}

// ---- what holds of the line ----

/// The line of a window has its parts in order: the time, the disk, the validator and the
/// alerts, of which there is nothing where none fired.
pub proof fn law_line_has_its_parts(
    w: WindowStats,
    v: Option<&Sample>,
    alerts: Seq<Seq<char>>,
    secs: u64,
)
    ensures
        ({
            let line = line_text(w, v, alerts, secs);
            let shown = match v {
                Some(s) => compact_text(*s),
                None => "validator: no sample yet"@,
            };
            let calm = elapsed_text(secs) + " | "@ + compact_stats_text(w) + " || "@ + shown;
            &&& has_prefix(line, calm)
            &&& alerts.len() == 0 ==> line.len() == calm.len()
            &&& alerts.len() > 0 ==> line == calm + " | !! "@ + joined(alerts, alerts.len() as int)
        }),
{
    let line = line_text(w, v, alerts, secs);
    let shown = match v {
        Some(s) => compact_text(*s),
        None => "validator: no sample yet"@,
    };
    let calm = elapsed_text(secs) + " | "@ + compact_stats_text(w) + " || "@ + shown;
    assert(line.subrange(0, calm.len() as int) =~= calm);
    if alerts.len() > 0 {
        lemma_regroup(calm, " | !! "@, joined(alerts, alerts.len() as int));
    }
}

/// The alerts are listed one behind the other with a comma between them, none left out.
pub proof fn law_alerts_are_joined(names: Seq<Seq<char>>, n: int)
    requires
        1 <= n < names.len(),
    ensures
        joined(names, 1) == names[0],
        joined(names, n + 1) == joined(names, n) + ","@ + names[n],
{
}

/// The time since the start reads back: hours, minutes and seconds, the latter two below
/// sixty and of two digits, add up to it.
pub proof fn law_elapsed_reads_back(secs: u64) -> (parts: (nat, nat, nat))
    ensures
        ({
            let (h, m, s) = parts;
            &&& 3600 * h + 60 * m + s == secs
            &&& m < 60 && s < 60
            &&& h == 0 ==> elapsed_text(secs) == "+"@ + two_digits(m) + ":"@ + two_digits(s)
            &&& h > 0 ==> elapsed_text(secs) == "+"@ + decimal(h) + ":"@ + two_digits(m) + ":"@
                + two_digits(s)
        }),
{
    (secs as nat / 3600, secs as nat / 60 % 60, secs as nat % 60)
}

/// The form asked for is the one given: an object in JSON mode, else a line.
pub proof fn law_form_is_the_one_asked_for(
    w: WindowStats,
    v: Option<&Sample>,
    disk: DiskResult,
    freeze: FreezeState,
    alerts: Seq<Seq<char>>,
    net: Option<NetSample>,
    errors: u64,
    cpu: Option<u64>,
    sockets: Option<&SocketSample>,
    clock: Clock,
)
    ensures
        emitted_text(true, w, v, disk, freeze, alerts, net, errors, cpu, sockets, clock)
            == json_text(
            report_tree(
                w,
                v,
                disk,
                freeze,
                alerts,
                net,
                errors,
                cpu,
                sockets,
                clock.epoch_secs,
            ),
        ),
        emitted_text(false, w, v, disk, freeze, alerts, net, errors, cpu, sockets, clock)
            == line_text(w, v, alerts, clock.elapsed_secs),
{
}

}
