//! Network counters, layers 1 to 3: the NIC ring, NAPI and UDP, as the files of
//! the kernel hold them. All of them are cumulative since boot.

use std::collections::HashMap;

use vstd::prelude::*;

use crate::source::{text_view, FileText};
use crate::text::{
    chars_of, has_prefix, int_error_text, is_text, lines, lines_of, parse_uint, lemma_uint_bound,
    strip_prefix, trim, trimmed, uint_value, views, words, words_of, IntError,
};

verus! {

broadcast use vstd::std_specs::hash::group_hash_axioms;

// ---- counters ----

/// Layer 1: what the NIC ring counts.
#[derive(Clone, Copy, Debug, PartialEq, Eq, Structural)]
pub struct RingCounters {
    pub rx_missed_errors: u64,
    pub rx_dropped: u64,
    pub rx_errors: u64,
    pub rx_fifo_errors: u64,
}

/// Layer 2: what NAPI counts, over all CPUs, and the squeezes of each CPU.
pub struct SoftnetCounters {
    pub processed: u64,
    pub dropped: u64,
    pub time_squeeze: u64,
    pub per_cpu_time_squeeze: HashMap<u32, u64>,
}

/// Layer 3: what UDP counts.
#[derive(Clone, Copy, Debug, PartialEq, Eq, Structural)]
pub struct SnmpUdpCounters {
    pub in_datagrams: u64,
    pub in_errors: u64,
    pub rcvbuf_errors: u64,
    pub sndbuf_errors: u64,
    pub no_ports: u64,
}

/// The counters of all three layers.
pub struct Raw {
    pub ring: RingCounters,
    pub softnet: SoftnetCounters,
    pub snmp_udp: SnmpUdpCounters,
}

/// The NAPI counters as values.
#[verifier::ext_equal]
pub struct SoftnetView {
    pub processed: u64,
    pub dropped: u64,
    pub time_squeeze: u64,
    pub per_cpu: Map<u32, u64>,
}

/// The counters of all three layers as values.
#[verifier::ext_equal]
pub struct RawView {
    pub ring: RingCounters,
    pub softnet: SoftnetView,
    pub snmp_udp: SnmpUdpCounters,
}

impl View for SoftnetCounters {
    type V = SoftnetView;

    open spec fn view(&self) -> SoftnetView {
        SoftnetView {
            processed: self.processed,
            dropped: self.dropped,
            time_squeeze: self.time_squeeze,
            per_cpu: self.per_cpu_time_squeeze@,
        }
    }
}

impl View for Raw {
    type V = RawView;

    open spec fn view(&self) -> RawView {
        RawView { ring: self.ring, softnet: self.softnet@, snmp_udp: self.snmp_udp }
    }
}

/// The six files that hold the counters.
pub struct NetFiles {
    pub rx_missed_errors: FileText,
    pub rx_dropped: FileText,
    pub rx_errors: FileText,
    pub rx_fifo_errors: FileText,
    pub softnet: FileText,
    pub snmp: FileText,
}

// ---- layer 1 ----

/// Where a ring counter of an interface is found.
pub open spec fn ring_path_text(iface: Seq<char>, name: Seq<char>) -> Seq<char> {
    "/sys/class/net/"@ + iface + "/statistics/"@ + name
}

/// The value in the file of one counter, or what is wrong with it.
pub open spec fn counter_value(path: Seq<char>, file: Result<Seq<char>, Seq<char>>) -> Result<
    u64,
    Seq<char>,
> {
    match file {
        Err(e) => Err(path + ": "@ + e),
        Ok(t) => match uint_value(trimmed(t), 10, u64::MAX as int) {
            Ok(v) => Ok(v as u64),
            Err(e) => Err(path + ": bad value: "@ + int_error_text(e)),
        },
    }
}

/// The ring counters in the files of an interface; the first file that is
/// wrong decides the error.
pub open spec fn ring_value(iface: Seq<char>, f: NetFiles) -> Result<RingCounters, Seq<char>> {
    match counter_value(
        ring_path_text(iface, "rx_missed_errors"@),
        text_view(f.rx_missed_errors),
    ) {
        Err(e) => Err(e),
        Ok(missed) => match counter_value(
            ring_path_text(iface, "rx_dropped"@),
            text_view(f.rx_dropped),
        ) {
            Err(e) => Err(e),
            Ok(dropped) => match counter_value(
                ring_path_text(iface, "rx_errors"@),
                text_view(f.rx_errors),
            ) {
                Err(e) => Err(e),
                Ok(errors) => match counter_value(
                    ring_path_text(iface, "rx_fifo_errors"@),
                    text_view(f.rx_fifo_errors),
                ) {
                    Err(e) => Err(e),
                    Ok(fifo) => Ok(
                        RingCounters {
                            rx_missed_errors: missed,
                            rx_dropped: dropped,
                            rx_errors: errors,
                            rx_fifo_errors: fifo,
                        },
                    ),
                },
            },
        },
    }
}

/// Names the file of a ring counter.
pub fn ring_path(iface: &str, name: &str) -> (r: String)
    ensures
        r@ == ring_path_text(iface@, name@),
{
    let mut out = "/sys/class/net/".to_string();
    out.append(iface);
    out.append("/statistics/");
    out.append(name);
    out
}

fn read_counter(iface: &str, name: &str, file: &FileText) -> (r: Result<u64, String>)
    ensures
        (match r {
            Ok(v) => Ok(v),
            Err(e) => Err(e@),
        }) == counter_value(ring_path_text(iface@, name@), text_view(*file)),
{
    let mut out = ring_path(iface, name);
    match file {
        Err(e) => {
            out.append(": ");
            out.append(e.as_str());
            Err(out)
        },
        Ok(t) => {
            let chars = chars_of(t.as_str());
            match parse_uint(trim(chars.as_slice()), 10, u64::MAX) {
                Ok(v) => Ok(v),
                Err(e) => {
                    out.append(": bad value: ");
                    out.append(e.message());
                    Err(out)
                },
            }
        },
    }
}

/// Reads layer 1.
pub fn read_ring(iface: &str, files: &NetFiles) -> (r: Result<RingCounters, String>)
    ensures
        (match r {
            Ok(v) => Ok(v),
            Err(e) => Err(e@),
        }) == ring_value(iface@, *files),
{
    let rx_missed_errors = match read_counter(iface, "rx_missed_errors", &files.rx_missed_errors) {
        Ok(v) => v,
        Err(e) => {
            return Err(e);
        },
    };
    let rx_dropped = match read_counter(iface, "rx_dropped", &files.rx_dropped) {
        Ok(v) => v,
        Err(e) => {
            return Err(e);
        },
    };
    let rx_errors = match read_counter(iface, "rx_errors", &files.rx_errors) {
        Ok(v) => v,
        Err(e) => {
            return Err(e);
        },
    };
    let rx_fifo_errors = match read_counter(iface, "rx_fifo_errors", &files.rx_fifo_errors) {
        Ok(v) => v,
        Err(e) => {
            return Err(e);
        },
    };
    Ok(RingCounters { rx_missed_errors, rx_dropped, rx_errors, rx_fifo_errors })
}

// ---- layer 2 ----

/// The hexadecimal numbers among the first `n` words.
pub open spec fn hex_values(ws: Seq<Seq<char>>, n: int) -> Seq<u64>
    decreases n,
{
    if n <= 0 {
        Seq::empty()
    } else {
        match uint_value(ws[n - 1], 16, u64::MAX as int) {
            Ok(v) => hex_values(ws, n - 1).push(v as u64),
            Err(_) => hex_values(ws, n - 1),
        }
    }
}

/// The numbers of one CPU: the columns 0, 1, 2 and the last.
pub struct SoftnetRow {
    pub processed: u64,
    pub dropped: u64,
    pub time_squeeze: u64,
    pub cpu: u32,
}

/// The row in a line, where the line holds at least three numbers.
pub open spec fn softnet_row(line: Seq<char>) -> Option<SoftnetRow> {
    let ws = words_of(line);
    let f = hex_values(ws, ws.len() as int);
    if f.len() < 3 {
        None
    } else {
        Some(
            SoftnetRow {
                processed: f[0],
                dropped: f[1],
                time_squeeze: f[2],
                cpu: (f.last() % 0x1_0000_0000) as u32,
            },
        )
    }
}

/// The rows in the first `n` lines; a line without a row is passed over.
pub open spec fn softnet_rows(ls: Seq<Seq<char>>, n: int) -> Seq<SoftnetRow>
    decreases n,
{
    if n <= 0 {
        Seq::empty()
    } else {
        match softnet_row(ls[n - 1]) {
            Some(row) => softnet_rows(ls, n - 1).push(row),
            None => softnet_rows(ls, n - 1),
        }
    }
}

/// The packets processed in all rows.
pub open spec fn total_processed(rows: Seq<SoftnetRow>) -> int
    decreases rows.len(),
{
    if rows.len() == 0 {
        0
    } else {
        total_processed(rows.drop_last()) + rows.last().processed
    }
}

/// The packets dropped in all rows.
pub open spec fn total_dropped(rows: Seq<SoftnetRow>) -> int
    decreases rows.len(),
{
    if rows.len() == 0 {
        0
    } else {
        total_dropped(rows.drop_last()) + rows.last().dropped
    }
}

/// The squeezes in all rows.
pub open spec fn total_squeeze(rows: Seq<SoftnetRow>) -> int
    decreases rows.len(),
{
    if rows.len() == 0 {
        0
    } else {
        total_squeeze(rows.drop_last()) + rows.last().time_squeeze
    }
}

/// The squeezes of each CPU; of two rows for one CPU the later counts.
pub open spec fn squeeze_by_cpu(rows: Seq<SoftnetRow>) -> Map<u32, u64>
    decreases rows.len(),
{
    if rows.len() == 0 {
        Map::empty()
    } else {
        squeeze_by_cpu(rows.drop_last()).insert(rows.last().cpu, rows.last().time_squeeze)
    }
}

/// The NAPI counters in a file, or what is wrong with it. Totals that no
/// counter can hold are an error as well.
pub open spec fn softnet_value(file: Result<Seq<char>, Seq<char>>) -> Result<
    SoftnetView,
    Seq<char>,
> {
    match file {
        Err(e) => Err("softnet_stat: "@ + e),
        Ok(t) => {
            let ls = lines_of(t);
            let rows = softnet_rows(ls, ls.len() as int);
            if rows.len() == 0 {
                Err("softnet_stat: no parsable rows"@)
            } else if total_processed(rows) > u64::MAX || total_dropped(rows) > u64::MAX
                || total_squeeze(rows) > u64::MAX {
                Err("softnet_stat: counter overflow"@)
            } else {
                Ok(
                    SoftnetView {
                        processed: total_processed(rows) as u64,
                        dropped: total_dropped(rows) as u64,
                        time_squeeze: total_squeeze(rows) as u64,
                        per_cpu: squeeze_by_cpu(rows),
                    },
                )
            }
        },
    }
}

fn read_hex_words(ws: &Vec<&[char]>) -> (r: Vec<u64>)
    ensures
        r@ == hex_values(views(ws@), ws@.len() as int),
{
    let mut out: Vec<u64> = Vec::new();
    let mut i: usize = 0;
    while i < ws.len()
        invariant
            i <= ws@.len(),
            out@ == hex_values(views(ws@), i as int),
        decreases ws@.len() - i,
    {
        assert(views(ws@)[i as int] == ws@[i as int]@);
        match parse_uint(ws[i], 16, u64::MAX) {
            Ok(v) => {
                out.push(v);
            },
            Err(_) => {},
        }
        i = i + 1;
    }
    out
}

fn read_softnet_row(line: &[char]) -> (r: Option<SoftnetRow>)
    ensures
        r == softnet_row(line@),
{
    let ws = words(line);
    let f = read_hex_words(&ws);
    if f.len() < 3 {
        return None;
    }
    let last = f[f.len() - 1];
    Some(
        SoftnetRow {
            processed: f[0],
            dropped: f[1],
            time_squeeze: f[2],
            cpu: (last % 0x1_0000_0000) as u32,
        },
    )
}

fn read_softnet_rows(text: &[char]) -> (r: Vec<SoftnetRow>)
    ensures
        r@ == softnet_rows(lines_of(text@), lines_of(text@).len() as int),
{
    let ls = lines(text);
    let mut out: Vec<SoftnetRow> = Vec::new();
    let mut i: usize = 0;
    while i < ls.len()
        invariant
            i <= ls@.len(),
            views(ls@) == lines_of(text@),
            out@ == softnet_rows(lines_of(text@), i as int),
        decreases ls@.len() - i,
    {
        assert(views(ls@)[i as int] == ls@[i as int]@);
        match read_softnet_row(ls[i]) {
            Some(row) => {
                out.push(row);
            },
            None => {},
        }
        i = i + 1;
    }
    out
}

/// The totals over the first rows exceed no total over all rows.
proof fn lemma_totals_grow(rows: Seq<SoftnetRow>, n: int)
    requires
        0 <= n <= rows.len(),
    ensures
        0 <= total_processed(rows.take(n)) <= total_processed(rows),
        0 <= total_dropped(rows.take(n)) <= total_dropped(rows),
        0 <= total_squeeze(rows.take(n)) <= total_squeeze(rows),
    decreases rows.len(),
{
    if rows.len() == 0 {
        assert(rows.take(n) =~= rows);
    } else if n == rows.len() {
        assert(rows.take(n) =~= rows);
        lemma_totals_grow(rows.drop_last(), n - 1);
        assert(rows.drop_last().take(n - 1) =~= rows.drop_last());
    } else {
        lemma_totals_grow(rows.drop_last(), n);
        assert(rows.drop_last().take(n) =~= rows.take(n));
    }
}

fn add_up_softnet(rows: &Vec<SoftnetRow>) -> (r: Option<SoftnetCounters>)
    ensures
        match r {
            Some(c) => {
                &&& total_processed(rows@) == c.processed
                &&& total_dropped(rows@) == c.dropped
                &&& total_squeeze(rows@) == c.time_squeeze
                &&& c.per_cpu_time_squeeze@ == squeeze_by_cpu(rows@)
            },
            None => total_processed(rows@) > u64::MAX || total_dropped(rows@) > u64::MAX
                || total_squeeze(rows@) > u64::MAX,
        },
{
    let mut c = SoftnetCounters {
        processed: 0,
        dropped: 0,
        time_squeeze: 0,
        per_cpu_time_squeeze: HashMap::new(),
    };
    let mut i: usize = 0;
    while i < rows.len()
        invariant
            i <= rows@.len(),
            total_processed(rows@.take(i as int)) == c.processed,
            total_dropped(rows@.take(i as int)) == c.dropped,
            total_squeeze(rows@.take(i as int)) == c.time_squeeze,
            c.per_cpu_time_squeeze@ == squeeze_by_cpu(rows@.take(i as int)),
        decreases rows@.len() - i,
    {
        proof {
            assert(rows@.take(i + 1).drop_last() =~= rows@.take(i as int));
            assert(rows@.take(i + 1).last() == rows@[i as int]);
            lemma_totals_grow(rows@, i + 1);
        }
        let row = &rows[i];
        match (
            c.processed.checked_add(row.processed),
            c.dropped.checked_add(row.dropped),
            c.time_squeeze.checked_add(row.time_squeeze),
        ) {
            (Some(processed), Some(dropped), Some(time_squeeze)) => {
                c.processed = processed;
                c.dropped = dropped;
                c.time_squeeze = time_squeeze;
            },
            _ => {
                return None;
            },
        }
        c.per_cpu_time_squeeze.insert(row.cpu, row.time_squeeze);
        i = i + 1;
    }
    assert(rows@.take(i as int) =~= rows@);
    Some(c)
}

/// Reads layer 2, `/proc/net/softnet_stat`: one line per CPU, hexadecimal, no
/// header. Malformed lines are passed over.
pub fn read_softnet(file: &FileText) -> (r: Result<SoftnetCounters, String>)
    ensures
        (match r {
            Ok(c) => Ok(c@),
            Err(e) => Err(e@),
        }) == softnet_value(text_view(*file)),
{
    match file {
        Err(e) => {
            let mut out = "softnet_stat: ".to_string();
            out.append(e.as_str());
            Err(out)
        },
        Ok(t) => {
            let chars = chars_of(t.as_str());
            let rows = read_softnet_rows(chars.as_slice());
            if rows.len() == 0 {
                return Err("softnet_stat: no parsable rows".to_string());
            }
            match add_up_softnet(&rows) {
                Some(c) => Ok(c),
                None => Err("softnet_stat: counter overflow".to_string()),
            }
        },
    }
}

// ---- layer 3 ----

/// The first line from `i` on that begins with `Udp:`, or the end.
pub open spec fn udp_line(ls: Seq<Seq<char>>, i: int) -> int
    decreases ls.len() - i,
{
    if 0 <= i < ls.len() && !has_prefix(ls[i], "Udp:"@) {
        udp_line(ls, i + 1)
    } else {
        i
    }
}

/// The words behind the first.
pub open spec fn rest_of(ws: Seq<Seq<char>>) -> Seq<Seq<char>> {
    if ws.len() == 0 {
        ws
    } else {
        ws.subrange(1, ws.len() as int)
    }
}

/// The first column from `i` on with the given name, or the end.
pub open spec fn column(header: Seq<Seq<char>>, name: Seq<char>, i: int) -> int
    decreases header.len() - i,
{
    if 0 <= i < header.len() && header[i] != name {
        column(header, name, i + 1)
    } else {
        i
    }
}

/// The number in the column with the given name; 0 where there is no such
/// column, no value in it, or no number.
pub open spec fn column_value(
    header: Seq<Seq<char>>,
    values: Seq<Seq<char>>,
    name: Seq<char>,
) -> u64 {
    let i = column(header, name, 0);
    if i < header.len() && i < values.len() {
        match uint_value(values[i], 10, u64::MAX as int) {
            Ok(v) => v as u64,
            Err(_) => 0,
        }
    } else {
        0
    }
}

/// The UDP counters in a file, or what is wrong with it.
pub open spec fn snmp_value(file: Result<Seq<char>, Seq<char>>) -> Result<
    SnmpUdpCounters,
    Seq<char>,
> {
    match file {
        Err(e) => Err("snmp: "@ + e),
        Ok(t) => {
            let ls = lines_of(t);
            let i = udp_line(ls, 0);
            if i >= ls.len() {
                Err("snmp: no Udp: section found"@)
            } else if i + 1 >= ls.len() {
                Err("snmp: Udp header with no values line"@)
            } else {
                let header = rest_of(words_of(ls[i]));
                let values = rest_of(words_of(ls[i + 1]));
                Ok(
                    SnmpUdpCounters {
                        in_datagrams: column_value(header, values, "InDatagrams"@),
                        in_errors: column_value(header, values, "InErrors"@),
                        rcvbuf_errors: column_value(header, values, "RcvbufErrors"@),
                        sndbuf_errors: column_value(header, values, "SndbufErrors"@),
                        no_ports: column_value(header, values, "NoPorts"@),
                    },
                )
            }
        },
    }
}

/// Looks a column up by name; word 0 of both lines is their label.
fn read_column(header: &Vec<&[char]>, values: &Vec<&[char]>, name: &str) -> (r: u64)
    ensures
        r == column_value(rest_of(views(header@)), rest_of(views(values@)), name@),
{
    let ghost h = rest_of(views(header@));
    let ghost v = rest_of(views(values@));
    let mut i: usize = 1;
    while i < header.len()
        invariant
            1 <= i,
            i == 1 || i <= header@.len(),
            h == rest_of(views(header@)),
            v == rest_of(views(values@)),
            column(h, name@, 0) == column(h, name@, i - 1),
        decreases header@.len() - i,
    {
        assert(h[i - 1] == header@[i as int]@);
        if is_text(header[i], name) {
            if i < values.len() {
                assert(v[i - 1] == values@[i as int]@);
                return match parse_uint(values[i], 10, u64::MAX) {
                    Ok(n) => n,
                    Err(_) => 0,
                };
            }
            return 0;
        }
        i = i + 1;
    }
    0
}

fn find_udp_line(ls: &Vec<&[char]>) -> (r: usize)
    ensures
        r == udp_line(views(ls@), 0),
        r <= ls@.len(),
{
    let mut i: usize = 0;
    while i < ls.len()
        invariant
            i <= ls@.len(),
            udp_line(views(ls@), 0) == udp_line(views(ls@), i as int),
        decreases ls@.len() - i,
    {
        assert(views(ls@)[i as int] == ls@[i as int]@);
        if strip_prefix(ls[i], "Udp:").is_some() {
            return i;
        }
        i = i + 1;
    }
    i
}

/// Reads layer 3, the `Udp:` section of `/proc/net/snmp`. Columns are found by
/// name, since their set has grown across kernels.
pub fn read_snmp_udp(file: &FileText) -> (r: Result<SnmpUdpCounters, String>)
    ensures
        (match r {
            Ok(c) => Ok(c),
            Err(e) => Err(e@),
        }) == snmp_value(text_view(*file)),
{
    match file {
        Err(e) => {
            let mut out = "snmp: ".to_string();
            out.append(e.as_str());
            Err(out)
        },
        Ok(t) => {
            let chars = chars_of(t.as_str());
            let ls = lines(chars.as_slice());
            let i = find_udp_line(&ls);
            if i >= ls.len() {
                return Err("snmp: no Udp: section found".to_string());
            }
            if i + 1 >= ls.len() {
                return Err("snmp: Udp header with no values line".to_string());
            }
            assert(views(ls@)[i as int] == ls@[i as int]@);
            assert(views(ls@)[i + 1] == ls@[i + 1]@);
            let header = words(ls[i]);
            let values = words(ls[i + 1]);
            Ok(
                SnmpUdpCounters {
                    in_datagrams: read_column(&header, &values, "InDatagrams"),
                    in_errors: read_column(&header, &values, "InErrors"),
                    rcvbuf_errors: read_column(&header, &values, "RcvbufErrors"),
                    sndbuf_errors: read_column(&header, &values, "SndbufErrors"),
                    no_ports: read_column(&header, &values, "NoPorts"),
                },
            )
        },
    }
}

/// The counters of all layers, or the error of the first layer that has one.
pub open spec fn raw_value(iface: Seq<char>, f: NetFiles) -> Result<RawView, Seq<char>> {
    match ring_value(iface, f) {
        Err(e) => Err(e),
        Ok(ring) => match softnet_value(text_view(f.softnet)) {
            Err(e) => Err(e),
            Ok(softnet) => match snmp_value(text_view(f.snmp)) {
                Err(e) => Err(e),
                Ok(snmp_udp) => Ok(RawView { ring, softnet, snmp_udp }),
            },
        },
    }
}

/// Reads all three layers.
pub fn read_raw(iface: &str, files: &NetFiles) -> (r: Result<Raw, String>)
    ensures
        (match r {
            Ok(raw) => Ok(raw@),
            Err(e) => Err(e@),
        }) == raw_value(iface@, *files),
{
    let ring = match read_ring(iface, files) {
        Ok(v) => v,
        Err(e) => {
            return Err(e);
        },
    };
    let softnet = match read_softnet(&files.softnet) {
        Ok(v) => v,
        Err(e) => {
            return Err(e);
        },
    };
    let snmp_udp = match read_snmp_udp(&files.snmp) {
        Ok(v) => v,
        Err(e) => {
            return Err(e);
        },
    };
    Ok(Raw { ring, softnet, snmp_udp })
}

// ---- what holds of all readings ----

/// Each ring counter is the number in the file of its name.
pub proof fn law_ring_counters_are_those_of_their_files(
    iface: Seq<char>,
    f: NetFiles,
    c: RingCounters,
)
    requires
        ring_value(iface, f) == Ok::<RingCounters, Seq<char>>(c),
    ensures
        f.rx_missed_errors matches Ok(t) && uint_value(trimmed(t@), 10, u64::MAX as int) == Ok::<
            int,
            IntError,
        >(c.rx_missed_errors as int),
        f.rx_dropped matches Ok(t) && uint_value(trimmed(t@), 10, u64::MAX as int) == Ok::<
            int,
            IntError,
        >(c.rx_dropped as int),
        f.rx_errors matches Ok(t) && uint_value(trimmed(t@), 10, u64::MAX as int) == Ok::<
            int,
            IntError,
        >(c.rx_errors as int),
        f.rx_fifo_errors matches Ok(t) && uint_value(trimmed(t@), 10, u64::MAX as int) == Ok::<
            int,
            IntError,
        >(c.rx_fifo_errors as int),
{
    lemma_counter_value(ring_path_text(iface, "rx_missed_errors"@), f.rx_missed_errors);
    lemma_counter_value(ring_path_text(iface, "rx_dropped"@), f.rx_dropped);
    lemma_counter_value(ring_path_text(iface, "rx_errors"@), f.rx_errors);
    lemma_counter_value(ring_path_text(iface, "rx_fifo_errors"@), f.rx_fifo_errors);
}

proof fn lemma_counter_value(path: Seq<char>, f: FileText)
    ensures
        counter_value(path, text_view(f)) matches Ok(v) ==> (f matches Ok(t) && uint_value(
            trimmed(t@),
            10,
            u64::MAX as int,
        ) == Ok::<int, IntError>(v as int)),
{
    match f {
        Ok(t) => {
            lemma_uint_bound(trimmed(t@), 10, u64::MAX as int);
        },
        Err(_) => {},
    }
}

/// A ring counter whose file cannot be read, or holds no number, fails the reading, and
/// the error names the file.
pub proof fn law_bad_ring_file_fails_the_reading(iface: Seq<char>, f: NetFiles)
    ensures
        ring_value(iface, f) is Ok <==> (f.rx_missed_errors matches Ok(t) && uint_value(
            trimmed(t@),
            10,
            u64::MAX as int,
        ) is Ok) && (f.rx_dropped matches Ok(t) && uint_value(
            trimmed(t@),
            10,
            u64::MAX as int,
        ) is Ok) && (f.rx_errors matches Ok(t) && uint_value(
            trimmed(t@),
            10,
            u64::MAX as int,
        ) is Ok) && (f.rx_fifo_errors matches Ok(t) && uint_value(
            trimmed(t@),
            10,
            u64::MAX as int,
        ) is Ok),
        f.rx_missed_errors matches Err(e) ==> ring_value(iface, f) == Err::<RingCounters, Seq<char>>(
            "/sys/class/net/"@ + iface + "/statistics/"@ + "rx_missed_errors"@ + ": "@ + e@,
        ),
{
}

proof fn lemma_all_hex(ws: Seq<Seq<char>>, n: int)
    requires
        0 <= n <= ws.len(),
        forall|i: int| 0 <= i < ws.len() ==> uint_value(#[trigger] ws[i], 16, u64::MAX as int) is Ok,
    ensures
        hex_values(ws, n).len() == n,
        forall|i: int|
            0 <= i < n ==> uint_value(ws[i], 16, u64::MAX as int) == Ok::<int, IntError>(
                #[trigger] hex_values(ws, n)[i] as int,
            ),
    decreases n,
{
    if n > 0 {
        lemma_all_hex(ws, n - 1);
        lemma_uint_bound(ws[n - 1], 16, u64::MAX as int);
    }
}

/// The columns of a line of NAPI counters, in hexadecimal: the first is the packets
/// processed, the second the packets dropped, the third the squeezes, and the last the
/// CPU. A line with fewer than three numbers is none.
pub proof fn law_softnet_columns(line: Seq<char>)
    requires
        forall|i: int|
            0 <= i < words_of(line).len() ==> uint_value(
                #[trigger] words_of(line)[i],
                16,
                u64::MAX as int,
            ) is Ok,
    ensures
        ({
            let ws = words_of(line);
            if ws.len() < 3 {
                softnet_row(line) is None
            } else {
                softnet_row(line) matches Some(row) && uint_value(ws[0], 16, u64::MAX as int)
                    == Ok::<int, IntError>(row.processed as int) && uint_value(
                    ws[1],
                    16,
                    u64::MAX as int,
                ) == Ok::<int, IntError>(row.dropped as int) && uint_value(
                    ws[2],
                    16,
                    u64::MAX as int,
                ) == Ok::<int, IntError>(row.time_squeeze as int) && (uint_value(
                    ws.last(),
                    16,
                    u64::MAX as int,
                ) matches Ok(cpu) && cpu % 0x1_0000_0000 == row.cpu)
            }
        }),
{
    let ws = words_of(line);
    lemma_all_hex(ws, ws.len() as int);
    if ws.len() >= 3 {
        let f = hex_values(ws, ws.len() as int);
        assert(f.last() == f[ws.len() - 1]);
    }
}

/// What one more CPU adds: its packets processed and dropped and its squeezes to the
/// totals, and its squeezes under its own number.
pub proof fn law_one_more_cpu(rows: Seq<SoftnetRow>, row: SoftnetRow)
    ensures
        total_processed(rows.push(row)) == total_processed(rows) + row.processed,
        total_dropped(rows.push(row)) == total_dropped(rows) + row.dropped,
        total_squeeze(rows.push(row)) == total_squeeze(rows) + row.time_squeeze,
        squeeze_by_cpu(rows.push(row)) == squeeze_by_cpu(rows).insert(row.cpu, row.time_squeeze),
        total_processed(Seq::empty()) == 0,
        total_dropped(Seq::empty()) == 0,
        total_squeeze(Seq::empty()) == 0,
        squeeze_by_cpu(Seq::empty()).dom().is_empty(),
{
    assert(rows.push(row).drop_last() =~= rows);
}

/// One more line adds its row, if it has one, behind the others.
pub proof fn law_one_more_softnet_line(ls: Seq<Seq<char>>, n: int)
    requires
        0 <= n,
    ensures
        softnet_rows(ls, 0).len() == 0,
        softnet_row(ls[n]) matches Some(row) ==> softnet_rows(ls, n + 1) == softnet_rows(
            ls,
            n,
        ).push(row),
        softnet_row(ls[n]) is None ==> softnet_rows(ls, n + 1) == softnet_rows(ls, n),
{
}

/// The NAPI counters are the totals over all lines of the file, and the squeezes of each
/// CPU.
pub proof fn law_softnet_counts_every_line(t: Seq<char>, v: SoftnetView)
    requires
        softnet_value(Ok::<Seq<char>, Seq<char>>(t)) == Ok::<SoftnetView, Seq<char>>(v),
    ensures
        ({
            let rows = softnet_rows(lines_of(t), lines_of(t).len() as int);
            &&& rows.len() > 0
            &&& v.processed == total_processed(rows)
            &&& v.dropped == total_dropped(rows)
            &&& v.time_squeeze == total_squeeze(rows)
            &&& v.per_cpu == squeeze_by_cpu(rows)
        }),
{
    lemma_totals_not_negative(softnet_rows(lines_of(t), lines_of(t).len() as int));
}

proof fn lemma_totals_not_negative(rows: Seq<SoftnetRow>)
    ensures
        total_processed(rows) >= 0,
        total_dropped(rows) >= 0,
        total_squeeze(rows) >= 0,
    decreases rows.len(),
{
    if rows.len() > 0 {
        lemma_totals_not_negative(rows.drop_last());
    }
}

proof fn lemma_udp_line(ls: Seq<Seq<char>>, i: int, at: int)
    requires
        0 <= i <= at < ls.len(),
        has_prefix(ls[at], "Udp:"@),
        forall|k: int| i <= k < at ==> !has_prefix(#[trigger] ls[k], "Udp:"@),
    ensures
        udp_line(ls, i) == at,
    decreases at - i,
{
    if i < at {
        lemma_udp_line(ls, i + 1, at);
    }
}

proof fn lemma_column(header: Seq<Seq<char>>, name: Seq<char>, i: int, at: int)
    requires
        0 <= i <= at < header.len(),
        header[at] == name,
        forall|k: int| i <= k < at ==> #[trigger] header[k] != name,
    ensures
        column(header, name, i) == at,
    decreases at - i,
{
    if i < at {
        lemma_column(header, name, i + 1, at);
    }
}

/// Each UDP counter is the number below its own name: in the line behind the first that
/// begins with `Udp:`, in the column that bears the name there.
pub proof fn law_udp_counters_stand_below_their_names(
    t: Seq<char>,
    at: int,
    k: int,
    v: u64,
    c: SnmpUdpCounters,
)
    requires
        snmp_value(Ok::<Seq<char>, Seq<char>>(t)) == Ok::<SnmpUdpCounters, Seq<char>>(c),
        0 <= at,
        at + 1 < lines_of(t).len(),
        has_prefix(lines_of(t)[at], "Udp:"@),
        forall|j: int| 0 <= j < at ==> !has_prefix(#[trigger] lines_of(t)[j], "Udp:"@),
        1 <= k < words_of(lines_of(t)[at]).len(),
        k < words_of(lines_of(t)[at + 1]).len(),
        forall|j: int|
            1 <= j < k ==> #[trigger] words_of(lines_of(t)[at])[j] != words_of(lines_of(t)[at])[k],
        uint_value(words_of(lines_of(t)[at + 1])[k], 10, u64::MAX as int) == Ok::<int, IntError>(
            v as int,
        ),
    ensures
        ({
            let name = words_of(lines_of(t)[at])[k];
            &&& name == "InDatagrams"@ ==> c.in_datagrams == v
            &&& name == "InErrors"@ ==> c.in_errors == v
            &&& name == "RcvbufErrors"@ ==> c.rcvbuf_errors == v
            &&& name == "SndbufErrors"@ ==> c.sndbuf_errors == v
            &&& name == "NoPorts"@ ==> c.no_ports == v
        }),
{
    let ls = lines_of(t);
    lemma_udp_line(ls, 0, at);
    let w = words_of(ls[at]);
    let h = rest_of(w);
    let x = rest_of(words_of(ls[at + 1]));
    assert(h[k - 1] == w[k]);
    assert(x[k - 1] == words_of(ls[at + 1])[k]);
    assert forall|j: int| 0 <= j < k - 1 implies #[trigger] h[j] != w[k] by {
        assert(h[j] == w[j + 1]);
    }
    lemma_column(h, w[k], 0, k - 1);
}

/// A UDP counter whose name no column bears is 0.
pub proof fn law_missing_udp_column_is_zero(
    header: Seq<Seq<char>>,
    values: Seq<Seq<char>>,
    name: Seq<char>,
)
    requires
        !header.contains(name),
    ensures
        column_value(header, values, name) == 0,
{
    lemma_no_column(header, name, 0);
}

proof fn lemma_no_column(header: Seq<Seq<char>>, name: Seq<char>, i: int)
    requires
        0 <= i <= header.len(),
        !header.contains(name),
    ensures
        column(header, name, i) == header.len(),
    decreases header.len() - i,
{
    if i < header.len() {
        assert(header.contains(header[i]));
        lemma_no_column(header, name, i + 1);
    }
}

/// A reading is that of all three layers, each from its own files, and fails where one of
/// them does.
pub proof fn law_reading_is_of_all_layers(iface: Seq<char>, f: NetFiles)
    ensures
        raw_value(iface, f) matches Ok(r) ==> ring_value(iface, f) == Ok::<RingCounters, Seq<char>>(
            r.ring,
        ) && softnet_value(text_view(f.softnet)) == Ok::<SoftnetView, Seq<char>>(r.softnet)
            && snmp_value(text_view(f.snmp)) == Ok::<SnmpUdpCounters, Seq<char>>(r.snmp_udp),
        raw_value(iface, f) is Ok <==> ring_value(iface, f) is Ok && softnet_value(
            text_view(f.softnet),
        ) is Ok && snmp_value(text_view(f.snmp)) is Ok,
{
}

/// Among the words of a line of NAPI counters those that are no hexadecimal numbers are
/// passed over; the first three numbers and the last are the columns.
pub proof fn law_other_words_are_passed_over(ws: Seq<Seq<char>>, n: int, line: Seq<char>)
    requires
        0 <= n,
    ensures
        hex_values(ws, 0).len() == 0,
        uint_value(ws[n], 16, u64::MAX as int) is Err ==> hex_values(ws, n + 1) == hex_values(ws, n),
        uint_value(ws[n], 16, u64::MAX as int) matches Ok(v) ==> hex_values(ws, n + 1)
            == hex_values(ws, n).push(v as u64) && v as u64 == v,
        ({
            let f = hex_values(words_of(line), words_of(line).len() as int);
            &&& softnet_row(line) is Some <==> f.len() >= 3
            &&& softnet_row(line) matches Some(row) ==> row.processed == f[0] && row.dropped == f[1]
                && row.time_squeeze == f[2] && row.cpu == f[f.len() - 1] % 0x1_0000_0000
        }),
{
    lemma_uint_bound(ws[n], 16, u64::MAX as int);
}

/// Without a line that begins with `Udp:`, or without a line behind the first such, there
/// are no UDP counters; a column without a number is 0.
pub proof fn law_udp_section_is_needed(
    t: Seq<char>,
    header: Seq<Seq<char>>,
    values: Seq<Seq<char>>,
    k: int,
)
    ensures
        (forall|i: int| 0 <= i < lines_of(t).len() ==> !has_prefix(#[trigger] lines_of(t)[i], "Udp:"@))
            ==> snmp_value(Ok::<Seq<char>, Seq<char>>(t)) is Err,
        snmp_value(Ok::<Seq<char>, Seq<char>>(t)) is Ok ==> lines_of(t).len() >= 2,
        0 <= k < header.len() && (forall|j: int| 0 <= j < k ==> #[trigger] header[j] != header[k]) && (
        k >= values.len() || uint_value(values[k], 10, u64::MAX as int) is Err) ==> column_value(
            header,
            values,
            header[k],
        ) == 0,
{
    let ls = lines_of(t);
    if forall|i: int| 0 <= i < ls.len() ==> !has_prefix(#[trigger] ls[i], "Udp:"@) {
        lemma_no_udp_line(ls, 0);
    }
    lemma_udp_line_range(ls, 0);
    if 0 <= k < header.len() && (forall|j: int| 0 <= j < k ==> #[trigger] header[j] != header[k]) {
        lemma_column(header, header[k], 0, k);
    }
}

proof fn lemma_no_udp_line(ls: Seq<Seq<char>>, i: int)
    requires
        0 <= i <= ls.len(),
        forall|k: int| i <= k < ls.len() ==> !has_prefix(#[trigger] ls[k], "Udp:"@),
    ensures
        udp_line(ls, i) == ls.len(),
    decreases ls.len() - i,
{
    if i < ls.len() {
        lemma_no_udp_line(ls, i + 1);
    }
}

proof fn lemma_udp_line_range(ls: Seq<Seq<char>>, i: int)
    requires
        0 <= i <= ls.len(),
    ensures
        i <= udp_line(ls, i) <= ls.len(),
    decreases ls.len() - i,
{
    if i < ls.len() && !has_prefix(ls[i], "Udp:"@) {
        lemma_udp_line_range(ls, i + 1);
    }
}

}
