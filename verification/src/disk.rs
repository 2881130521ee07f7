//! Disk windows: the requests of a window, their summary, and the lines that
//! show them.

use vstd::arithmetic::power2::pow2;
use vstd::prelude::*;

use crate::event::{DiskEvent, RW_READ, RW_WRITE};
use crate::number::{
    decimal, grouped, law_quotient_is_shown_to_the_nearest_tenth, law_rounded_is_nearest,
    push_decimal, push_grouped, push_quotient, push_signed, quotient_text, rounded, signed_decimal,
    tenths_text,
};
use crate::order::{ascending, law_ascending, lemma_around_rank, lemma_ascending_from, sort};
use crate::text::{
    has_prefix, labelled, lemma_label, lemma_occurs, lemma_occurs_in_itself, lemma_regroup,
    lemma_regroup3,
};

verus! {

// ---- summaries ----

/// One finished window, numbers precomputed.
#[derive(Debug, Clone, Copy)]
pub struct WindowStats {
    pub window_secs: u64,
    pub reqs: usize,
    pub writes: u64,
    pub reads: u64,
    pub others: u64,
    pub bytes: u64,
    pub errors: u64,
    pub dev: Option<u32>,
    pub p50_ns: u64,
    pub p99_ns: u64,
    pub max_ns: u64,
}

/// The latencies of a list of requests, in order.
pub open spec fn latencies_of(evs: Seq<DiskEvent>) -> Seq<u64> {
    evs.map_values(|ev: DiskEvent| ev.latency_ns)
}

/// The requests that read.
pub open spec fn reads_of(evs: Seq<DiskEvent>) -> nat {
    evs.filter(|ev: DiskEvent| ev.rw == RW_READ).len()
}

/// The requests that write.
pub open spec fn writes_of(evs: Seq<DiskEvent>) -> nat {
    evs.filter(|ev: DiskEvent| ev.rw == RW_WRITE).len()
}

/// The requests that neither read nor write.
pub open spec fn others_of(evs: Seq<DiskEvent>) -> nat {
    evs.filter(|ev: DiskEvent| ev.rw != RW_READ && ev.rw != RW_WRITE).len()
}

/// The requests that failed.
pub open spec fn errors_of(evs: Seq<DiskEvent>) -> nat {
    evs.filter(|ev: DiskEvent| ev.error != 0).len()
}

/// The bytes of a list of requests.
pub open spec fn bytes_of(evs: Seq<DiskEvent>) -> int
    decreases evs.len(),
{
    if evs.len() == 0 {
        0
    } else {
        bytes_of(evs.drop_last()) + evs.last().bytes
    }
}

/// The position of the 99th percentile among `n` ascending numbers.
pub open spec fn p99_rank(n: int) -> int {
    if n * 99 / 100 <= n - 1 {
        n * 99 / 100
    } else {
        n - 1
    }
}

/// Whether `s` summarizes the requests `evs`.
pub open spec fn summarizes(s: WindowStats, evs: Seq<DiskEvent>, window_secs: u64) -> bool {
    let n = evs.len();
    let a = ascending(latencies_of(evs));
    &&& s.window_secs == window_secs
    &&& s.reqs == n
    &&& s.writes == writes_of(evs)
    &&& s.reads == reads_of(evs)
    &&& s.others == others_of(evs)
    &&& s.bytes == bytes_of(evs)
    &&& s.errors == errors_of(evs)
    &&& s.dev == if n == 0 {
        None::<u32>
    } else {
        Some(evs[0].dev)
    }
    &&& if n == 0 {
        s.p50_ns == 0 && s.p99_ns == 0 && s.max_ns == 0
    } else {
        s.p50_ns == a[n as int / 2] && s.p99_ns == a[p99_rank(n as int)] && s.max_ns == a[n - 1]
    }
}

// ---- windows ----

/// The requests seen so far in a window.
pub struct Window {
    latencies_ns: Vec<u64>,
    reads: u64,
    writes: u64,
    others: u64,
    bytes: u64,
    errors: u64,
    dev: Option<u32>,
    seen: Ghost<Seq<DiskEvent>>,
}

impl Window {
    /// The requests of this window, in the order they came.
    pub closed spec fn requests(&self) -> Seq<DiskEvent> {
        self.seen@
    }

    /// Whether the running numbers are those of the requests.
    pub closed spec fn wf(&self) -> bool {
        let evs = self.seen@;
        &&& self.latencies_ns@ == latencies_of(evs)
        &&& self.reads == reads_of(evs)
        &&& self.writes == writes_of(evs)
        &&& self.others == others_of(evs)
        &&& self.reads + self.writes + self.others == evs.len()
        &&& self.errors == errors_of(evs)
        &&& self.errors <= evs.len()
        &&& self.bytes == bytes_of(evs)
        &&& self.dev == if evs.len() == 0 {
            None::<u32>
        } else {
            Some(evs[0].dev)
        }
    }

    /// An empty window.
    pub fn new() -> (r: Window)
        ensures
            r.wf(),
            r.requests().len() == 0,
    {
        let r = Window {
            latencies_ns: Vec::new(),
            reads: 0,
            writes: 0,
            others: 0,
            bytes: 0,
            errors: 0,
            dev: None,
            seen: Ghost(Seq::empty()),
        };
        proof {
            reveal_with_fuel(Seq::filter, 1);
            assert(r.latencies_ns@ =~= latencies_of(r.seen@));
        }
        r
    }

    /// Tells whether the bytes of one more request can still be counted.
    pub fn has_room(&self, ev: &DiskEvent) -> (r: bool)
        requires
            self.wf(),
        ensures
            r == (bytes_of(self.requests()) + ev.bytes <= u64::MAX),
    {
        self.bytes <= u64::MAX - ev.bytes as u64
    }

    /// Adds one request.
    pub fn add(&mut self, ev: &DiskEvent)
        requires
            old(self).wf(),
            bytes_of(old(self).requests()) + ev.bytes <= u64::MAX,
        ensures
            final(self).wf(),
            final(self).requests() == old(self).requests().push(*ev),
    {
        let ghost evs = self.seen@;
        let ghost next = evs.push(*ev);
        proof {
            reveal_with_fuel(Seq::filter, 1);
            assert(next.drop_last() =~= evs);
            assert(latencies_of(next) =~= latencies_of(evs).push(ev.latency_ns));
        }
        self.latencies_ns.push(ev.latency_ns);
        assert(self.latencies_ns.len() == evs.len() + 1);
        if ev.rw == RW_READ {
            self.reads = self.reads + 1;
        } else if ev.rw == RW_WRITE {
            self.writes = self.writes + 1;
        } else {
            self.others = self.others + 1;
        }
        self.bytes = self.bytes + ev.bytes as u64;
        if ev.error != 0 {
            self.errors = self.errors + 1;
        }
        if self.dev.is_none() {
            self.dev = Some(ev.dev);
        }
        self.seen = Ghost(next);
    }

    /// Closes the window: sorts the latencies once and takes the ranks.
    pub fn finish(self, window_secs: u64) -> (r: WindowStats)
        requires
            self.wf(),
        ensures
            summarizes(r, self.requests(), window_secs),
    {
        let mut latencies = self.latencies_ns;
        let n = latencies.len();
        proof {
            law_ascending(latencies@);
        }
        let (p50, p99, max): (u64, u64, u64) = if n == 0 {
            (0, 0, 0)
        } else {
            sort(&mut latencies);
            let rank = (n as u128 * 99 / 100) as usize;
            let rank = if rank < n - 1 {
                rank
            } else {
                n - 1
            };
            (latencies[n / 2], latencies[rank], latencies[n - 1])
        };
        WindowStats {
            window_secs,
            reqs: n,
            writes: self.writes,
            reads: self.reads,
            others: self.others,
            bytes: self.bytes,
            errors: self.errors,
            dev: self.dev,
            p50_ns: p50,
            p99_ns: p99,
            max_ns: max,
        }
    }
}

impl Default for Window {
    /// An empty window.
    fn default() -> (r: Window)
        ensures
            r.wf(),
            r.requests().len() == 0,
    {
        Window::new()
    }
}

// ---- what holds of every summary ----

proof fn lemma_kinds_partition(evs: Seq<DiskEvent>)
    ensures
        reads_of(evs) + writes_of(evs) + others_of(evs) == evs.len(),
        errors_of(evs) <= evs.len(),
    decreases evs.len(),
{
    reveal_with_fuel(Seq::filter, 1);
    if evs.len() > 0 {
        lemma_kinds_partition(evs.drop_last());
    }
}

/// In every summary each request is counted under exactly one kind, no more
/// requests failed than there were, the percentiles are in order, and each of
/// them is the latency of some request of the window.
pub proof fn law_summary_is_consistent(s: WindowStats, evs: Seq<DiskEvent>, window_secs: u64)
    requires
        summarizes(s, evs, window_secs),
    ensures
        s.reads + s.writes + s.others == s.reqs,
        s.errors <= s.reqs,
        s.p50_ns <= s.p99_ns <= s.max_ns,
        s.reqs > 0 ==> {
            &&& latencies_of(evs).contains(s.p50_ns)
            &&& latencies_of(evs).contains(s.p99_ns)
            &&& latencies_of(evs).contains(s.max_ns)
        },
{
    lemma_kinds_partition(evs);
    let l = latencies_of(evs);
    law_ascending(l);
    if s.reqs > 0 {
        let n = evs.len() as int;
        assert(n / 2 <= p99_rank(n) <= n - 1);
        lemma_ascending_from(l, n / 2);
        lemma_ascending_from(l, p99_rank(n));
        lemma_ascending_from(l, n - 1);
    }
}

/// No request of a window took longer than the maximum reported of it.
pub proof fn law_no_request_exceeds_the_maximum(
    s: WindowStats,
    evs: Seq<DiskEvent>,
    window_secs: u64,
    i: int,
)
    requires
        summarizes(s, evs, window_secs),
        0 <= i < evs.len(),
    ensures
        evs[i].latency_ns <= s.max_ns,
{
    let l = latencies_of(evs);
    law_ascending(l);
    let a = ascending(l);
    broadcast use vstd::seq_lib::group_to_multiset_ensures;

    assert(l.contains(l[i]));
    assert(l.to_multiset().count(l[i]) > 0);
    assert(a.contains(l[i]));
    let k = choose|k: int| 0 <= k < a.len() && a[k] == l[i];
    assert(a[k] <= a[a.len() - 1]);
}

// ---- lines ----

/// A device number as `major:minor`.
pub open spec fn dev_text(dev: u32) -> Seq<char> {
    decimal(dev as nat / 0x10_0000) + ":"@ + decimal(dev as nat % 0x10_0000)
}

/// A latency: whole microseconds below a millisecond, from there on
/// milliseconds with one decimal.
pub open spec fn latency_text(ns: u64) -> Seq<char> {
    if ns >= 1_000_000 {
        quotient_text(ns as nat, 1_000_000, 0) + "ms"@
    } else {
        decimal(ns as nat / 1_000) + "µs"@
    }
}

/// A latency in the combined timeline: from a second on the nearest whole
/// milliseconds, a tie going to the even number, with thousands separators, such
/// as `2,689ms`.
pub open spec fn compact_latency_text(ns: u64) -> Seq<char> {
    if ns >= 1_000_000_000 {
        grouped(rounded(ns as nat, 1_000_000)) + "ms"@
    } else {
        latency_text(ns)
    }
}

/// A size: mebibytes from one of them on, else kibibytes, with one decimal.
pub open spec fn size_text(bytes: u32) -> Seq<char> {
    if bytes >= 1024 * 1024 {
        quotient_text(bytes as nat, 1, 20) + "M"@
    } else {
        quotient_text(bytes as nat, 1, 10) + "K"@
    }
}

/// A rate in mebibytes per second, with one decimal.
pub open spec fn rate_text(bytes: u64, secs: u64) -> Seq<char> {
    quotient_text(bytes as nat, secs as nat, 20)
}

/// A window in full.
pub open spec fn stats_text(s: WindowStats) -> Seq<char> {
    let dev = match s.dev {
        Some(d) => dev_text(d),
        None => Seq::empty(),
    };
    let err = if s.errors > 0 {
        " | ERRORS "@ + decimal(s.errors as nat)
    } else {
        Seq::empty()
    };
    if s.reqs == 0 {
        "disk "@ + dev + " | "@ + decimal(s.window_secs as nat) + "s | idle"@
    } else {
        "disk "@ + dev + " | "@ + decimal(s.window_secs as nat) + "s | "@ + decimal(s.reqs as nat)
            + " reqs ("@ + decimal(s.writes as nat) + "W/"@ + decimal(s.reads as nat) + "R/"@
            + decimal(s.others as nat) + "O) | p50 "@ + latency_text(s.p50_ns) + " | p99 "@
            + latency_text(s.p99_ns) + " | max "@ + latency_text(s.max_ns) + " | "@ + rate_text(
            s.bytes,
            s.window_secs,
        ) + " MB/s"@ + err
    }
}

/// A window in short, for the combined timeline.
pub open spec fn compact_stats_text(s: WindowStats) -> Seq<char> {
    let err = if s.errors > 0 {
        " | ERR "@ + decimal(s.errors as nat)
    } else {
        Seq::empty()
    };
    if s.reqs == 0 {
        "disk idle"@
    } else {
        "disk p99 "@ + compact_latency_text(s.p99_ns) + " | "@ + decimal(s.reqs as nat)
            + " reqs | "@ + rate_text(s.bytes, s.window_secs) + " MB/s"@ + err
    }
}

/// One request.
pub open spec fn event_text(ev: DiskEvent) -> Seq<char> {
    let rw = if ev.rw == RW_READ {
        "R"@
    } else if ev.rw == RW_WRITE {
        "W"@
    } else {
        "O"@
    };
    let err = if ev.error != 0 {
        " ERR="@ + signed_decimal(ev.error as int)
    } else {
        Seq::empty()
    };
    "disk "@ + dev_text(ev.dev) + " "@ + rw + " "@ + size_text(ev.bytes) + " "@ + latency_text(
        ev.latency_ns,
    ) + err
}

/// Names a device by its two numbers.
pub fn dev_name(dev: u32) -> (r: String)
    ensures
        r@ == dev_text(dev),
{
    let mut out = String::new();
    push_decimal(&mut out, (dev / 0x10_0000) as u128);
    assert(out@ =~= decimal(dev as nat / 0x10_0000));
    out.append(":");
    push_decimal(&mut out, (dev % 0x10_0000) as u128);
    out
}

/// Writes a latency for people to read.
pub fn human_latency(ns: u64) -> (r: String)
    ensures
        r@ == latency_text(ns),
{
    let mut out = String::new();
    if ns >= 1_000_000 {
        push_quotient(&mut out, ns, 1_000_000, 0);
        assert(out@ =~= quotient_text(ns as nat, 1_000_000, 0));
        out.append("ms");
    } else {
        push_decimal(&mut out, (ns / 1_000) as u128);
        assert(out@ =~= decimal(ns as nat / 1_000));
        out.append("µs");
    }
    out
}

/// Writes a size for people to read.
pub fn size(bytes: u32) -> (r: String)
    ensures
        r@ == size_text(bytes),
{
    let mut out = String::new();
    if bytes >= 1024 * 1024 {
        push_quotient(&mut out, bytes as u64, 1, 20);
        assert(out@ =~= quotient_text(bytes as nat, 1, 20));
        out.append("M");
    } else {
        push_quotient(&mut out, bytes as u64, 1, 10);
        assert(out@ =~= quotient_text(bytes as nat, 1, 10));
        out.append("K");
    }
    out
}

/// The full line of a window, such as
/// `disk 253:16 | 5s | 81 reqs (81W/0R/0O) | p50 62µs | p99 4.2ms | max 4.2ms | 1.2 MB/s`.
pub fn format_stats(s: &WindowStats) -> (r: String)
    ensures
        r@ == stats_text(*s),
{
    let dev = match s.dev {
        Some(d) => dev_name(d),
        None => String::new(),
    };
    let mut out = "disk ".to_string();
    out.append(dev.as_str());
    out.append(" | ");
    push_decimal(&mut out, s.window_secs as u128);
    if s.reqs == 0 {
        out.append("s | idle");
        return out;
    }
    let mut err = String::new();
    if s.errors > 0 {
        err.append(" | ERRORS ");
        assert(err@ =~= " | ERRORS "@);
        push_decimal(&mut err, s.errors as u128);
    }
    out.append("s | ");
    push_decimal(&mut out, s.reqs as u128);
    out.append(" reqs (");
    push_decimal(&mut out, s.writes as u128);
    out.append("W/");
    push_decimal(&mut out, s.reads as u128);
    out.append("R/");
    push_decimal(&mut out, s.others as u128);
    out.append("O) | p50 ");
    out.append(human_latency(s.p50_ns).as_str());
    out.append(" | p99 ");
    out.append(human_latency(s.p99_ns).as_str());
    out.append(" | max ");
    out.append(human_latency(s.max_ns).as_str());
    out.append(" | ");
    push_quotient(&mut out, s.bytes, s.window_secs, 20);
    out.append(" MB/s");
    out.append(err.as_str());
    out
}

/// Writes a latency for the combined timeline.
pub fn compact_latency(ns: u64) -> (r: String)
    ensures
        r@ == compact_latency_text(ns),
{
    if ns >= 1_000_000_000 {
        let whole = ns / 1_000_000;
        let rest = ns % 1_000_000;
        let ms = if rest > 500_000 || (rest == 500_000 && whole % 2 == 1) {
            whole + 1
        } else {
            whole
        };
        let mut out = String::new();
        push_grouped(&mut out, ms);
        assert(out@ =~= grouped(rounded(ns as nat, 1_000_000)));
        out.append("ms");
        out
    } else {
        human_latency(ns)
    }
}

/// The short line of a window, such as `disk p99 4.2ms | 81 reqs | 1.2 MB/s`.
pub fn compact_stats(s: &WindowStats) -> (r: String)
    ensures
        r@ == compact_stats_text(*s),
{
    if s.reqs == 0 {
        return "disk idle".to_string();
    }
    let mut err = String::new();
    if s.errors > 0 {
        err.append(" | ERR ");
        assert(err@ =~= " | ERR "@);
        push_decimal(&mut err, s.errors as u128);
    }
    let mut out = "disk p99 ".to_string();
    out.append(compact_latency(s.p99_ns).as_str());
    out.append(" | ");
    push_decimal(&mut out, s.reqs as u128);
    out.append(" reqs | ");
    push_quotient(&mut out, s.bytes, s.window_secs, 20);
    out.append(" MB/s");
    out.append(err.as_str());
    out
}

/// The line of one request, such as `disk 253:16 W 4.0K 812µs`.
pub fn format_event(ev: &DiskEvent) -> (r: String)
    ensures
        r@ == event_text(*ev),
{
    let mut err = String::new();
    if ev.error != 0 {
        err.append(" ERR=");
        assert(err@ =~= " ERR="@);
        push_signed(&mut err, ev.error as i64);
    }
    let mut out = "disk ".to_string();
    out.append(dev_name(ev.dev).as_str());
    out.append(" ");
    out.append(
        if ev.rw == RW_READ {
            "R"
        } else if ev.rw == RW_WRITE {
            "W"
        } else {
            "O"
        },
    );
    out.append(" ");
    out.append(size(ev.bytes).as_str());
    out.append(" ");
    out.append(human_latency(ev.latency_ns).as_str());
    out.append(err.as_str());
    out
}

// ---- lost events ----

/// The sum of a list of counters.
pub open spec fn sum_of(s: Seq<u64>) -> int
    decreases s.len(),
{
    if s.len() == 0 {
        0
    } else {
        sum_of(s.drop_last()) + s.last()
    }
}

proof fn lemma_sum_grows(s: Seq<u64>, n: int)
    requires
        0 <= n <= s.len(),
    ensures
        0 <= sum_of(s.take(n)) <= sum_of(s),
    decreases s.len(),
{
    if n == s.len() {
        assert(s.take(n) =~= s);
        if n > 0 {
            lemma_sum_grows(s.drop_last(), n - 1);
            assert(s.drop_last().take(n - 1) =~= s.drop_last());
        }
    } else {
        lemma_sum_grows(s.drop_last(), n);
        assert(s.drop_last().take(n) =~= s.take(n));
    }
}

/// Adds up the drop counters of all CPUs, or gives nothing where the sum is
/// too large.
pub fn total_drops(per_cpu: &[u64]) -> (r: Option<u64>)
    ensures
        r == if sum_of(per_cpu@) <= u64::MAX {
            Some(sum_of(per_cpu@) as u64)
        } else {
            None
        },
{
    let mut total: u64 = 0;
    let mut i: usize = 0;
    while i < per_cpu.len()
        invariant
            i <= per_cpu@.len(),
            total == sum_of(per_cpu@.take(i as int)),
        decreases per_cpu@.len() - i,
    {
        proof {
            assert(per_cpu@.take(i + 1).drop_last() =~= per_cpu@.take(i as int));
            lemma_sum_grows(per_cpu@, i + 1);
        }
        match total.checked_add(per_cpu[i]) {
            Some(t) => {
                total = t;
            },
            None => {
                return None;
            },
        }
        i = i + 1;
    }
    assert(per_cpu@.take(i as int) =~= per_cpu@);
    Some(total)
}

/// The highest number of lost events seen so far.
pub struct DropWatch {
    pub last: u64,
}

/// The warning about events lost since the last one.
pub open spec fn drop_warning(lost: int, total: int) -> Seq<char> {
    "WARN: ringbuf dropped "@ + decimal(lost as nat) + " events (total "@ + decimal(total as nat)
        + ")"@
}

impl DropWatch {
    /// Nothing lost yet.
    pub fn new() -> (r: DropWatch)
        ensures
            r.last == 0,
    {
        DropWatch { last: 0 }
    }

    /// Takes the current total: where it grew, the total is remembered and a
    /// warning says by how much.
    pub fn observe(&mut self, total: u64) -> (r: Option<String>)
        ensures
            final(self).last == if total > old(self).last {
                total
            } else {
                old(self).last
            },
            match r {
                Some(w) => total > old(self).last && w@ == drop_warning(
                    total - old(self).last,
                    total as int,
                ),
                None => total <= old(self).last,
            },
    {
        if total > self.last {
            let mut out = "WARN: ringbuf dropped ".to_string();
            push_decimal(&mut out, (total - self.last) as u128);
            out.append(" events (total ");
            push_decimal(&mut out, total as u128);
            out.append(")");
            self.last = total;
            Some(out)
        } else {
            None
        }
    }
}

proof fn lemma_filter_latencies(
    evs: Seq<DiskEvent>,
    q: spec_fn(DiskEvent) -> bool,
    p: spec_fn(u64) -> bool,
)
    requires
        forall|ev: DiskEvent| #[trigger] q(ev) == p(ev.latency_ns),
    ensures
        evs.filter(q).len() == latencies_of(evs).filter(p).len(),
    decreases evs.len(),
{
    reveal_with_fuel(Seq::filter, 1);
    if evs.len() > 0 {
        lemma_filter_latencies(evs.drop_last(), q, p);
        assert(latencies_of(evs).drop_last() =~= latencies_of(evs.drop_last()));
        assert(latencies_of(evs).last() == evs.last().latency_ns);
        assert(q(evs.last()) == p(evs.last().latency_ns));
    }
}

proof fn lemma_requests_around_rank(evs: Seq<DiskEvent>, k: int, v: u64)
    requires
        0 <= k < evs.len(),
        v == ascending(latencies_of(evs))[k],
    ensures
        evs.filter(|ev: DiskEvent| ev.latency_ns > v).len() <= evs.len() - 1 - k,
        evs.filter(|ev: DiskEvent| ev.latency_ns < v).len() <= k,
{
    let l = latencies_of(evs);
    lemma_around_rank(l, k, v);
    lemma_filter_latencies(evs, |ev: DiskEvent| ev.latency_ns > v, |x: u64| x > v);
    lemma_filter_latencies(evs, |ev: DiskEvent| ev.latency_ns < v, |x: u64| x < v);
}

/// The percentiles say what they promise, counted over the requests of the window:
/// at most one in a hundred took longer than the p99 and at most 99 in a hundred less;
/// no more than half took longer than the p50, and no more than half less; none took
/// longer than the maximum.
pub proof fn law_percentiles_divide_the_requests(
    s: WindowStats,
    evs: Seq<DiskEvent>,
    window_secs: u64,
)
    requires
        summarizes(s, evs, window_secs),
        evs.len() > 0,
    ensures
        100 * evs.filter(|ev: DiskEvent| ev.latency_ns > s.p99_ns).len() <= evs.len(),
        100 * evs.filter(|ev: DiskEvent| ev.latency_ns < s.p99_ns).len() <= 99 * evs.len(),
        2 * evs.filter(|ev: DiskEvent| ev.latency_ns > s.p50_ns).len() <= evs.len(),
        2 * evs.filter(|ev: DiskEvent| ev.latency_ns < s.p50_ns).len() <= evs.len(),
        evs.filter(|ev: DiskEvent| ev.latency_ns > s.max_ns).len() == 0,
        exists|i: int| 0 <= i < evs.len() && (#[trigger] evs[i]).latency_ns == s.p50_ns,
        exists|i: int| 0 <= i < evs.len() && (#[trigger] evs[i]).latency_ns == s.p99_ns,
        exists|i: int| 0 <= i < evs.len() && (#[trigger] evs[i]).latency_ns == s.max_ns,
{
    let n = evs.len() as int;
    let l = latencies_of(evs);
    law_summary_is_consistent(s, evs, window_secs);
    lemma_requests_around_rank(evs, n / 2, s.p50_ns);
    lemma_requests_around_rank(evs, p99_rank(n), s.p99_ns);
    lemma_requests_around_rank(evs, n - 1, s.max_ns);
    let i = l.index_of(s.p50_ns);
    assert(evs[i].latency_ns == s.p50_ns);
    let j = l.index_of(s.p99_ns);
    assert(evs[j].latency_ns == s.p99_ns);
    let k = l.index_of(s.max_ns);
    assert(evs[k].latency_ns == s.max_ns);
}

/// One more request adds one to the requests, one to those of its kind and to no
/// other, its bytes to the bytes, and one to the errors where it failed; the device is
/// that of the first request.
pub proof fn law_one_more_request(
    s: WindowStats,
    t: WindowStats,
    evs: Seq<DiskEvent>,
    ev: DiskEvent,
    window_secs: u64,
)
    requires
        summarizes(s, evs, window_secs),
        summarizes(t, evs.push(ev), window_secs),
    ensures
        t.window_secs == window_secs,
        t.reqs == s.reqs + 1,
        t.reads == s.reads + if ev.rw == RW_READ {
            1int
        } else {
            0
        },
        t.writes == s.writes + if ev.rw == RW_WRITE {
            1int
        } else {
            0
        },
        t.others == s.others + if ev.rw != RW_READ && ev.rw != RW_WRITE {
            1int
        } else {
            0
        },
        t.bytes == s.bytes + ev.bytes,
        t.errors == s.errors + if ev.error != 0 {
            1int
        } else {
            0
        },
        t.dev == if s.reqs == 0 {
            Some(ev.dev)
        } else {
            s.dev
        },
{
    reveal_with_fuel(Seq::filter, 1);
    assert(evs.push(ev).drop_last() =~= evs);
}

/// A window without requests has nothing but zeros, and no device.
pub proof fn law_empty_window_is_zero(s: WindowStats, window_secs: u64)
    requires
        summarizes(s, Seq::<DiskEvent>::empty(), window_secs),
    ensures
        s.window_secs == window_secs,
        s.reqs == 0 && s.reads == 0 && s.writes == 0 && s.others == 0,
        s.bytes == 0 && s.errors == 0 && s.dev is None,
        s.p50_ns == 0 && s.p99_ns == 0 && s.max_ns == 0,
{
    reveal_with_fuel(Seq::filter, 1);
}

// ---- what holds of every line ----

/// A latency below a millisecond is shown in whole microseconds.
pub proof fn law_short_latency_is_shown_in_microseconds(ns: u64) -> (us: nat)
    requires
        ns < 1_000_000,
    ensures
        latency_text(ns) == decimal(us) + "µs"@,
        1_000 * us <= ns < 1_000 * us + 1_000,
        compact_latency_text(ns) == latency_text(ns),
{
    ns as nat / 1_000
}

/// A latency from a millisecond on is shown in milliseconds, to the nearest tenth.
pub proof fn law_latency_is_shown_to_the_nearest_tenth(ns: u64) -> (t: nat)
    requires
        1_000_000 <= ns < 0x2_0000_0000_0000,
    ensures
        latency_text(ns) == tenths_text(t) + "ms"@,
        -50_000 <= t * 100_000 - ns <= 50_000,
{
    vstd::arithmetic::power2::lemma2_to64();
    let t = law_quotient_is_shown_to_the_nearest_tenth(ns as nat, 1_000_000, 0);
    assert(1_000_000 * pow2(0) == 1_000_000 && t * (1_000_000 * pow2(0)) == t * 1_000_000)
        by (nonlinear_arith)
        requires
            pow2(0) == 1,
    ;
    t
}

/// In the combined timeline a latency below a second is shown like any other, and one from
/// a second on in milliseconds with separators, to the nearest.
pub proof fn law_long_latency_is_shown_to_the_nearest_millisecond(ns: u64) -> (ms: nat)
    ensures
        ns < 1_000_000_000 ==> compact_latency_text(ns) == latency_text(ns),
        ns >= 1_000_000_000 ==> compact_latency_text(ns) == grouped(ms) + "ms"@ && -500_000 <= ms
            * 1_000_000 - ns <= 500_000,
{
    law_rounded_is_nearest(ns as nat, 1_000_000);
    rounded(ns as nat, 1_000_000)
}

/// A size is shown to the nearest tenth of a mebibyte from one on, else of a kibibyte.
pub proof fn law_size_is_shown_to_the_nearest_tenth(bytes: u32) -> (t: nat)
    ensures
        bytes >= 0x10_0000 ==> size_text(bytes) == tenths_text(t) + "M"@ && -0x10_0000 <= 2 * (t
            * 0x10_0000 - 10 * bytes) <= 0x10_0000 + 1,
        bytes < 0x10_0000 ==> size_text(bytes) == tenths_text(t) + "K"@ && -0x401 <= 2 * (t * 0x400
            - 10 * bytes) <= 0x401,
{
    vstd::arithmetic::power2::lemma2_to64();
    if bytes >= 0x10_0000 {
        let t = law_quotient_is_shown_to_the_nearest_tenth(bytes as nat, 1, 20);
        assert(1 * pow2(20) == 0x10_0000);
        t
    } else {
        let t = law_quotient_is_shown_to_the_nearest_tenth(bytes as nat, 1, 10);
        assert(1 * pow2(10) == 0x400);
        t
    }
}

/// A rate is the bytes by the seconds, shown to the nearest tenth of a mebibyte.
pub proof fn law_rate_is_shown_to_the_nearest_tenth(bytes: u64, secs: u64) -> (t: nat)
    requires
        bytes < 0x2_0000_0000_0000,
        0 < secs < 0x20_0000_0000_0000,
    ensures
        rate_text(bytes, secs) == tenths_text(t),
        2 * (t * (secs * 0x10_0000)) <= 20 * bytes + secs * 0x10_0000 + 1,
        20 * bytes <= 2 * (t * (secs * 0x10_0000)) + secs * 0x10_0000 + 1,
{
    vstd::arithmetic::power2::lemma2_to64();
    law_quotient_is_shown_to_the_nearest_tenth(bytes as nat, secs as nat, 20)
}

/// The full line of a window says of each number which one it is.
pub proof fn law_full_line_labels_its_numbers(s: WindowStats)
    requires
        s.reqs > 0,
    ensures
        ({
            let line = stats_text(s);
            &&& labelled(
                line,
                "disk "@ + (match s.dev {
                    Some(d) => dev_text(d),
                    None => Seq::empty(),
                }) + " | "@,
                decimal(s.window_secs as nat),
                "s | "@,
            )
            &&& labelled(line, "s | "@, decimal(s.reqs as nat), " reqs ("@)
            &&& labelled(line, " reqs ("@, decimal(s.writes as nat), "W/"@)
            &&& labelled(line, "W/"@, decimal(s.reads as nat), "R/"@)
            &&& labelled(line, "R/"@, decimal(s.others as nat), "O) | p50 "@)
            &&& labelled(line, "O) | p50 "@, latency_text(s.p50_ns), " | p99 "@)
            &&& labelled(line, " | p99 "@, latency_text(s.p99_ns), " | max "@)
            &&& labelled(line, " | max "@, latency_text(s.max_ns), " | "@)
            &&& labelled(line, " | "@, rate_text(s.bytes, s.window_secs), " MB/s"@)
        }),
{
    let line = stats_text(s);
    let d = "disk "@ + (match s.dev {
        Some(d) => dev_text(d),
        None => Seq::empty(),
    }) + " | "@;
    let none = Seq::<char>::empty();
    let x0 = decimal(s.window_secs as nat);
    let x1 = decimal(s.reqs as nat);
    let x2 = decimal(s.writes as nat);
    let x3 = decimal(s.reads as nat);
    let x4 = decimal(s.others as nat);
    let x5 = latency_text(s.p50_ns);
    let x6 = latency_text(s.p99_ns);
    let x7 = latency_text(s.max_ns);
    let x8 = rate_text(s.bytes, s.window_secs);
    let err = if s.errors > 0 {
        " | ERRORS "@ + decimal(s.errors as nat)
    } else {
        none
    };
    let r8 = " MB/s"@ + err;
    let r7 = " | "@ + x8 + r8;
    let r6 = " | max "@ + x7 + r7;
    let r5 = " | p99 "@ + x6 + r6;
    let r4 = "O) | p50 "@ + x5 + r5;
    let r3 = "R/"@ + x4 + r4;
    let r2 = "W/"@ + x3 + r3;
    let r1 = " reqs ("@ + x2 + r2;
    lemma_full_line(s);
    let a = lemma_label(line, none, d, x0, "s | "@, x1, r1);
    let a = lemma_label(line, a, "s | "@, x1, " reqs ("@, x2, r2);
    let a = lemma_label(line, a, " reqs ("@, x2, "W/"@, x3, r3);
    let a = lemma_label(line, a, "W/"@, x3, "R/"@, x4, r4);
    let a = lemma_label(line, a, "R/"@, x4, "O) | p50 "@, x5, r5);
    let a = lemma_label(line, a, "O) | p50 "@, x5, " | p99 "@, x6, r6);
    let a = lemma_label(line, a, " | p99 "@, x6, " | max "@, x7, r7);
    let a = lemma_label(line, a, " | max "@, x7, " | "@, x8, r8);
    assert(none + err =~= err);
    lemma_regroup(" MB/s"@, none, err);
    lemma_label(line, a, " | "@, x8, " MB/s"@, none, err);
}

/// The full line of a window ends in its errors if and only if there were some.
pub proof fn law_full_line_shows_errors(s: WindowStats)
    requires
        s.reqs > 0,
    ensures
        ({
            let line = stats_text(s);
            let end = if s.errors > 0 {
                " MB/s | ERRORS "@ + decimal(s.errors as nat)
            } else {
                " MB/s"@
            };
            &&& end.len() <= line.len()
            &&& line.subrange(line.len() - end.len(), line.len() as int) == end
        }),
{
    reveal_strlit(" MB/s");
    reveal_strlit(" | ERRORS ");
    reveal_strlit(" MB/s | ERRORS ");
    let line = stats_text(s);
    let e = decimal(s.errors as nat);
    assert(" MB/s | ERRORS "@ =~= " MB/s"@ + " | ERRORS "@);
    if s.errors > 0 {
        let end = " MB/s | ERRORS "@ + e;
        assert(line.subrange(line.len() - end.len(), line.len() as int) =~= end);
    } else {
        assert(line.subrange(line.len() - 5, line.len() as int) =~= " MB/s"@);
    }
}

proof fn lemma_full_line(s: WindowStats)
    requires
        s.reqs > 0,
    ensures
        ({
            let d = "disk "@ + (match s.dev {
                Some(d) => dev_text(d),
                None => Seq::empty(),
            }) + " | "@;
            let err = if s.errors > 0 {
                " | ERRORS "@ + decimal(s.errors as nat)
            } else {
                Seq::empty()
            };
            let r7 = " | "@ + rate_text(s.bytes, s.window_secs) + (" MB/s"@ + err);
            let r6 = " | max "@ + latency_text(s.max_ns) + r7;
            let r5 = " | p99 "@ + latency_text(s.p99_ns) + r6;
            let r4 = "O) | p50 "@ + latency_text(s.p50_ns) + r5;
            let r3 = "R/"@ + decimal(s.others as nat) + r4;
            let r2 = "W/"@ + decimal(s.reads as nat) + r3;
            let r1 = " reqs ("@ + decimal(s.writes as nat) + r2;
            let r0 = "s | "@ + decimal(s.reqs as nat) + r1;
            stats_text(s) == Seq::<char>::empty() + (d + decimal(s.window_secs as nat) + r0)
        }),
{
    let d = "disk "@ + (match s.dev {
        Some(d) => dev_text(d),
        None => Seq::empty(),
    }) + " | "@;
    let err = if s.errors > 0 {
        " | ERRORS "@ + decimal(s.errors as nat)
    } else {
        Seq::empty()
    };
    let x8 = rate_text(s.bytes, s.window_secs);
    let r8 = " MB/s"@ + err;
    let r7 = " | "@ + x8 + r8;
    let r6 = " | max "@ + latency_text(s.max_ns) + r7;
    let r5 = " | p99 "@ + latency_text(s.p99_ns) + r6;
    let r4 = "O) | p50 "@ + latency_text(s.p50_ns) + r5;
    let r3 = "R/"@ + decimal(s.others as nat) + r4;
    let r2 = "W/"@ + decimal(s.reads as nat) + r3;
    let r1 = " reqs ("@ + decimal(s.writes as nat) + r2;
    let a0 = d + decimal(s.window_secs as nat);
    let a1 = a0 + "s | "@ + decimal(s.reqs as nat);
    let a2 = a1 + " reqs ("@ + decimal(s.writes as nat);
    let a3 = a2 + "W/"@ + decimal(s.reads as nat);
    let a4 = a3 + "R/"@ + decimal(s.others as nat);
    let a5 = a4 + "O) | p50 "@ + latency_text(s.p50_ns);
    let a6 = a5 + " | p99 "@ + latency_text(s.p99_ns);
    let a7 = a6 + " | max "@ + latency_text(s.max_ns);
    let a8 = a7 + " | "@ + x8;
    assert(stats_text(s) == a8 + " MB/s"@ + err);
    lemma_regroup(a8, " MB/s"@, err);
    lemma_regroup3(a7, " | "@, x8, r8);
    lemma_regroup3(a6, " | max "@, latency_text(s.max_ns), r7);
    lemma_regroup3(a5, " | p99 "@, latency_text(s.p99_ns), r6);
    lemma_regroup3(a4, "O) | p50 "@, latency_text(s.p50_ns), r5);
    lemma_regroup3(a3, "R/"@, decimal(s.others as nat), r4);
    lemma_regroup3(a2, "W/"@, decimal(s.reads as nat), r3);
    lemma_regroup3(a1, " reqs ("@, decimal(s.writes as nat), r2);
    lemma_regroup3(a0, "s | "@, decimal(s.reqs as nat), r1);
    let all = a0 + ("s | "@ + decimal(s.reqs as nat) + r1);
    assert(all =~= Seq::<char>::empty() + all);
}

/// The short line of a window with requests says of each number which one it is; one
/// without requests is told from it by how it begins.
pub proof fn law_short_line_labels_its_numbers(s: WindowStats, idle: WindowStats)
    requires
        s.reqs > 0,
        idle.reqs == 0,
    ensures
        ({
            let line = compact_stats_text(s);
            &&& has_prefix(line, "disk p99 "@ + compact_latency_text(s.p99_ns) + " | "@)
            &&& labelled(line, " | "@, decimal(s.reqs as nat), " reqs | "@)
            &&& labelled(line, " reqs | "@, rate_text(s.bytes, s.window_secs), " MB/s"@)
            &&& s.errors > 0 ==> labelled(
                line,
                " MB/s | ERR "@,
                decimal(s.errors as nat),
                Seq::empty(),
            )
            &&& s.errors == 0 ==> line.subrange(line.len() - 5, line.len() as int) == " MB/s"@
        }),
        has_prefix(compact_stats_text(idle), "disk idle"@),
        !has_prefix(compact_stats_text(s), "disk idle"@),
{
    reveal_strlit(" MB/s");
    reveal_strlit(" | ERR ");
    reveal_strlit(" MB/s | ERR ");
    reveal_strlit("disk p99 ");
    reveal_strlit("disk idle");
    let line = compact_stats_text(s);
    let none = Seq::<char>::empty();
    let x0 = compact_latency_text(s.p99_ns);
    let x1 = decimal(s.reqs as nat);
    let x2 = rate_text(s.bytes, s.window_secs);
    let err = if s.errors > 0 {
        " | ERR "@ + decimal(s.errors as nat)
    } else {
        none
    };
    let a0 = "disk p99 "@ + x0;
    let a1 = a0 + " | "@ + x1;
    let a2 = a1 + " reqs | "@ + x2;
    let p = a0 + " | "@;
    assert(line =~= a2 + " MB/s"@ + err);
    assert(line.subrange(0, p.len() as int) =~= p);
    lemma_occurs(line, a0, " | "@ + x1 + " reqs | "@, x2 + " MB/s"@ + err);
    lemma_occurs(line, a1, " reqs | "@ + x2 + " MB/s"@, err);
    if s.errors > 0 {
        assert(" MB/s | ERR "@ =~= " MB/s"@ + " | ERR "@);
        lemma_occurs(line, a2, " MB/s | ERR "@ + decimal(s.errors as nat) + none, none);
    } else {
        assert(line.subrange(line.len() - 5, line.len() as int) =~= " MB/s"@);
    }
    let i = compact_stats_text(idle);
    assert(i.subrange(0, 9) =~= "disk idle"@);
    assert(line[5] == 'p');
    assert(line.subrange(0, 9)[5] == 'p');
}

/// The line of a request names its device and its kind, and shows its size and its
/// latency; the error is shown if and only if there is one.
pub proof fn law_request_line_shows_the_request(ev: DiskEvent)
    ensures
        ({
            let line = event_text(ev);
            let kind = if ev.rw == RW_READ {
                "R"@
            } else if ev.rw == RW_WRITE {
                "W"@
            } else {
                "O"@
            };
            let shown = "disk "@ + dev_text(ev.dev) + " "@ + kind + " "@ + size_text(ev.bytes) + " "@
                + latency_text(ev.latency_ns);
            &&& has_prefix(line, shown)
            &&& ev.error == 0 ==> line.len() == shown.len()
            &&& ev.error != 0 ==> labelled(
                line,
                " ERR="@,
                signed_decimal(ev.error as int),
                Seq::empty(),
            )
        }),
{
    let line = event_text(ev);
    let none = Seq::<char>::empty();
    let kind = if ev.rw == RW_READ {
        "R"@
    } else if ev.rw == RW_WRITE {
        "W"@
    } else {
        "O"@
    };
    let shown = "disk "@ + dev_text(ev.dev) + " "@ + kind + " "@ + size_text(ev.bytes) + " "@
        + latency_text(ev.latency_ns);
    assert(line.subrange(0, shown.len() as int) =~= shown);
    if ev.error != 0 {
        lemma_occurs(line, shown, " ERR="@ + signed_decimal(ev.error as int) + none, none);
    }
}

/// The drops of one more CPU add to the sum.
pub proof fn law_drops_of_one_more_cpu(per_cpu: Seq<u64>, n: u64)
    ensures
        sum_of(per_cpu.push(n)) == sum_of(per_cpu) + n,
        sum_of(Seq::<u64>::empty()) == 0,
{
    assert(per_cpu.push(n).drop_last() =~= per_cpu);
}

/// The warning about lost events shows how many were lost, and how many in all.
pub proof fn law_drop_warning_shows_both_numbers(lost: nat, total: nat)
    ensures
        labelled(
            drop_warning(lost as int, total as int),
            " dropped "@,
            decimal(lost),
            " events"@,
        ),
        labelled(drop_warning(lost as int, total as int), "total "@, decimal(total), ")"@),
{
    reveal_strlit("WARN: ringbuf dropped ");
    reveal_strlit(" dropped ");
    reveal_strlit(" events (total ");
    reveal_strlit(" events");
    reveal_strlit("total ");
    reveal_strlit(")");
    let line = drop_warning(lost as int, total as int);
    let none = Seq::<char>::empty();
    let head = "WARN: ringbuf"@;
    reveal_strlit("WARN: ringbuf");
    reveal_strlit(" (");
    reveal_strlit(" (total ");
    assert("WARN: ringbuf dropped "@ =~= head + " dropped "@);
    assert(" events (total "@ =~= " events"@ + " (total "@);
    assert(" (total "@ =~= " ("@ + "total "@);
    lemma_occurs(
        line,
        head,
        " dropped "@ + decimal(lost) + " events"@,
        " (total "@ + decimal(total) + ")"@,
    );
    lemma_occurs(
        line,
        head + " dropped "@ + decimal(lost) + " events"@ + " ("@,
        "total "@ + decimal(total) + ")"@,
        none,
    );
}

/// The full line of a window without requests says so behind the device and the seconds;
/// that of one with requests does not.
pub proof fn law_full_line_of_an_idle_window(s: WindowStats)
    requires
        s.reqs == 0,
    ensures
        ({
            let line = stats_text(s);
            &&& labelled(
                line,
                "disk "@ + (match s.dev {
                    Some(d) => dev_text(d),
                    None => Seq::empty(),
                }) + " | "@,
                decimal(s.window_secs as nat),
                "s | idle"@,
            )
            &&& line.subrange(line.len() - 4, line.len() as int) == "idle"@
        }),
{
    let d = "disk "@ + (match s.dev {
        Some(d) => dev_text(d),
        None => Seq::empty(),
    }) + " | "@;
    lemma_occurs_in_itself(d + decimal(s.window_secs as nat) + "s | idle"@);
    lemma_idle_end(d + decimal(s.window_secs as nat));
}

proof fn lemma_idle_end(head: Seq<char>)
    ensures
        ({
            let line = head + "s | idle"@;
            line.subrange(line.len() - 4, line.len() as int) == "idle"@
        }),
{
    reveal_strlit("s | idle");
    reveal_strlit("idle");
    let line = head + "s | idle"@;
    let end = line.subrange(line.len() - 4, line.len() as int);
    assert(end.len() == 4);
    assert(end =~= "idle"@);
}

/// A window of no time has no rate: it is shown as infinite, or as no number where there
/// were no bytes either.
pub proof fn law_rate_of_no_time(bytes: u64)
    ensures
        rate_text(bytes, 0) == if bytes == 0 {
            "NaN"@
        } else {
            "inf"@
        },
{
}

}
