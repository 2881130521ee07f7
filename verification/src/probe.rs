//! The kernel side: which requests are traced, and the event that a completed
//! one becomes. All judging happens in the daemon.

use vstd::prelude::*;

use crate::event::{DiskEvent, DiskKey, RW_OTHER, RW_READ, RW_WRITE};

verus! {

/// Whether a request to `dev` is traced: 0 as the target stands for every
/// device.
pub open spec fn is_traced(target: u32, dev: u32) -> bool {
    target == 0 || dev == target
}

/// The kind of request that a flag string says, from position `i` on: that of
/// the first `R` or `W` before the end of the string.
pub open spec fn kind_from(rwbs: Seq<u8>, i: int) -> u8
    decreases rwbs.len() - i,
{
    if i < 0 || i >= rwbs.len() || rwbs[i] == 0 {
        RW_OTHER
    } else if rwbs[i] == 82 {
        RW_READ
    } else if rwbs[i] == 87 {
        RW_WRITE
    } else {
        kind_from(rwbs, i + 1)
    }
}

/// Reads the kind of a request from its flag string, such as `WS`.
pub fn request_kind(rwbs: &[u8; 8]) -> (r: u8)
    ensures
        r == kind_from(rwbs@, 0),
{
    let mut i: usize = 0;
    while i < 8
        invariant
            i <= 8,
            kind_from(rwbs@, 0) == kind_from(rwbs@, i as int),
        decreases 8 - i,
    {
        let b = rwbs[i];
        if b == 82 {
            return RW_READ;
        }
        if b == 87 {
            return RW_WRITE;
        }
        if b == 0 {
            return RW_OTHER;
        }
        i = i + 1;
    }
    RW_OTHER
}

/// Decides on an issued request: the key under which its issue time is stored,
/// or nothing where its device is not traced.
pub fn try_issue(target: u32, dev: u32, sector: u64) -> (r: Option<DiskKey>)
    ensures
        r == if is_traced(target, dev) {
            Some(DiskKey { sector, dev: dev as u64 })
        } else {
            None
        },
{
    if target != 0 && dev != target {
        return None;
    }
    Some(DiskKey { sector, dev: dev as u64 })
}

/// A completed request as the kernel describes it.
#[derive(Clone, Copy)]
pub struct Completion {
    pub dev: u32,
    pub sector: u64,
    pub nr_sector: u32,
    pub error: i32,
    pub rwbs: [u8; 8],
}

/// The event of a request that was issued at `issue_ns` and completed at
/// `now_ns`.
pub open spec fn completed_event(c: Completion, issue_ns: u64, now_ns: u64) -> DiskEvent {
    DiskEvent {
        sector: c.sector,
        latency_ns: if now_ns >= issue_ns {
            (now_ns - issue_ns) as u64
        } else {
            0
        },
        dev: c.dev,
        bytes: (c.nr_sector * 512) as u32,
        error: c.error,
        rw: kind_from(c.rwbs@, 0),
    }
}

/// Decides on a completed request, given the issue time stored under its key:
/// the event to hand to the daemon, or nothing where its device is not traced
/// or no issue time is stored.
pub fn try_complete(target: u32, c: &Completion, issue_ns: Option<u64>, now_ns: u64) -> (r: Option<
    DiskEvent,
>)
    requires
        is_traced(target, c.dev) && issue_ns is Some ==> c.nr_sector * 512 <= u32::MAX,
    ensures
        r == match issue_ns {
            Some(t) if is_traced(target, c.dev) => Some(completed_event(*c, t, now_ns)),
            _ => None,
        },
{
    if target != 0 && c.dev != target {
        return None;
    }
    match issue_ns {
        None => None,
        Some(issue) => Some(
            DiskEvent {
                sector: c.sector,
                latency_ns: now_ns.saturating_sub(issue),
                dev: c.dev,
                bytes: c.nr_sector * 512,
                error: c.error,
                rw: request_kind(&c.rwbs),
            },
        ),
    }
}

// ---- what holds of all requests ----

/// A request is traced if and only if all devices are, or it is to the one that is; its
/// issue and its completion are known by the same key.
pub proof fn law_target_decides(target: u32, dev: u32)
    ensures
        is_traced(0, dev),
        is_traced(dev, dev),
        target != 0 && target != dev ==> !is_traced(target, dev),
{
}

/// A completed request becomes an event of its own device, sector and error, of 512
/// bytes for each of its sectors, with the time since its issue, or 0 where the clock
/// says that it ended before.
pub proof fn law_event_is_of_the_request(c: Completion, issue_ns: u64, now_ns: u64)
    requires
        c.nr_sector * 512 <= u32::MAX,
    ensures
        ({
            let ev = completed_event(c, issue_ns, now_ns);
            &&& ev.dev == c.dev && ev.sector == c.sector && ev.error == c.error
            &&& ev.bytes == 512 * c.nr_sector
            &&& issue_ns <= now_ns ==> issue_ns + ev.latency_ns == now_ns
            &&& issue_ns > now_ns ==> ev.latency_ns == 0
        }),
{
}

/// The kind of a request is that of the first `R` or `W` of its flags, as long as no zero
/// comes before; without one it is neither a read nor a write.
pub proof fn law_first_flag_decides(rwbs: Seq<u8>, i: int)
    requires
        0 <= i < rwbs.len(),
        forall|k: int|
            0 <= k < i ==> (#[trigger] rwbs[k]) != 82 && rwbs[k] != 87 && rwbs[k] != 0,
    ensures
        rwbs[i] == 82 ==> kind_from(rwbs, 0) == RW_READ,
        rwbs[i] == 87 ==> kind_from(rwbs, 0) == RW_WRITE,
        rwbs[i] == 0 ==> kind_from(rwbs, 0) == RW_OTHER,
        i == rwbs.len() - 1 && rwbs[i] != 82 && rwbs[i] != 87 ==> kind_from(rwbs, 0) == RW_OTHER,
{
    lemma_kind_from(rwbs, 0, i);
    if rwbs[i] != 82 && rwbs[i] != 87 && rwbs[i] != 0 {
        assert(kind_from(rwbs, i) == kind_from(rwbs, i + 1));
    }
}

proof fn lemma_kind_from(rwbs: Seq<u8>, a: int, b: int)
    requires
        0 <= a <= b < rwbs.len(),
        forall|k: int|
            a <= k < b ==> (#[trigger] rwbs[k]) != 82 && rwbs[k] != 87 && rwbs[k] != 0,
    ensures
        kind_from(rwbs, a) == kind_from(rwbs, b),
    decreases b - a,
{
    if a < b {
        lemma_kind_from(rwbs, a + 1, b);
    }
}

}
