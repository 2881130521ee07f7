//! The record of one completed disk request, as the kernel side writes it and
//! the daemon reads it.

use vstd::prelude::*;

verus! {

/// A request that reads.
pub const RW_READ: u8 = 0;

/// A request that writes.
pub const RW_WRITE: u8 = 1;

/// A request that does neither, such as a flush or a discard.
pub const RW_OTHER: u8 = 2;

/// What an in-flight request is known by.
#[derive(Clone, Copy, Debug, PartialEq, Eq, Structural)]
pub struct DiskKey {
    pub sector: u64,
    pub dev: u64,
}

/// One completed request.
#[derive(Clone, Copy, Debug, PartialEq, Eq, Structural)]
pub struct DiskEvent {
    pub sector: u64,
    pub latency_ns: u64,
    pub dev: u32,
    pub bytes: u32,
    pub error: i32,
    pub rw: u8,
}

/// The order of the bytes of a number in memory.
#[derive(Clone, Copy, Debug, PartialEq, Eq, Structural)]
pub enum ByteOrder {
    Little,
    Big,
}

/// The length of a record: the fields one after the other, then three unused
/// bytes.
pub const EVENT_LEN: usize = 32;

/// The number that four bytes from `at` on hold.
pub open spec fn u32_at(s: Seq<u8>, at: int, order: ByteOrder) -> int {
    match order {
        ByteOrder::Little => s[at] + 0x100 * s[at + 1] + 0x1_0000 * s[at + 2] + 0x100_0000 * s[at
            + 3],
        ByteOrder::Big => 0x100_0000 * s[at] + 0x1_0000 * s[at + 1] + 0x100 * s[at + 2] + s[at + 3],
    }
}

/// The number that eight bytes from `at` on hold.
pub open spec fn u64_at(s: Seq<u8>, at: int, order: ByteOrder) -> int {
    match order {
        ByteOrder::Little => u32_at(s, at, order) + 0x1_0000_0000 * u32_at(s, at + 4, order),
        ByteOrder::Big => 0x1_0000_0000 * u32_at(s, at, order) + u32_at(s, at + 4, order),
    }
}

/// The signed number with the same bits as the unsigned `n`.
pub open spec fn signed_of(n: int) -> int {
    if n < 0x8000_0000 {
        n
    } else {
        n - 0x1_0000_0000
    }
}

/// Whether a record holds `ev`.
pub open spec fn holds_event(s: Seq<u8>, ev: DiskEvent, order: ByteOrder) -> bool {
    &&& ev.sector == u64_at(s, 0, order)
    &&& ev.latency_ns == u64_at(s, 8, order)
    &&& ev.dev == u32_at(s, 16, order)
    &&& ev.bytes == u32_at(s, 20, order)
    &&& ev.error == signed_of(u32_at(s, 24, order))
    &&& ev.rw == s[28]
}

fn read_u32(s: &[u8], at: usize, order: ByteOrder) -> (r: u32)
    requires
        at + 4 <= s@.len(),
    ensures
        r == u32_at(s@, at as int, order),
{
    let a: u32 = s[at] as u32;
    let b: u32 = s[at + 1] as u32;
    let c: u32 = s[at + 2] as u32;
    let d: u32 = s[at + 3] as u32;
    match order {
        ByteOrder::Little => a + 0x100 * b + 0x1_0000 * c + 0x100_0000 * d,
        ByteOrder::Big => 0x100_0000 * a + 0x1_0000 * b + 0x100 * c + d,
    }
}

fn read_u64(s: &[u8], at: usize, order: ByteOrder) -> (r: u64)
    requires
        at + 8 <= s@.len(),
    ensures
        r == u64_at(s@, at as int, order),
{
    assert(at + 8 <= s.len());
    let a: u64 = read_u32(s, at, order) as u64;
    let b: u64 = read_u32(s, at + 4, order) as u64;
    match order {
        ByteOrder::Little => a + 0x1_0000_0000 * b,
        ByteOrder::Big => 0x1_0000_0000 * a + b,
    }
}

/// Reads the record that the kernel side handed over, in the byte order of the
/// machine that both run on.
pub fn read_event(item: &[u8], order: ByteOrder) -> (r: DiskEvent)
    requires
        item@.len() >= EVENT_LEN,
    ensures
        holds_event(item@, r, order),
{
    let raw = read_u32(item, 24, order);
    let error: i32 = if raw < 0x8000_0000 {
        raw as i32
    } else {
        (raw as i64 - 0x1_0000_0000) as i32
    };
    DiskEvent {
        sector: read_u64(item, 0, order),
        latency_ns: read_u64(item, 8, order),
        dev: read_u32(item, 16, order),
        bytes: read_u32(item, 20, order),
        error,
        rw: item[28],
    }
}

/// The four bytes of `n`.
pub open spec fn u32_bytes(n: int, order: ByteOrder) -> Seq<u8> {
    let a = (n % 0x100) as u8;
    let b = (n / 0x100 % 0x100) as u8;
    let c = (n / 0x1_0000 % 0x100) as u8;
    let d = (n / 0x100_0000 % 0x100) as u8;
    match order {
        ByteOrder::Little => seq![a, b, c, d],
        ByteOrder::Big => seq![d, c, b, a],
    }
}

/// The eight bytes of `n`.
pub open spec fn u64_bytes(n: int, order: ByteOrder) -> Seq<u8> {
    let low = u32_bytes(n % 0x1_0000_0000, order);
    let high = u32_bytes(n / 0x1_0000_0000, order);
    match order {
        ByteOrder::Little => low + high,
        ByteOrder::Big => high + low,
    }
}

/// The record of `ev`.
pub open spec fn event_bytes(ev: DiskEvent, order: ByteOrder) -> Seq<u8> {
    let error = if ev.error < 0 {
        ev.error + 0x1_0000_0000
    } else {
        ev.error as int
    };
    u64_bytes(ev.sector as int, order) + u64_bytes(ev.latency_ns as int, order) + u32_bytes(
        ev.dev as int,
        order,
    ) + u32_bytes(ev.bytes as int, order) + u32_bytes(error, order) + seq![ev.rw, 0u8, 0u8, 0u8]
}

proof fn lemma_u32_bytes(n: int, order: ByteOrder)
    requires
        0 <= n < 0x1_0000_0000,
    ensures
        u32_bytes(n, order).len() == 4,
        u32_at(u32_bytes(n, order), 0, order) == n,
{
}

proof fn lemma_u64_bytes(n: int, order: ByteOrder)
    requires
        0 <= n < 0x1_0000_0000_0000_0000,
    ensures
        u64_bytes(n, order).len() == 8,
        u64_at(u64_bytes(n, order), 0, order) == n,
{
    lemma_u32_bytes(n % 0x1_0000_0000, order);
    lemma_u32_bytes(n / 0x1_0000_0000, order);
}

proof fn lemma_u32_moved(s: Seq<u8>, t: Seq<u8>, at: int, n: int, order: ByteOrder)
    requires
        0 <= at,
        at + 4 <= s.len(),
        0 <= n < 0x1_0000_0000,
        t == u32_bytes(n, order),
        s.subrange(at, at + 4) == t,
    ensures
        u32_at(s, at, order) == n,
{
    lemma_u32_bytes(n, order);
    assert(forall|i: int| 0 <= i < 4 ==> s[at + i] == #[trigger] s.subrange(at, at + 4)[i]);
    assert(s[at + 0] == t[0] && s[at + 1] == t[1] && s[at + 2] == t[2] && s[at + 3] == t[3]);
}

proof fn lemma_u64_moved(s: Seq<u8>, t: Seq<u8>, at: int, n: int, order: ByteOrder)
    requires
        0 <= at,
        at + 8 <= s.len(),
        0 <= n < 0x1_0000_0000_0000_0000,
        t == u64_bytes(n, order),
        s.subrange(at, at + 8) == t,
    ensures
        u64_at(s, at, order) == n,
{
    let low = n % 0x1_0000_0000;
    let high = n / 0x1_0000_0000;
    lemma_u32_bytes(low, order);
    lemma_u32_bytes(high, order);
    assert(s.subrange(at, at + 4) =~= s.subrange(at, at + 8).subrange(0, 4));
    assert(s.subrange(at + 4, at + 8) =~= s.subrange(at, at + 8).subrange(4, 8));
    match order {
        ByteOrder::Little => {
            assert(t.subrange(0, 4) =~= u32_bytes(low, order));
            assert(t.subrange(4, 8) =~= u32_bytes(high, order));
            lemma_u32_moved(s, u32_bytes(low, order), at, low, order);
            lemma_u32_moved(s, u32_bytes(high, order), at + 4, high, order);
        },
        ByteOrder::Big => {
            assert(t.subrange(0, 4) =~= u32_bytes(high, order));
            assert(t.subrange(4, 8) =~= u32_bytes(low, order));
            lemma_u32_moved(s, u32_bytes(high, order), at, high, order);
            lemma_u32_moved(s, u32_bytes(low, order), at + 4, low, order);
        },
    }
}

/// Writer and reader agree: the record of an event is as long as a record is,
/// and holds that event and no other.
pub proof fn law_record_holds_its_event(ev: DiskEvent, order: ByteOrder)
    ensures
        event_bytes(ev, order).len() == EVENT_LEN,
        holds_event(event_bytes(ev, order), ev, order),
        forall|other: DiskEvent|
            holds_event(event_bytes(ev, order), other, order) ==> other == ev,
{
    let error = if ev.error < 0 {
        ev.error + 0x1_0000_0000
    } else {
        ev.error as int
    };
    let f0 = u64_bytes(ev.sector as int, order);
    let f1 = u64_bytes(ev.latency_ns as int, order);
    let f2 = u32_bytes(ev.dev as int, order);
    let f3 = u32_bytes(ev.bytes as int, order);
    let f4 = u32_bytes(error, order);
    let f5 = seq![ev.rw, 0u8, 0u8, 0u8];
    lemma_u64_bytes(ev.sector as int, order);
    lemma_u64_bytes(ev.latency_ns as int, order);
    lemma_u32_bytes(ev.dev as int, order);
    lemma_u32_bytes(ev.bytes as int, order);
    lemma_u32_bytes(error, order);
    let s = event_bytes(ev, order);
    lemma_fields(f0, f1, f2, f3, f4, f5, s);
    lemma_u64_moved(s, f0, 0, ev.sector as int, order);
    lemma_u64_moved(s, f1, 8, ev.latency_ns as int, order);
    lemma_u32_moved(s, f2, 16, ev.dev as int, order);
    lemma_u32_moved(s, f3, 20, ev.bytes as int, order);
    lemma_u32_moved(s, f4, 24, error, order);
}

proof fn lemma_fields(
    f0: Seq<u8>,
    f1: Seq<u8>,
    f2: Seq<u8>,
    f3: Seq<u8>,
    f4: Seq<u8>,
    f5: Seq<u8>,
    s: Seq<u8>,
)
    requires
        f0.len() == 8,
        f1.len() == 8,
        f2.len() == 4,
        f3.len() == 4,
        f4.len() == 4,
        f5.len() == 4,
        s == f0 + f1 + f2 + f3 + f4 + f5,
    ensures
        s.len() == 32,
        s.subrange(0, 8) == f0,
        s.subrange(8, 16) == f1,
        s.subrange(16, 20) == f2,
        s.subrange(20, 24) == f3,
        s.subrange(24, 28) == f4,
        s[28] == f5[0],
{
    assert(s.subrange(0, 8) =~= f0);
    assert(s.subrange(8, 16) =~= f1);
    assert(s.subrange(16, 20) =~= f2);
    assert(s.subrange(20, 24) =~= f3);
    assert(s.subrange(24, 28) =~= f4);
}

/// The fields stand one behind the other: sector, latency, device, bytes, error and kind.
/// Of a number the lowest byte comes first in one order, and last in the other; an error
/// is negative where its highest bit is set.
pub proof fn law_fields_stand_in_order(s: Seq<u8>, ev: DiskEvent)
    requires
        s.len() >= 32,
    ensures
        holds_event(s, ev, ByteOrder::Little) ==> {
            &&& ev.sector == s[0] + 0x100 * s[1] + 0x1_0000 * s[2] + 0x100_0000 * s[3]
                + 0x1_0000_0000 * s[4] + 0x100_0000_0000 * s[5] + 0x1_0000_0000_0000 * s[6]
                + 0x100_0000_0000_0000 * s[7]
            &&& ev.latency_ns == s[8] + 0x100 * s[9] + 0x1_0000 * s[10] + 0x100_0000 * s[11]
                + 0x1_0000_0000 * s[12] + 0x100_0000_0000 * s[13] + 0x1_0000_0000_0000 * s[14]
                + 0x100_0000_0000_0000 * s[15]
            &&& ev.dev == s[16] + 0x100 * s[17] + 0x1_0000 * s[18] + 0x100_0000 * s[19]
            &&& ev.bytes == s[20] + 0x100 * s[21] + 0x1_0000 * s[22] + 0x100_0000 * s[23]
            &&& ev.error == s[24] + 0x100 * s[25] + 0x1_0000 * s[26] + 0x100_0000 * s[27] - (
            if s[27] >= 128 {
                0x1_0000_0000int
            } else {
                0
            })
            &&& ev.rw == s[28]
        },
        holds_event(s, ev, ByteOrder::Big) ==> {
            &&& ev.sector == s[7] + 0x100 * s[6] + 0x1_0000 * s[5] + 0x100_0000 * s[4]
                + 0x1_0000_0000 * s[3] + 0x100_0000_0000 * s[2] + 0x1_0000_0000_0000 * s[1]
                + 0x100_0000_0000_0000 * s[0]
            &&& ev.latency_ns == s[15] + 0x100 * s[14] + 0x1_0000 * s[13] + 0x100_0000 * s[12]
                + 0x1_0000_0000 * s[11] + 0x100_0000_0000 * s[10] + 0x1_0000_0000_0000 * s[9]
                + 0x100_0000_0000_0000 * s[8]
            &&& ev.dev == s[19] + 0x100 * s[18] + 0x1_0000 * s[17] + 0x100_0000 * s[16]
            &&& ev.bytes == s[23] + 0x100 * s[22] + 0x1_0000 * s[21] + 0x100_0000 * s[20]
            &&& ev.error == s[27] + 0x100 * s[26] + 0x1_0000 * s[25] + 0x100_0000 * s[24] - (
            if s[24] >= 128 {
                0x1_0000_0000int
            } else {
                0
            })
            &&& ev.rw == s[28]
        },
{
}

}
