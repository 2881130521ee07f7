//! The alerts of a window. Every alert is a static threshold on a signal of its
//! own: none waits for another, since a slow disk does not reliably foretell a
//! late vote.

use std::collections::VecDeque;

use vstd::prelude::*;

use crate::disk::WindowStats;
use crate::net::{option_text, NetSample};
use crate::number::{push_signed, signed_decimal};
use crate::order::{ascending, law_ascending, lemma_around_rank, lemma_ascending_from, sort};
use crate::rpc::{Sample, ValidatorSample};
use crate::sockets::{SocketEntry, SocketSample};
use crate::text::{has_prefix, occurs_in, stands_at};

verus! {

broadcast use vstd::std_specs::vecdeque::group_vec_dequeue_axioms;

/// How many windows the median of disk latencies looks back on.
pub const HISTORY: usize = 20;

/// Every alert threshold. Nothing here adapts.
#[derive(Clone, Copy, Debug, PartialEq, Eq, Structural)]
pub struct Thresholds {
    /// A p99 of the disk above this is elevated.
    pub disk_latency_ns: u64,
    /// How many elevated windows in a row it takes.
    pub disk_streak: u32,
    /// In slots.
    pub vote_lag: i64,
    /// Over how many windows freezes are counted.
    pub freeze_lookback: u32,
    /// A slot that moves further than this is a discontinuity.
    pub freeze_jump_bound: i64,
    pub ring_drop_threshold: u64,
    pub napi_squeeze_threshold: u64,
    pub udp_rcvbuf_threshold: u64,
    /// For the drops of any one port of the validator.
    pub socket_drop_threshold: u64,
}

/// What a window says of the disk: the alert, and the median that is reported
/// beside it but decides nothing.
#[derive(Clone, Copy, Debug, PartialEq, Eq, Structural)]
pub struct DiskResult {
    pub alert: bool,
    pub median_us: Option<u64>,
}

/// What a window says of the slot.
#[derive(Clone, Copy, Debug, PartialEq, Eq, Structural)]
pub struct FreezeState {
    pub freeze: bool,
    pub freeze_duration_ms: u64,
    pub freeze_in_last_n: u32,
}

// ---- the last values ----

/// `s` with `v` behind it, but no more than the last `cap` of these, and at
/// least one.
pub open spec fn capped<T>(s: Seq<T>, v: T, cap: int) -> Seq<T> {
    let t = s.push(v);
    let n = if cap < 1 {
        1
    } else {
        cap
    };
    if t.len() > n {
        t.subrange(t.len() - n, t.len() as int)
    } else {
        t
    }
}

/// Appends a value, and lets go of the oldest ones beyond `cap`.
pub fn push_capped<T>(q: &mut VecDeque<T>, v: T, cap: usize)
    ensures
        final(q)@ == capped(old(q)@, v, cap as int),
{
    let n: usize = if cap < 1 {
        1
    } else {
        cap
    };
    let ghost s = q@;
    while q.len() >= n
        invariant
            1 <= n,
            q@.len() <= s.len(),
            q@ == s.subrange(s.len() - q@.len(), s.len() as int),
            q@.len() >= n - 1 || q@ == s,
        decreases q@.len(),
    {
        q.pop_front();
        assert(q@ =~= s.subrange(s.len() - q@.len(), s.len() as int));
    }
    q.push_back(v);
    assert(q@ =~= capped(s, v, cap as int));
}

/// The median of latencies, in microseconds.
pub open spec fn median_of(s: Seq<u64>) -> Option<u64> {
    if s.len() == 0 {
        None
    } else {
        Some(ascending(s)[s.len() as int / 2] / 1_000)
    }
}

/// Takes the median of latencies, and turns it to microseconds.
pub fn median_option(q: &VecDeque<u64>) -> (r: Option<u64>)
    ensures
        r == median_of(q@),
{
    if q.len() == 0 {
        return None;
    }
    let mut v: Vec<u64> = Vec::new();
    let mut i: usize = 0;
    while i < q.len()
        invariant
            i <= q@.len(),
            v@ == q@.take(i as int),
        decreases q@.len() - i,
    {
        v.push(q[i]);
        i = i + 1;
        assert(v@ =~= q@.take(i as int));
    }
    assert(v@ =~= q@);
    sort(&mut v);
    proof {
        law_ascending(q@);
    }
    Some(v[v.len() / 2] / 1_000)
}

// ---- the slot ----

/// The number that 64 bits stand for as a signed integer.
pub open spec fn as_signed(n: u64) -> int {
    if n <= i64::MAX {
        n as int
    } else {
        n - 0x1_0000_0000_0000_0000
    }
}

fn signed(n: u64) -> (r: i64)
    ensures
        r == as_signed(n),
{
    if n <= 9_223_372_036_854_775_807 {
        n as i64
    } else {
        -((u64::MAX - n) as i64) - 1
    }
}

/// What is known of the slot. Times are in nanoseconds.
#[verifier::ext_equal]
pub struct SlotState {
    pub prev_slot: Option<u64>,
    pub frozen_since: Option<u64>,
    /// Whether the slot stood still, for the last windows in which it was known.
    pub recent: Seq<bool>,
    pub announced: bool,
}

/// Follows the slot, to tell when it stops moving.
pub struct SlotTracker {
    prev_slot: Option<u64>,
    freeze_started_at: Option<u64>,
    recent_freezes: VecDeque<bool>,
    announced: bool,
}

/// By how much the slot moved.
pub open spec fn advance_of(prev: u64, slot: u64) -> int {
    as_signed(slot) - as_signed(prev)
}

/// Whether the slot moved backwards, or further than it can have: the validator
/// was restarted or caught up.
pub open spec fn is_discontinuity(prev: u64, slot: u64, jump_bound: i64) -> bool {
    advance_of(prev, slot) < 0 || advance_of(prev, slot) > jump_bound
}

/// Whether by how much the slot moved is a number of 64 bits.
pub open spec fn step_fits(s: SlotState, slot: Option<u64>) -> bool {
    match (s.prev_slot, slot) {
        (Some(p), Some(n)) => i64::MIN <= advance_of(p, n) <= i64::MAX,
        _ => true,
    }
}

/// What is known after the slot `slot` was seen at `now`.
pub open spec fn after_slot(
    s: SlotState,
    slot: Option<u64>,
    jump_bound: i64,
    lookback: u32,
    now: u64,
) -> SlotState {
    match (slot, s.prev_slot) {
        (None, _) => s,
        (Some(n), None) => SlotState { prev_slot: Some(n), ..s },
        (Some(n), Some(p)) => if is_discontinuity(p, n, jump_bound) {
            SlotState {
                prev_slot: Some(n),
                frozen_since: None,
                recent: Seq::empty(),
                announced: false,
            }
        } else {
            let frozen = advance_of(p, n) == 0;
            SlotState {
                prev_slot: Some(n),
                frozen_since: if !frozen {
                    None
                } else if s.frozen_since is Some {
                    s.frozen_since
                } else {
                    Some(now)
                },
                recent: capped(s.recent, frozen, lookback as int),
                announced: frozen,
            }
        },
    }
}

/// For how long the slot has stood still, in milliseconds.
pub open spec fn freeze_ms(s: SlotState, now: u64) -> u64 {
    match s.frozen_since {
        Some(t) if now > t => ((now - t) as u64) / 1_000_000,
        _ => 0,
    }
}

/// In how many of the last windows the slot stood still.
pub open spec fn count_true(s: Seq<bool>) -> nat
    decreases s.len(),
{
    if s.len() == 0 {
        0
    } else {
        count_true(s.drop_last()) + if s.last() {
            1nat
        } else {
            0nat
        }
    }
}

/// Whether what is known of the slot can have come of readings: before the first
/// one there was no freeze, and a freeze that lasts was announced.
pub open spec fn is_consistent(s: SlotState) -> bool {
    &&& s.prev_slot is None ==> s.frozen_since is None && s.recent.len() == 0
    &&& s.announced == (s.frozen_since is Some)
}

/// What a window says of the slot `slot`, seen at `now`. Where no slot was seen
/// the last known state stands.
pub open spec fn slot_result(
    s: SlotState,
    slot: Option<u64>,
    jump_bound: i64,
    lookback: u32,
    now: u64,
) -> FreezeState {
    let t = after_slot(s, slot, jump_bound, lookback, now);
    match (slot, s.prev_slot) {
        (Some(n), Some(p)) if !is_discontinuity(p, n, jump_bound) => FreezeState {
            freeze: advance_of(p, n) == 0,
            freeze_duration_ms: freeze_ms(t, now),
            freeze_in_last_n: count_true(t.recent) as u32,
        },
        (None, _) => FreezeState {
            freeze: s.frozen_since is Some,
            freeze_duration_ms: freeze_ms(s, now),
            freeze_in_last_n: count_true(s.recent) as u32,
        },
        _ => FreezeState { freeze: false, freeze_duration_ms: 0, freeze_in_last_n: 0 },
    }
}

/// What there is to be said of the slot `slot`: that it jumped, or that it
/// stopped, the latter once for each freeze.
pub open spec fn slot_message(s: SlotState, slot: Option<u64>, jump_bound: i64) -> Option<
    Seq<char>,
> {
    match (slot, s.prev_slot) {
        (Some(n), Some(p)) => if is_discontinuity(p, n, jump_bound) {
            Some(
                "!! DISCONTINUITY: slot jumped by "@ + signed_decimal(advance_of(p, n))
                    + " (restart or resync)"@,
            )
        } else if advance_of(p, n) == 0 && !s.announced {
            Some("!! FREEZE: slot stopped advancing"@)
        } else {
            None
        },
        _ => None,
    }
}

proof fn lemma_count_true(s: Seq<bool>)
    ensures
        count_true(s) <= s.len(),
    decreases s.len(),
{
    if s.len() > 0 {
        lemma_count_true(s.drop_last());
    }
}

impl View for SlotTracker {
    type V = SlotState;

    closed spec fn view(&self) -> SlotState {
        SlotState {
            prev_slot: self.prev_slot,
            frozen_since: self.freeze_started_at,
            recent: self.recent_freezes@,
            announced: self.announced,
        }
    }
}

impl SlotTracker {
    /// Whether what is known is consistent, and the windows kept can be counted in
    /// 32 bits.
    pub open spec fn wf(&self) -> bool {
        is_consistent(self@) && self@.recent.len() <= u32::MAX
    }

    /// A tracker that has seen no slot yet.
    pub fn new() -> (r: SlotTracker)
        ensures
            r.wf(),
            r@ == (SlotState {
                prev_slot: None,
                frozen_since: None,
                recent: Seq::empty(),
                announced: false,
            }),
    {
        SlotTracker {
            prev_slot: None,
            freeze_started_at: None,
            recent_freezes: VecDeque::new(),
            announced: false,
        }
    }

    /// Tells whether by how much the slot moved is a number of 64 bits.
    pub fn can_observe(&self, slot: Option<u64>) -> (r: bool)
        ensures
            r == step_fits(self@, slot),
    {
        match (self.prev_slot, slot) {
            (Some(p), Some(n)) => {
                let d = signed(n) as i128 - signed(p) as i128;
                i64::MIN as i128 <= d && d <= i64::MAX as i128
            },
            _ => true,
        }
    }

    /// Takes in the slot that was seen, and gives what the window says of it and
    /// what there is to be said aloud. An outage, in which no slot was seen,
    /// neither advances the tracker nor sets it back: the last known state stands.
    pub fn observe(
        &mut self,
        slot: Option<u64>,
        jump_bound: i64,
        lookback: u32,
        now_ns: u64,
    ) -> (r: (FreezeState, Option<String>))
        requires
            old(self).wf(),
            step_fits(old(self)@, slot),
        ensures
            final(self).wf(),
            final(self)@ == after_slot(old(self)@, slot, jump_bound, lookback, now_ns),
            r.0 == slot_result(old(self)@, slot, jump_bound, lookback, now_ns),
            option_text(r.1) == slot_message(old(self)@, slot, jump_bound),
    {
        let n = match slot {
            Some(n) => n,
            None => {
                return (
                    FreezeState {
                        freeze: self.freeze_started_at.is_some(),
                        freeze_duration_ms: self.current_freeze_ms(now_ns),
                        freeze_in_last_n: self.count_recent_freezes(),
                    },
                    None,
                );
            },
        };
        let calm = FreezeState { freeze: false, freeze_duration_ms: 0, freeze_in_last_n: 0 };
        let prev = match self.prev_slot {
            Some(p) => p,
            None => {
                self.prev_slot = Some(n);
                return (calm, None);
            },
        };
        let advance = signed(n) - signed(prev);
        self.prev_slot = Some(n);
        if advance < 0 || advance > jump_bound {
            let mut message = "!! DISCONTINUITY: slot jumped by ".to_string();
            push_signed(&mut message, advance);
            message.append(" (restart or resync)");
            self.freeze_started_at = None;
            self.recent_freezes.clear();
            self.announced = false;
            return (calm, Some(message));
        }
        let frozen = advance == 0;
        let mut message: Option<String> = None;
        if frozen {
            if self.freeze_started_at.is_none() {
                self.freeze_started_at = Some(now_ns);
            }
            if !self.announced {
                self.announced = true;
                message = Some("!! FREEZE: slot stopped advancing".to_string());
            }
        } else {
            self.freeze_started_at = None;
            self.announced = false;
        }
        push_capped(&mut self.recent_freezes, frozen, lookback as usize);
        let state = FreezeState {
            freeze: frozen,
            freeze_duration_ms: self.current_freeze_ms(now_ns),
            freeze_in_last_n: self.count_recent_freezes(),
        };
        (state, message)
    }

    /// For how long the slot has stood still, in milliseconds.
    pub fn current_freeze_ms(&self, now_ns: u64) -> (r: u64)
        ensures
            r == freeze_ms(self@, now_ns),
    {
        match self.freeze_started_at {
            Some(t) => now_ns.saturating_sub(t) / 1_000_000,
            None => 0,
        }
    }

    /// In how many of the last windows the slot stood still.
    pub fn count_recent_freezes(&self) -> (r: u32)
        requires
            self.wf(),
        ensures
            r == count_true(self@.recent),
    {
        let mut n: u32 = 0;
        let mut i: usize = 0;
        while i < self.recent_freezes.len()
            invariant
                i <= self.recent_freezes@.len() <= u32::MAX,
                n == count_true(self.recent_freezes@.take(i as int)),
                n <= i,
            decreases self.recent_freezes@.len() - i,
        {
            assert(self.recent_freezes@.take(i + 1).drop_last() =~= self.recent_freezes@.take(
                i as int,
            ));
            if self.recent_freezes[i] {
                n = n + 1;
            }
            i = i + 1;
        }
        assert(self.recent_freezes@.take(i as int) =~= self.recent_freezes@);
        n
    }
}

// ---- the engine ----

/// What is known from one window to the next.
#[verifier::ext_equal]
pub struct EngineState {
    pub thresholds: Thresholds,
    /// The p99 of the last windows that were not elevated.
    pub history: Seq<u64>,
    /// How many elevated windows came in a row.
    pub streak: u32,
    pub slot: SlotState,
}

/// Decides the alerts on the disk, the vote lag and the slot.
pub struct AlertEngine {
    thresholds: Thresholds,
    disk_median_history: VecDeque<u64>,
    disk_streak_count: u32,
    slot: SlotTracker,
}

/// Whether the disk was slow in a window.
pub open spec fn is_elevated(t: Thresholds, w: WindowStats) -> bool {
    w.reqs > 0 && w.p99_ns > t.disk_latency_ns
}

/// How many elevated windows in a row make an alert.
pub open spec fn wanted_streak(t: Thresholds) -> u32 {
    if t.disk_streak == 0 {
        1
    } else {
        t.disk_streak
    }
}

/// Whether a window can still be counted in a row of elevated ones.
pub open spec fn streak_fits(s: EngineState, w: WindowStats) -> bool {
    is_elevated(s.thresholds, w) ==> s.streak < u32::MAX
}

/// Whether the history is no longer than what it looks back on, and no latency in
/// it is above the threshold.
pub open spec fn history_in_order(s: EngineState) -> bool {
    &&& s.history.len() <= HISTORY
    &&& forall|i: int|
        0 <= i < s.history.len() ==> (#[trigger] s.history[i]) <= s.thresholds.disk_latency_ns
}

/// What is known after a window. One without requests says nothing of the disk;
/// one that is elevated does not enter the median, which stands for what is
/// normal.
pub open spec fn after_disk(s: EngineState, w: WindowStats) -> EngineState {
    if w.reqs == 0 {
        s
    } else if is_elevated(s.thresholds, w) {
        EngineState { streak: (s.streak + 1) as u32, ..s }
    } else {
        EngineState { streak: 0, history: capped(s.history, w.p99_ns, HISTORY as int), ..s }
    }
}

/// What a window says of the disk: an alert where it is elevated and ends a row
/// of as many as wanted, and the median of the windows before it.
pub open spec fn disk_value(s: EngineState, w: WindowStats) -> DiskResult {
    DiskResult {
        alert: is_elevated(s.thresholds, w) && s.streak + 1 >= wanted_streak(s.thresholds),
        median_us: median_of(s.history),
    }
}

/// Whether the vote is too far behind. A validator that does not answer counts
/// as the furthest behind.
pub open spec fn is_lagging(t: Thresholds, v: Option<&Sample>) -> bool {
    match v {
        Some(Sample::Up(s)) => s.vote_lag >= t.vote_lag,
        Some(Sample::Down { .. }) => i64::MAX >= t.vote_lag,
        None => false,
    }
}

/// The slot that a poll saw.
pub open spec fn slot_of(v: Option<&Sample>) -> Option<u64> {
    match v {
        Some(Sample::Up(s)) => Some(s.network_slot),
        _ => None,
    }
}

fn seen_slot(v: Option<&Sample>) -> (r: Option<u64>)
    ensures
        r == slot_of(v),
{
    match v {
        Some(Sample::Up(s)) => Some(s.network_slot),
        _ => None,
    }
}

impl View for AlertEngine {
    type V = EngineState;

    closed spec fn view(&self) -> EngineState {
        EngineState {
            thresholds: self.thresholds,
            history: self.disk_median_history@,
            streak: self.disk_streak_count,
            slot: self.slot@,
        }
    }
}

impl AlertEngine {
    /// Whether the slot tracker is in order, and the history is one of windows that
    /// were not elevated, no longer than what it looks back on.
    pub closed spec fn wf(&self) -> bool {
        self.slot.wf() && history_in_order(self@)
    }

    /// An engine that has seen no window yet.
    pub fn new(thresholds: Thresholds) -> (r: AlertEngine)
        ensures
            r.wf(),
            r@ == (EngineState {
                thresholds,
                history: Seq::empty(),
                streak: 0,
                slot: SlotState {
                    prev_slot: None,
                    frozen_since: None,
                    recent: Seq::empty(),
                    announced: false,
                },
            }),
    {
        AlertEngine {
            thresholds,
            disk_median_history: VecDeque::new(),
            disk_streak_count: 0,
            slot: SlotTracker::new(),
        }
    }

    /// The thresholds in force.
    pub fn thresholds(&self) -> (r: Thresholds)
        ensures
            r == self@.thresholds,
    {
        self.thresholds
    }

    /// Tells whether a window can still be counted.
    pub fn can_observe_disk(&self, w: &WindowStats) -> (r: bool)
        ensures
            r == streak_fits(self@, *w),
    {
        !(w.reqs > 0 && w.p99_ns > self.thresholds.disk_latency_ns) || self.disk_streak_count
            < u32::MAX
    }

    /// Tells whether by how much the slot moved is a number of 64 bits.
    pub fn can_observe_slot(&self, v: Option<&Sample>) -> (r: bool)
        ensures
            r == step_fits(self@.slot, slot_of(v)),
    {
        self.slot.can_observe(seen_slot(v))
    }

    /// Takes in a window of the disk.
    pub fn observe_disk(&mut self, w: &WindowStats) -> (r: DiskResult)
        requires
            old(self).wf(),
            streak_fits(old(self)@, *w),
        ensures
            final(self).wf(),
            final(self)@ == after_disk(old(self)@, *w),
            r == disk_value(old(self)@, *w),
            r.median_us matches Some(m) ==> m <= old(self)@.thresholds.disk_latency_ns / 1_000,
    {
        proof {
            law_median_stays_below_the_threshold(self@);
            law_history_stays_in_order(self@, *w);
        }
        let median_us = median_option(&self.disk_median_history);
        if w.reqs == 0 {
            return DiskResult { alert: false, median_us };
        }
        let over = w.p99_ns > self.thresholds.disk_latency_ns;
        if over {
            self.disk_streak_count = self.disk_streak_count + 1;
        } else {
            self.disk_streak_count = 0;
            push_capped(&mut self.disk_median_history, w.p99_ns, HISTORY);
        }
        let wanted: u32 = if self.thresholds.disk_streak == 0 {
            1
        } else {
            self.thresholds.disk_streak
        };
        DiskResult { alert: over && self.disk_streak_count >= wanted, median_us }
    }

    /// Tells whether the vote is too far behind, by an absolute threshold.
    pub fn observe_lag(&self, v: Option<&Sample>) -> (r: bool)
        ensures
            r == is_lagging(self@.thresholds, v),
    {
        match v {
            Some(Sample::Up(s)) => s.vote_lag >= self.thresholds.vote_lag,
            Some(Sample::Down { .. }) => i64::MAX >= self.thresholds.vote_lag,
            None => false,
        }
    }

    /// Takes in the slot that the last poll saw.
    pub fn observe_slot(&mut self, v: Option<&Sample>, now_ns: u64) -> (r: (
        FreezeState,
        Option<String>,
    ))
        requires
            old(self).wf(),
            step_fits(old(self)@.slot, slot_of(v)),
        ensures
            final(self).wf(),
            final(self)@ == (EngineState {
                slot: after_slot(
                    old(self)@.slot,
                    slot_of(v),
                    old(self)@.thresholds.freeze_jump_bound,
                    old(self)@.thresholds.freeze_lookback,
                    now_ns,
                ),
                ..old(self)@
            }),
            r.0 == slot_result(
                old(self)@.slot,
                slot_of(v),
                old(self)@.thresholds.freeze_jump_bound,
                old(self)@.thresholds.freeze_lookback,
                now_ns,
            ),
            option_text(r.1) == slot_message(
                old(self)@.slot,
                slot_of(v),
                old(self)@.thresholds.freeze_jump_bound,
            ),
    {
        self.slot.observe(
            seen_slot(v),
            self.thresholds.freeze_jump_bound,
            self.thresholds.freeze_lookback,
            now_ns,
        )
    }
}

// ---- the alerts ----

/// The names of the alerts, in the order in which they are listed.
pub open spec fn alert_names() -> Seq<Seq<char>> {
    seq![
        "disk_latency"@,
        "vote_lag"@,
        "slot_freeze"@,
        "ring_drop"@,
        "napi_squeeze"@,
        "udp_rcvbuf"@,
        "socket_drop"@,
    ]
}

/// Whether a port dropped more than the threshold.
pub open spec fn drops_over(entries: Seq<SocketEntry>, threshold: u64) -> bool {
    exists|i: int| 0 <= i < entries.len() && (#[trigger] entries[i]).drops > threshold
}

/// Whether each alert fires, in the order of `alert_names`.
pub open spec fn fired(
    disk: DiskResult,
    vote_lag_alert: bool,
    freeze: FreezeState,
    net: Option<NetSample>,
    sockets: Option<&SocketSample>,
    t: Thresholds,
) -> Seq<bool> {
    seq![
        disk.alert,
        vote_lag_alert,
        freeze.freeze,
        net matches Some(n) && n.ring.rx_missed_errors > t.ring_drop_threshold,
        net matches Some(n) && n.softnet.time_squeeze > t.napi_squeeze_threshold,
        net matches Some(n) && n.snmp_udp.rcvbuf_errors > t.udp_rcvbuf_threshold,
        sockets matches Some(s) && drops_over(s.sockets@, t.socket_drop_threshold),
    ]
}

/// Those of the first `n` names whose flag is set, in order.
pub open spec fn picked(names: Seq<Seq<char>>, flags: Seq<bool>, n: int) -> Seq<Seq<char>>
    decreases n,
{
    if n <= 0 {
        Seq::empty()
    } else if flags[n - 1] {
        picked(names, flags, n - 1).push(names[n - 1])
    } else {
        picked(names, flags, n - 1)
    }
}

/// The alerts of a window: the names of those that fire.
pub open spec fn alerts_value(flags: Seq<bool>) -> Seq<Seq<char>> {
    picked(alert_names(), flags, 7)
}

/// The texts of a list.
pub open spec fn strs_view(v: Seq<&str>) -> Seq<Seq<char>> {
    v.map_values(|s: &str| s@)
}

fn any_over(entries: &Vec<SocketEntry>, threshold: u64) -> (r: bool)
    ensures
        r == drops_over(entries@, threshold),
{
    let mut i: usize = 0;
    while i < entries.len()
        invariant
            i <= entries@.len(),
            forall|k: int| 0 <= k < i ==> (#[trigger] entries@[k]).drops <= threshold,
        decreases entries@.len() - i,
    {
        if entries[i].drops > threshold {
            return true;
        }
        i = i + 1;
    }
    false
}

fn push_if(out: &mut Vec<&'static str>, flag: bool, name: &'static str)
    ensures
        strs_view(final(out)@) == if flag {
            strs_view(old(out)@).push(name@)
        } else {
            strs_view(old(out)@)
        },
{
    if flag {
        out.push(name);
        assert(strs_view(out@) =~= strs_view(old(out)@).push(name@));
    }
}

/// Lists the alerts of a window. Each is decided by its own signal alone: the
/// first three by the disk window and the validator sample, the next three by
/// the counters of layers 1 to 3, the last by any one port of layer 4.
pub fn build_alerts(
    disk: &DiskResult,
    vote_lag_alert: bool,
    freeze: &FreezeState,
    net: &Option<NetSample>,
    sockets: Option<&SocketSample>,
    t: &Thresholds,
) -> (r: Vec<&'static str>)
    ensures
        strs_view(r@) == alerts_value(fired(*disk, vote_lag_alert, *freeze, *net, sockets, *t)),
{
    let ring = match net {
        Some(n) => n.ring.rx_missed_errors > t.ring_drop_threshold,
        None => false,
    };
    let napi = match net {
        Some(n) => n.softnet.time_squeeze > t.napi_squeeze_threshold,
        None => false,
    };
    let udp = match net {
        Some(n) => n.snmp_udp.rcvbuf_errors > t.udp_rcvbuf_threshold,
        None => false,
    };
    let socket = match sockets {
        Some(s) => any_over(&s.sockets, t.socket_drop_threshold),
        None => false,
    };
    let mut a: Vec<&'static str> = Vec::new();
    assert(strs_view(a@) =~= Seq::empty());
    push_if(&mut a, disk.alert, "disk_latency");
    push_if(&mut a, vote_lag_alert, "vote_lag");
    push_if(&mut a, freeze.freeze, "slot_freeze");
    push_if(&mut a, ring, "ring_drop");
    push_if(&mut a, napi, "napi_squeeze");
    push_if(&mut a, udp, "udp_rcvbuf");
    push_if(&mut a, socket, "socket_drop");
    proof {
        reveal_with_fuel(picked, 8);
    }
    a
}

// ---- what holds of all windows ----

proof fn lemma_picked(names: Seq<Seq<char>>, flags: Seq<bool>, n: int, i: int)
    requires
        0 <= n <= names.len(),
        flags.len() == names.len(),
        0 <= i < names.len(),
        names.no_duplicates(),
    ensures
        picked(names, flags, n).contains(names[i]) == (i < n && flags[i]),
    decreases n,
{
    if n > 0 {
        lemma_picked(names, flags, n - 1, i);
        let before = picked(names, flags, n - 1);
        if flags[n - 1] {
            let after = before.push(names[n - 1]);
            assert(after[before.len() as int] == names[n - 1]);
            if before.contains(names[i]) {
                let k = before.index_of(names[i]);
                assert(after[k] == names[i]);
            }
            if after.contains(names[i]) && i != n - 1 {
                let k = after.index_of(names[i]);
                assert(before[k] == names[i]);
            }
        }
    }
}

proof fn lemma_alert_names_differ()
    ensures
        alert_names().no_duplicates(),
{
    reveal_strlit("disk_latency");
    reveal_strlit("vote_lag");
    reveal_strlit("slot_freeze");
    reveal_strlit("ring_drop");
    reveal_strlit("napi_squeeze");
    reveal_strlit("udp_rcvbuf");
    reveal_strlit("socket_drop");
    let names = alert_names();
    assert(names[0].len() == 12 && names[0][0] == 'd');
    assert(names[1].len() == 8);
    assert(names[2].len() == 11 && names[2][1] == 'l');
    assert(names[3].len() == 9);
    assert(names[4].len() == 12 && names[4][0] == 'n');
    assert(names[5].len() == 10);
    assert(names[6].len() == 11 && names[6][1] == 'o');
    assert forall|i: int, j: int| 0 <= i < 7 && 0 <= j < 7 && i != j implies names[i]
        != names[j] by {}
}

/// Every alert is its own check: it is listed if and only if its own condition
/// holds, whatever the others do.
pub proof fn law_alerts_are_independent(flags: Seq<bool>, i: int)
    requires
        flags.len() == 7,
        0 <= i < 7,
    ensures
        alerts_value(flags).contains(alert_names()[i]) <==> flags[i],
{
    lemma_alert_names_differ();
    lemma_picked(alert_names(), flags, 7, i);
}

/// The list of alerts is empty if and only if none fires.
pub proof fn law_no_alert_no_entry(flags: Seq<bool>)
    requires
        flags.len() == 7,
    ensures
        alerts_value(flags).len() == 0 <==> (forall|i: int| 0 <= i < 7 ==> !flags[i]),
{
    if alerts_value(flags).len() == 0 {
        assert forall|i: int| 0 <= i < 7 implies !flags[i] by {
            law_alerts_are_independent(flags, i);
        }
    }
    reveal_with_fuel(picked, 8);
}

/// The median decides nothing: two engines with the same thresholds and the same
/// row of elevated windows, whatever their histories, give the same alert for each
/// of any row of windows, and count them alike.
pub proof fn law_median_decides_no_alert(
    s: EngineState,
    t: EngineState,
    ws: Seq<WindowStats>,
    n: int,
)
    requires
        s.thresholds == t.thresholds,
        s.streak == t.streak,
        0 <= n <= ws.len(),
    ensures
        after_windows(s, ws, n).streak == after_windows(t, ws, n).streak,
        after_windows(s, ws, n).thresholds == after_windows(t, ws, n).thresholds,
        n < ws.len() ==> disk_value(after_windows(s, ws, n), ws[n]).alert == disk_value(
            after_windows(t, ws, n),
            ws[n],
        ).alert,
    decreases n,
{
    if n > 0 {
        law_median_decides_no_alert(s, t, ws, n - 1);
    }
}

/// The median that a window reports does not depend on that window.
pub proof fn law_median_leaves_the_window_out(s: EngineState, w: WindowStats, x: WindowStats)
    ensures
        disk_value(s, w).median_us == disk_value(s, x).median_us,
{
}

/// A window without requests raises no alert on the disk and changes nothing.
pub proof fn law_idle_window_changes_nothing(s: EngineState, w: WindowStats)
    requires
        w.reqs == 0,
    ensures
        !disk_value(s, w).alert,
        after_disk(s, w) == s,
{
}

/// An elevated window leaves the median as it was.
pub proof fn law_elevated_window_stays_out_of_the_median(s: EngineState, w: WindowStats)
    requires
        is_elevated(s.thresholds, w),
    ensures
        after_disk(s, w).history == s.history,
{
}

/// No more windows are remembered than are looked back on.
pub proof fn law_history_is_bounded(s: EngineState, w: WindowStats)
    requires
        s.history.len() <= HISTORY,
    ensures
        after_disk(s, w).history.len() <= HISTORY,
{
}

/// A window keeps the history in order: no longer than what it looks back on, and
/// without a latency above the threshold.
pub proof fn law_history_stays_in_order(s: EngineState, w: WindowStats)
    requires
        history_in_order(s),
    ensures
        history_in_order(after_disk(s, w)),
{
    let t = after_disk(s, w);
    let pushed = s.history.push(w.p99_ns);
    if w.reqs > 0 && !is_elevated(s.thresholds, w) {
        assert forall|i: int| 0 <= i < t.history.len() implies (#[trigger] t.history[i])
            <= s.thresholds.disk_latency_ns by {
            assert(t.history[i] == pushed[i + pushed.len() - t.history.len()]);
        }
    }
}

/// The median of a history in order is no higher than the threshold.
pub proof fn law_median_stays_below_the_threshold(s: EngineState)
    requires
        history_in_order(s),
    ensures
        median_of(s.history) matches Some(m) ==> m <= s.thresholds.disk_latency_ns / 1_000,
{
    if s.history.len() > 0 {
        law_median_is_one_of_the_values(s.history);
    }
}

/// One call on an engine, as far as it changes what is known.
pub enum EngineCall {
    Disk(WindowStats),
    Lag,
    Slot(Option<u64>, u64),
}

/// What is known after a call.
pub open spec fn after_call(s: EngineState, c: EngineCall) -> EngineState {
    match c {
        EngineCall::Disk(w) => after_disk(s, w),
        EngineCall::Lag => s,
        EngineCall::Slot(slot, now) => EngineState {
            slot: after_slot(
                s.slot,
                slot,
                s.thresholds.freeze_jump_bound,
                s.thresholds.freeze_lookback,
                now,
            ),
            ..s
        },
    }
}

/// What is known after the first `n` of a row of calls.
pub open spec fn after_calls(s: EngineState, cs: Seq<EngineCall>, n: int) -> EngineState
    decreases n,
{
    if n <= 0 {
        s
    } else {
        after_call(after_calls(s, cs, n - 1), cs[n - 1])
    }
}

/// After any calls on a new engine the thresholds are those it was made with, the
/// history holds at most as many windows as it looks back on, none of them
/// elevated, and no median that is reported is above the threshold.
pub proof fn law_engine_keeps_a_calm_history(s: EngineState, cs: Seq<EngineCall>, n: int)
    requires
        s.history.len() == 0,
        0 <= n <= cs.len(),
    ensures
        ({
            let t = after_calls(s, cs, n);
            &&& t.thresholds == s.thresholds
            &&& history_in_order(t)
            &&& forall|w: WindowStats|
                (#[trigger] disk_value(t, w)).median_us matches Some(m) ==> m
                    <= s.thresholds.disk_latency_ns / 1_000
        }),
    decreases n,
{
    if n > 0 {
        law_engine_keeps_a_calm_history(s, cs, n - 1);
        match cs[n - 1] {
            EngineCall::Disk(w) => {
                law_history_stays_in_order(after_calls(s, cs, n - 1), w);
            },
            _ => {},
        }
    }
    law_median_stays_below_the_threshold(after_calls(s, cs, n));
}

/// The median is one of the latencies that it was taken of.
pub proof fn law_median_is_one_of_the_values(s: Seq<u64>)
    requires
        s.len() > 0,
    ensures
        exists|i: int| 0 <= i < s.len() && median_of(s) == Some((#[trigger] s[i]) / 1_000),
{
    lemma_ascending_from(s, s.len() as int / 2);
    let i = s.index_of(ascending(s)[s.len() as int / 2]);
    assert(s[i] == ascending(s)[s.len() as int / 2]);
}

/// What is known after the first `n` of a row of windows.
pub open spec fn after_windows(s: EngineState, ws: Seq<WindowStats>, n: int) -> EngineState
    decreases n,
{
    if n <= 0 {
        s
    } else {
        after_disk(after_windows(s, ws, n - 1), ws[n - 1])
    }
}

/// How many elevated windows end the first `n`, those without requests passed
/// over.
pub open spec fn elevated_run(t: Thresholds, ws: Seq<WindowStats>, n: int) -> nat
    decreases n,
{
    if n <= 0 {
        0
    } else if ws[n - 1].reqs == 0 {
        elevated_run(t, ws, n - 1)
    } else if is_elevated(t, ws[n - 1]) {
        elevated_run(t, ws, n - 1) + 1
    } else {
        0
    }
}

proof fn lemma_streak(s: EngineState, ws: Seq<WindowStats>, n: int)
    requires
        s.streak == 0,
        0 <= n <= ws.len() <= u32::MAX,
    ensures
        after_windows(s, ws, n).streak == elevated_run(s.thresholds, ws, n),
        after_windows(s, ws, n).thresholds == s.thresholds,
        elevated_run(s.thresholds, ws, n) <= n,
    decreases n,
{
    if n > 0 {
        lemma_streak(s, ws, n - 1);
    }
}

/// The disk alert fires on a window if and only if the window is elevated and is
/// at least the wanted number of elevated ones in a row. Windows without requests
/// do not break the row; any other that is not elevated does.
pub proof fn law_disk_alert_wants_a_streak(s: EngineState, ws: Seq<WindowStats>)
    requires
        s.streak == 0,
        0 < ws.len() <= u32::MAX,
    ensures
        disk_value(after_windows(s, ws, ws.len() - 1), ws.last()).alert <==> (is_elevated(
            s.thresholds,
            ws.last(),
        ) && elevated_run(s.thresholds, ws, ws.len() as int) >= wanted_streak(s.thresholds)),
{
    lemma_streak(s, ws, ws.len() - 1);
}

/// A validator that does not answer is late by any threshold.
pub proof fn law_down_is_the_worst_lag(t: Thresholds, v: &Sample)
    requires
        v is Down,
    ensures
        is_lagging(t, Some(v)),
{
}

/// An outage of the RPC pauses the slot tracker: nothing is counted, nothing is
/// set back and nothing is said, and a freeze that lasts is still one.
pub proof fn law_outage_pauses_the_slot(s: SlotState, jump_bound: i64, lookback: u32, now: u64)
    ensures
        after_slot(s, None, jump_bound, lookback, now) == s,
        slot_result(s, None, jump_bound, lookback, now).freeze == (s.frozen_since is Some),
        slot_message(s, None, jump_bound) is None,
{
}

/// Readings keep what is known of the slot consistent.
pub proof fn law_slot_state_stays_consistent(
    s: SlotState,
    slot: Option<u64>,
    jump_bound: i64,
    lookback: u32,
    now: u64,
)
    requires
        is_consistent(s),
    ensures
        is_consistent(after_slot(s, slot, jump_bound, lookback, now)),
{
}

/// An outage returns the last known state: whatever a reading said of a freeze and
/// of the freezes counted, an outage after it says too, while the time of a freeze
/// runs on.
pub proof fn law_outage_returns_the_last_known_state(
    s: SlotState,
    slot: Option<u64>,
    jump_bound: i64,
    lookback: u32,
    now: u64,
    later: u64,
)
    requires
        is_consistent(s),
        now <= later,
    ensures
        ({
            let t = after_slot(s, slot, jump_bound, lookback, now);
            let last = slot_result(s, slot, jump_bound, lookback, now);
            let out = slot_result(t, None, jump_bound, lookback, later);
            &&& out.freeze == last.freeze
            &&& out.freeze_in_last_n == last.freeze_in_last_n
            &&& out.freeze_duration_ms >= last.freeze_duration_ms
        }),
{
}

/// A discontinuity sets everything back: it is no freeze, and what was counted
/// before it is forgotten.
pub proof fn law_discontinuity_resets(
    s: SlotState,
    slot: u64,
    jump_bound: i64,
    lookback: u32,
    now: u64,
)
    requires
        s.prev_slot matches Some(p) && is_discontinuity(p, slot, jump_bound),
    ensures
        slot_result(s, Some(slot), jump_bound, lookback, now) == (FreezeState {
            freeze: false,
            freeze_duration_ms: 0,
            freeze_in_last_n: 0,
        }),
        after_slot(s, Some(slot), jump_bound, lookback, now) == (SlotState {
            prev_slot: Some(slot),
            frozen_since: None,
            recent: Seq::empty(),
            announced: false,
        }),
{
}

/// A freeze is a slot that did not move: it is reported if and only if the slot
/// seen is the one seen last, and that is not ruled out by a negative bound.
pub proof fn law_freeze_is_a_still_slot(
    s: SlotState,
    slot: u64,
    jump_bound: i64,
    lookback: u32,
    now: u64,
)
    ensures
        slot_result(s, Some(slot), jump_bound, lookback, now).freeze <==> s.prev_slot == Some(slot)
            && jump_bound >= 0,
{
}

/// A freeze is announced once: the same slot seen again brings no message.
pub proof fn law_freeze_is_announced_once(
    s: SlotState,
    slot: u64,
    jump_bound: i64,
    lookback: u32,
    now: u64,
)
    requires
        slot_result(s, Some(slot), jump_bound, lookback, now).freeze,
    ensures
        slot_message(after_slot(s, Some(slot), jump_bound, lookback, now), Some(slot), jump_bound)
            is None,
{
}

/// A freeze is timed from the window in which it was first seen: as long as the
/// slot stands still its start stays.
pub proof fn law_freeze_keeps_its_start(
    s: SlotState,
    slot: u64,
    jump_bound: i64,
    lookback: u32,
    now: u64,
    later: u64,
)
    requires
        slot_result(s, Some(slot), jump_bound, lookback, now).freeze,
        now <= later,
    ensures
        ({
            let t = after_slot(s, Some(slot), jump_bound, lookback, now);
            let r = slot_result(t, Some(slot), jump_bound, lookback, later);
            &&& r.freeze
            &&& after_slot(t, Some(slot), jump_bound, lookback, later).frozen_since
                == t.frozen_since
            &&& r.freeze_duration_ms >= slot_result(
                s,
                Some(slot),
                jump_bound,
                lookback,
                now,
            ).freeze_duration_ms
        }),
{
    let t = after_slot(s, Some(slot), jump_bound, lookback, now);
    assert(t.frozen_since is Some);
}

/// Freezes are counted over no more windows than are looked back on.
pub proof fn law_freeze_count_is_bounded(
    s: SlotState,
    slot: Option<u64>,
    jump_bound: i64,
    lookback: u32,
    now: u64,
)
    requires
        s.recent.len() <= if lookback == 0 {
            1
        } else {
            lookback as int
        },
    ensures
        ({
            let n = if lookback == 0 {
                1
            } else {
                lookback as int
            };
            &&& after_slot(s, slot, jump_bound, lookback, now).recent.len() <= n
            &&& slot_result(s, slot, jump_bound, lookback, now).freeze_in_last_n <= n
        }),
{
    lemma_count_true(s.recent);
    lemma_count_true(after_slot(s, slot, jump_bound, lookback, now).recent);
}

// ---- thresholds, in numbers ----

/// The lag alert is a threshold: a validator that answers raises it if and only if it
/// is at least that many slots behind, and before the first poll nothing does.
pub proof fn law_lag_alert_is_a_threshold(t: Thresholds, s: ValidatorSample)
    ensures
        is_lagging(t, Some(&Sample::Up(s))) <==> s.vote_lag >= t.vote_lag,
        !is_lagging(t, None),
{
}

/// Where a lag raises the alert every higher one does, and the lag alone decides.
pub proof fn law_lag_alert_is_monotone(t: Thresholds, a: ValidatorSample, b: ValidatorSample)
    requires
        is_lagging(t, Some(&Sample::Up(a))),
        a.vote_lag <= b.vote_lag,
    ensures
        is_lagging(t, Some(&Sample::Up(b))),
{
}

/// The disk alert is a threshold: with one window wanted it is raised if and only if
/// there were requests and their p99 is above it.
pub proof fn law_disk_alert_is_a_threshold(s: EngineState, w: WindowStats)
    ensures
        s.thresholds.disk_streak <= 1 ==> (disk_value(s, w).alert <==> w.reqs > 0 && w.p99_ns
            > s.thresholds.disk_latency_ns),
        disk_value(s, w).alert ==> w.reqs > 0 && w.p99_ns > s.thresholds.disk_latency_ns,
        s.thresholds.disk_streak > 1 && w.reqs > 0 && w.p99_ns > s.thresholds.disk_latency_ns ==> (
        disk_value(s, w).alert <==> s.streak + 1 >= s.thresholds.disk_streak),
{
}

/// How a window counts in the row of elevated ones: one without requests leaves it, one
/// above the threshold adds to it, any other ends it.
pub proof fn law_window_counts_in_the_streak(s: EngineState, w: WindowStats)
    requires
        s.streak < u32::MAX,
    ensures
        w.reqs == 0 ==> after_disk(s, w).streak == s.streak,
        w.reqs > 0 && w.p99_ns > s.thresholds.disk_latency_ns ==> after_disk(s, w).streak
            == s.streak + 1,
        w.reqs > 0 && w.p99_ns <= s.thresholds.disk_latency_ns ==> after_disk(s, w).streak == 0,
        after_disk(s, w).thresholds == s.thresholds,
        after_disk(s, w).slot == s.slot,
{
}

/// The p99 of the windows, among the first `n`, that had requests and were not above the
/// threshold.
pub open spec fn calm_latencies(t: Thresholds, ws: Seq<WindowStats>, n: int) -> Seq<u64> {
    ws.take(n).filter(|w: WindowStats| w.reqs > 0 && w.p99_ns <= t.disk_latency_ns).map_values(
        |w: WindowStats| w.p99_ns,
    )
}

/// The history of an engine is the p99 of its last twenty windows that had requests and
/// were not above the threshold, in order.
pub proof fn law_history_is_the_last_calm_windows(s: EngineState, ws: Seq<WindowStats>, n: int)
    requires
        s.history.len() == 0,
        0 <= n <= ws.len(),
    ensures
        ({
            let all = calm_latencies(s.thresholds, ws, n);
            let kept = after_windows(s, ws, n).history;
            &&& kept.len() == if all.len() < 20 {
                all.len() as int
            } else {
                20
            }
            &&& kept == all.subrange(all.len() - kept.len(), all.len() as int)
            &&& after_windows(s, ws, n).thresholds == s.thresholds
        }),
    decreases n,
{
    reveal_with_fuel(Seq::filter, 1);
    let calm = |w: WindowStats| w.reqs > 0 && w.p99_ns <= s.thresholds.disk_latency_ns;
    if n > 0 {
        law_history_is_the_last_calm_windows(s, ws, n - 1);
        let w = ws[n - 1];
        let before = calm_latencies(s.thresholds, ws, n - 1);
        let all = calm_latencies(s.thresholds, ws, n);
        assert(ws.take(n).drop_last() =~= ws.take(n - 1));
        assert(ws.take(n).last() == w);
        if calm(w) {
            assert(ws.take(n).filter(calm) =~= ws.take(n - 1).filter(calm).push(w));
            assert(all =~= before.push(w.p99_ns));
        } else {
            assert(ws.take(n).filter(calm) =~= ws.take(n - 1).filter(calm));
            assert(all =~= before);
        }
        let kept = after_windows(s, ws, n).history;
        assert(kept =~= all.subrange(all.len() - kept.len(), all.len() as int));
    } else {
        assert(ws.take(n).filter(calm) =~= Seq::empty());
        let kept = after_windows(s, ws, n).history;
        assert(kept =~= calm_latencies(s.thresholds, ws, n).subrange(0, 0));
    }
}

/// The median divides what it is taken of: it is one of the latencies, in whole
/// microseconds, and no more than half of them are higher and no more than half lower.
pub proof fn law_median_divides_the_values(s: Seq<u64>) -> (v: u64)
    requires
        s.len() > 0,
    ensures
        s.contains(v),
        median_of(s) matches Some(m) && 1_000 * m <= v < 1_000 * m + 1_000,
        2 * s.filter(|x: u64| x > v).len() <= s.len(),
        2 * s.filter(|x: u64| x < v).len() <= s.len(),
{
    let k = s.len() as int / 2;
    let v = ascending(s)[k];
    lemma_ascending_from(s, k);
    lemma_around_rank(s, k, v);
    v
}

/// There is a median if and only if there are values.
pub proof fn law_no_values_no_median(s: Seq<u64>)
    ensures
        median_of(s) is None <==> s.len() == 0,
{
}

// ---- the slot, in numbers ----

/// A reading of the slot is remembered as the last one.
pub proof fn law_slot_is_remembered(
    s: SlotState,
    slot: u64,
    jump_bound: i64,
    lookback: u32,
    now: u64,
)
    ensures
        after_slot(s, Some(slot), jump_bound, lookback, now).prev_slot == Some(slot),
{
}

/// What a reading says depends on how far the slot moved: backwards, or further than
/// the bound, is a jump that is announced and sets everything back; not at all is a
/// freeze, announced where none lasted; anything else is neither.
pub proof fn law_slot_moves_decide(
    s: SlotState,
    p: u64,
    slot: u64,
    jump_bound: i64,
    lookback: u32,
    now: u64,
)
    requires
        s.prev_slot == Some(p),
        p <= i64::MAX,
        slot <= i64::MAX,
        jump_bound >= 0,
        is_consistent(s),
    ensures
        ({
            let r = slot_result(s, Some(slot), jump_bound, lookback, now);
            let t = after_slot(s, Some(slot), jump_bound, lookback, now);
            let m = slot_message(s, Some(slot), jump_bound);
            if slot < p || slot - p > jump_bound {
                &&& !r.freeze && r.freeze_duration_ms == 0 && r.freeze_in_last_n == 0
                &&& t.frozen_since is None && t.recent.len() == 0 && !t.announced
                &&& m matches Some(text) && has_prefix(text, "!! DISCONTINUITY"@) && occurs_in(
                    text,
                    " by "@ + signed_decimal(slot - p) + " ("@,
                )
            } else if slot == p {
                &&& r.freeze
                &&& t.frozen_since == if s.frozen_since is Some {
                    s.frozen_since
                } else {
                    Some(now)
                }
                &&& if s.frozen_since is Some {
                    m is None
                } else {
                    m matches Some(text) && has_prefix(text, "!! FREEZE"@)
                }
            } else {
                &&& !r.freeze && r.freeze_duration_ms == 0
                &&& t.frozen_since is None
                &&& m is None
            }
        }),
{
    reveal_strlit("!! DISCONTINUITY");
    reveal_strlit("!! DISCONTINUITY: slot jumped by ");
    reveal_strlit(" (restart or resync)");
    reveal_strlit(" by ");
    reveal_strlit(" (");
    reveal_strlit("!! FREEZE");
    reveal_strlit("!! FREEZE: slot stopped advancing");
    let head = "!! DISCONTINUITY: slot jumped by "@;
    let tail = " (restart or resync)"@;
    let d = signed_decimal(slot - p);
    let text = head + d + tail;
    assert(text.subrange(0, 16) =~= "!! DISCONTINUITY"@);
    let part = " by "@ + d + " ("@;
    assert(text.subrange(29, (29 + part.len()) as int) =~= part);
    assert(stands_at(text, part, 29));
    assert("!! FREEZE: slot stopped advancing"@.subrange(0, 9) =~= "!! FREEZE"@);
}

/// A freeze is timed in whole milliseconds from the reading that began it, with or
/// without further readings.
pub proof fn law_freeze_is_timed(
    s: SlotState,
    slot: u64,
    jump_bound: i64,
    lookback: u32,
    start: u64,
    now: u64,
)
    requires
        s.prev_slot == Some(slot),
        s.frozen_since is None,
        jump_bound >= 0,
        start <= now,
    ensures
        ({
            let t = after_slot(s, Some(slot), jump_bound, lookback, start);
            let still = slot_result(t, Some(slot), jump_bound, lookback, now);
            let out = slot_result(t, None, jump_bound, lookback, now);
            &&& still.freeze && out.freeze
            &&& still.freeze_duration_ms * 1_000_000 <= now - start
            &&& now - start < (still.freeze_duration_ms + 1) * 1_000_000
            &&& out.freeze_duration_ms == still.freeze_duration_ms
        }),
{
}

/// The windows that freezes are counted over: a reading that is no jump enters as the
/// last, and as many before it stay as are looked back on.
pub proof fn law_last_windows_are_kept(
    s: SlotState,
    p: u64,
    slot: u64,
    jump_bound: i64,
    lookback: u32,
    now: u64,
)
    requires
        s.prev_slot == Some(p),
        p <= slot <= i64::MAX,
        slot - p <= jump_bound,
    ensures
        ({
            let t = after_slot(s, Some(slot), jump_bound, lookback, now).recent;
            let most = if lookback == 0 {
                1
            } else {
                lookback as int
            };
            &&& t.len() == if s.recent.len() + 1 <= most {
                (s.recent.len() + 1) as int
            } else {
                most
            }
            &&& t.last() == (slot == p)
            &&& forall|i: int|
                0 <= i < t.len() - 1 ==> #[trigger] t[i] == s.recent[i + s.recent.len() + 1
                    - t.len()]
        }),
{
}

/// The freezes counted are those of the windows kept.
pub proof fn law_freezes_are_counted(
    s: SlotState,
    slot: Option<u64>,
    jump_bound: i64,
    lookback: u32,
    now: u64,
)
    requires
        is_consistent(s),
        s.recent.len() <= u32::MAX,
    ensures
        slot_result(s, slot, jump_bound, lookback, now).freeze_in_last_n == after_slot(
            s,
            slot,
            jump_bound,
            lookback,
            now,
        ).recent.filter(|b: bool| b).len(),
{
    reveal_with_fuel(Seq::filter, 1);
    let t = after_slot(s, slot, jump_bound, lookback, now).recent;
    lemma_count_is_filter(t);
    lemma_count_true(t);
}

proof fn lemma_count_is_filter(s: Seq<bool>)
    ensures
        count_true(s) == s.filter(|b: bool| b).len(),
    decreases s.len(),
{
    reveal_with_fuel(Seq::filter, 1);
    if s.len() > 0 {
        lemma_count_is_filter(s.drop_last());
    }
}

// ---- the list of alerts ----

proof fn lemma_picked_once(names: Seq<Seq<char>>, flags: Seq<bool>, n: int)
    requires
        0 <= n <= names.len(),
        flags.len() == names.len(),
        names.no_duplicates(),
    ensures
        picked(names, flags, n).no_duplicates(),
    decreases n,
{
    if n > 0 {
        lemma_picked_once(names, flags, n - 1);
        lemma_picked(names, flags, n - 1, n - 1);
        let a = picked(names, flags, n - 1);
        if flags[n - 1] {
            let b = a.push(names[n - 1]);
            assert forall|i: int, j: int| 0 <= i < b.len() && 0 <= j < b.len() && i != j implies b[i]
                != b[j] by {
                if i == a.len() {
                    assert(a.contains(a[j]));
                } else if j == a.len() {
                    assert(a.contains(a[i]));
                }
            }
        }
    }
}

/// No alert is listed twice.
pub proof fn law_alerts_are_listed_once(flags: Seq<bool>)
    requires
        flags.len() == 7,
    ensures
        alerts_value(flags).no_duplicates(),
{
    lemma_alert_names_differ();
    lemma_picked_once(alert_names(), flags, 7);
}

/// Each alert is listed on what it is told, and on nothing else: the first three on the
/// results for the disk, the lag and the slot, the next three on one counter each above
/// its own threshold, the last on any one port above its own.
pub proof fn law_alerts_follow_what_they_are_told(
    disk: DiskResult,
    lag: bool,
    freeze: FreezeState,
    net: Option<NetSample>,
    sockets: Option<&SocketSample>,
    t: Thresholds,
)
    ensures
        ({
            let a = alerts_value(fired(disk, lag, freeze, net, sockets, t));
            &&& a.contains("disk_latency"@) <==> disk.alert
            &&& a.contains("vote_lag"@) <==> lag
            &&& a.contains("slot_freeze"@) <==> freeze.freeze
            &&& a.contains("ring_drop"@) <==> (net matches Some(n) && n.ring.rx_missed_errors
                > t.ring_drop_threshold)
            &&& a.contains("napi_squeeze"@) <==> (net matches Some(n) && n.softnet.time_squeeze
                > t.napi_squeeze_threshold)
            &&& a.contains("udp_rcvbuf"@) <==> (net matches Some(n) && n.snmp_udp.rcvbuf_errors
                > t.udp_rcvbuf_threshold)
            &&& a.contains("socket_drop"@) <==> (sockets matches Some(x) && exists|i: int|
                0 <= i < x.sockets@.len() && (#[trigger] x.sockets@[i]).drops
                    > t.socket_drop_threshold)
        }),
{
    let flags = fired(disk, lag, freeze, net, sockets, t);
    let names = alert_names();
    law_alerts_are_independent(flags, 0);
    law_alerts_are_independent(flags, 1);
    law_alerts_are_independent(flags, 2);
    law_alerts_are_independent(flags, 3);
    law_alerts_are_independent(flags, 4);
    law_alerts_are_independent(flags, 5);
    law_alerts_are_independent(flags, 6);
    assert(names[0] == "disk_latency"@ && names[1] == "vote_lag"@ && names[2] == "slot_freeze"@);
    assert(names[3] == "ring_drop"@ && names[4] == "napi_squeeze"@ && names[5] == "udp_rcvbuf"@);
    assert(names[6] == "socket_drop"@);
}

/// The median reported with a window is that of the history before it, whatever the
/// window is.
pub proof fn law_median_is_that_of_the_history(s: EngineState, w: WindowStats)
    ensures
        disk_value(s, w).median_us == median_of(s.history),
{
}

}
