//! The joined timeline: one report for each window of the disk, with the last
//! that is known of the validator and of its sockets.

use vstd::prelude::*;

use crate::correlate::{
    after_disk, after_slot, alert_names, alerts_value, build_alerts, disk_value, fired, is_lagging,
    law_alerts_are_independent, law_freeze_is_a_still_slot, picked, slot_message, slot_of,
    slot_result, step_fits, streak_fits, AlertEngine, DiskResult, EngineState, FreezeState,
    SlotState, Thresholds,
};
use crate::disk::WindowStats;
use crate::net::{option_text, NetSample};
use crate::report::{emit, emitted_text, law_report_is_one_line, net_wf, one_line, Clock};
use crate::rpc::{Sample, ValidatorSample};
use crate::sockets::SocketSample;

verus! {

// ---- own CPU time ----

/// The CPU times of a process: seconds and microseconds, of its own and in the
/// kernel.
#[derive(Clone, Copy, Debug, PartialEq, Eq, Structural)]
pub struct CpuTimes {
    pub user_sec: i64,
    pub user_usec: i64,
    pub sys_sec: i64,
    pub sys_usec: i64,
}

/// A quotient by 1000 without its fraction.
pub open spec fn thousandth(n: int) -> int {
    if n >= 0 {
        n / 1000
    } else {
        -((-n) / 1000)
    }
}

/// A time in milliseconds.
pub open spec fn time_ms(sec: int, usec: int) -> int {
    sec * 1000 + thousandth(usec)
}

/// Both CPU times in milliseconds.
pub open spec fn cpu_ms(t: CpuTimes) -> int {
    time_ms(t.user_sec as int, t.user_usec as int) + time_ms(t.sys_sec as int, t.sys_usec as int)
}

/// Whether a number has 64 bits.
pub open spec fn fits(n: int) -> bool {
    i64::MIN <= n <= i64::MAX
}

/// Whether the times in milliseconds, and all that they are added up of, have 64
/// bits.
pub open spec fn cpu_ms_fits(t: CpuTimes) -> bool {
    &&& fits(t.user_sec * 1000)
    &&& fits(t.sys_sec * 1000)
    &&& fits(time_ms(t.user_sec as int, t.user_usec as int))
    &&& fits(time_ms(t.sys_sec as int, t.sys_usec as int))
    &&& fits(cpu_ms(t))
}

fn usec_to_ms(usec: i64) -> (r: i64)
    ensures
        r == thousandth(usec as int),
        -9_223_372_036_854_776 <= r <= 9_223_372_036_854_776,
{
    if usec >= 0 {
        usec / 1000
    } else if usec == i64::MIN {
        -9_223_372_036_854_775
    } else {
        -(-usec / 1000)
    }
}

/// Adds the CPU times up in milliseconds, or gives `None` where that does not
/// fit.
pub fn checked_cpu_ms(t: &CpuTimes) -> (r: Option<i64>)
    ensures
        r is Some <==> cpu_ms_fits(*t),
        r matches Some(ms) ==> ms == cpu_ms(*t),
{
    let user_usec = usec_to_ms(t.user_usec);
    let sys_usec = usec_to_ms(t.sys_usec);
    match (t.user_sec.checked_mul(1000), t.sys_sec.checked_mul(1000)) {
        (Some(u), Some(s)) => match (u.checked_add(user_usec), s.checked_add(sys_usec)) {
            (Some(user), Some(sys)) => user.checked_add(sys),
            _ => None,
        },
        _ => None,
    }
}

/// Adds the CPU times up in milliseconds.
pub fn total_cpu_ms(t: &CpuTimes) -> (r: i64)
    requires
        cpu_ms_fits(*t),
    ensures
        r == cpu_ms(*t),
{
    let user = t.user_sec * 1000 + usec_to_ms(t.user_usec);
    let sys = t.sys_sec * 1000 + usec_to_ms(t.sys_usec);
    user + sys
}

/// Measures the CPU time that goes by between windows.
#[derive(Clone, Copy, Debug, PartialEq, Eq, Structural)]
pub struct SelfCpu {
    pub last_ms: i64,
}

impl SelfCpu {
    /// Starts to measure.
    pub fn new(now_ms: i64) -> (r: SelfCpu)
        ensures
            r.last_ms == now_ms,
    {
        SelfCpu { last_ms: now_ms }
    }

    /// Tells whether the time since the last call has 64 bits.
    pub fn can_measure(&self, now_ms: i64) -> (r: bool)
        ensures
            r == fits(now_ms - self.last_ms),
    {
        now_ms.checked_sub(self.last_ms).is_some()
    }

    /// The milliseconds since the last call, or since the start; 0 where the
    /// clock went backwards.
    pub fn delta_ms(&mut self, now_ms: i64) -> (r: u64)
        requires
            fits(now_ms - old(self).last_ms),
        ensures
            final(self).last_ms == now_ms,
            r == if now_ms > old(self).last_ms {
                now_ms - old(self).last_ms
            } else {
                0
            },
    {
        let delta = now_ms - self.last_ms;
        self.last_ms = now_ms;
        if delta > 0 {
            delta as u64
        } else {
            0
        }
    }
}

// ---- the timeline ----

/// What arrives; `None` where the sender is gone.
pub enum Event {
    Validator(Option<Sample>),
    Sockets(Option<SocketSample>),
    Window(Option<WindowStats>),
}

/// What is to be done about an event.
#[derive(Debug)]
pub enum Action {
    /// Wait for the next.
    Wait,
    /// Report this window.
    Report(WindowStats),
    /// End.
    Stop,
}

/// What a window says of the disk and the validator.
#[derive(Clone, Copy, Debug, PartialEq, Eq, Structural)]
pub struct Observation {
    pub disk: DiskResult,
    pub vote_lag_alert: bool,
    pub freeze: FreezeState,
}

/// Joins the windows of the disk with the last samples of the validator and of
/// its sockets.
pub struct Timeline {
    json_mode: bool,
    dry_run: bool,
    latest: Option<Sample>,
    latest_sockets: Option<SocketSample>,
    engine: AlertEngine,
}

/// What a timeline knows.
pub struct TimelineState {
    pub json_mode: bool,
    /// End after one window.
    pub dry_run: bool,
    pub latest: Option<Sample>,
    pub sockets: Option<SocketSample>,
    pub engine: EngineState,
}

/// What is known after an event. A sample takes the place of the last one; a
/// window changes nothing by itself.
pub open spec fn after_event(s: TimelineState, ev: Event) -> TimelineState {
    match ev {
        Event::Validator(Some(x)) => TimelineState { latest: Some(x), ..s },
        Event::Sockets(Some(x)) => TimelineState { sockets: Some(x), ..s },
        _ => s,
    }
}

/// What is to be done about an event.
pub open spec fn action_for(ev: Event) -> Action {
    match ev {
        Event::Validator(Some(_)) => Action::Wait,
        Event::Sockets(Some(_)) => Action::Wait,
        Event::Window(Some(w)) => Action::Report(w),
        _ => Action::Stop,
    }
}

/// The value of an option, by reference.
pub open spec fn borrowed<'a, T>(o: Option<T>) -> Option<&'a T> {
    match o {
        Some(x) => Some(&x),
        None => None,
    }
}

/// Whether a window can be observed: the row of elevated windows and the step of
/// the slot stay within their types.
pub open spec fn window_fits(s: TimelineState, w: WindowStats) -> bool {
    &&& streak_fits(s.engine, w)
    &&& step_fits(s.engine.slot, slot_of(borrowed(s.latest)))
}

/// What is known after a window at `now`, in nanoseconds.
pub open spec fn after_window(s: TimelineState, w: WindowStats, now: u64) -> TimelineState {
    let e = after_disk(s.engine, w);
    TimelineState {
        engine: EngineState {
            slot: after_slot(
                e.slot,
                slot_of(borrowed(s.latest)),
                e.thresholds.freeze_jump_bound,
                e.thresholds.freeze_lookback,
                now,
            ),
            ..e
        },
        ..s
    }
}

/// What a window at `now` says, with the last validator sample.
pub open spec fn observation(s: TimelineState, w: WindowStats, now: u64) -> Observation {
    Observation {
        disk: disk_value(s.engine, w),
        vote_lag_alert: is_lagging(s.engine.thresholds, borrowed(s.latest)),
        freeze: slot_result(
            s.engine.slot,
            slot_of(borrowed(s.latest)),
            s.engine.thresholds.freeze_jump_bound,
            s.engine.thresholds.freeze_lookback,
            now,
        ),
    }
}

/// The alerts of a window.
pub open spec fn window_alerts(s: TimelineState, o: Observation, net: Option<NetSample>) -> Seq<
    Seq<char>,
> {
    alerts_value(
        fired(o.disk, o.vote_lag_alert, o.freeze, net, borrowed(s.sockets), s.engine.thresholds),
    )
}

impl View for Timeline {
    type V = TimelineState;

    closed spec fn view(&self) -> TimelineState {
        TimelineState {
            json_mode: self.json_mode,
            dry_run: self.dry_run,
            latest: self.latest,
            sockets: self.latest_sockets,
            engine: self.engine@,
        }
    }
}

impl Timeline {
    /// Whether the engine is in order.
    pub closed spec fn wf(&self) -> bool {
        self.engine.wf()
    }

    /// A timeline on which nothing has arrived yet.
    pub fn new(thresholds: Thresholds, json_mode: bool, dry_run: bool) -> (r: Timeline)
        ensures
            r.wf(),
            r@.json_mode == json_mode,
            r@.dry_run == dry_run,
            r@.latest is None,
            r@.sockets is None,
            r@.engine == (EngineState {
                thresholds,
                history: Seq::empty(),
                streak: 0,
                slot: SlotState {
                    prev_slot: None,
                    frozen_since: None,
                    recent: Seq::empty(),
                    announced: false,
                },
            }),
    {
        Timeline {
            json_mode,
            dry_run,
            latest: None,
            latest_sockets: None,
            engine: AlertEngine::new(thresholds),
        }
    }

    fn sample(&self) -> (r: Option<&Sample>)
        ensures
            r == borrowed(self@.latest),
    {
        match &self.latest {
            Some(s) => Some(s),
            None => None,
        }
    }

    fn sockets(&self) -> (r: Option<&SocketSample>)
        ensures
            r == borrowed(self@.sockets),
    {
        match &self.latest_sockets {
            Some(s) => Some(s),
            None => None,
        }
    }

    /// Takes in an event, and tells what is to be done about it.
    pub fn accept(&mut self, ev: Event) -> (r: Action)
        ensures
            final(self)@ == after_event(old(self)@, ev),
            final(self).wf() == old(self).wf(),
            r == action_for(ev),
    {
        match ev {
            Event::Validator(Some(s)) => {
                self.latest = Some(s);
                Action::Wait
            },
            Event::Sockets(Some(s)) => {
                self.latest_sockets = Some(s);
                Action::Wait
            },
            Event::Window(Some(w)) => Action::Report(w),
            _ => Action::Stop,
        }
    }

    /// Tells whether a window can be observed.
    pub fn can_observe(&self, w: &WindowStats) -> (r: bool)
        ensures
            r == window_fits(self@, *w),
    {
        self.engine.can_observe_disk(w) && self.engine.can_observe_slot(self.sample())
    }

    /// Observes a window: what it says of the disk and, with the last sample, of
    /// the validator, and what there is to be said aloud.
    pub fn observe(&mut self, w: &WindowStats, now_ns: u64) -> (r: (Observation, Option<String>))
        requires
            old(self).wf(),
            window_fits(old(self)@, *w),
        ensures
            final(self).wf(),
            final(self)@ == after_window(old(self)@, *w, now_ns),
            r.0 == observation(old(self)@, *w, now_ns),
            option_text(r.1) == slot_message(
                old(self)@.engine.slot,
                slot_of(borrowed(old(self)@.latest)),
                old(self)@.engine.thresholds.freeze_jump_bound,
            ),
    {
        let disk = self.engine.observe_disk(w);
        let latest = match &self.latest {
            Some(s) => Some(s),
            None => None,
        };
        let vote_lag_alert = self.engine.observe_lag(latest);
        let (freeze, message) = self.engine.observe_slot(latest, now_ns);
        (Observation { disk, vote_lag_alert, freeze }, message)
    }

    /// Writes the report of a window that was observed.
    pub fn report(
        &self,
        w: &WindowStats,
        o: &Observation,
        net: &Option<NetSample>,
        net_parse_errors: u64,
        self_cpu_ms: Option<u64>,
        clock: Clock,
    ) -> (r: String)
        requires
            net_wf(*net),
        ensures
            r@ == emitted_text(
                self@.json_mode,
                *w,
                borrowed(self@.latest),
                o.disk,
                o.freeze,
                window_alerts(self@, *o, *net),
                *net,
                net_parse_errors,
                self_cpu_ms,
                borrowed(self@.sockets),
                clock,
            ),
            one_line(r@),
    {
        proof {
            lemma_alerts_are_one_line(self@, *o, *net);
            law_report_is_one_line(
                *w,
                borrowed(self@.latest),
                window_alerts(self@, *o, *net),
                clock.elapsed_secs,
            );
        }
        let alerts = build_alerts(
            &o.disk,
            o.vote_lag_alert,
            &o.freeze,
            net,
            self.sockets(),
            &self.engine.thresholds(),
        );
        emit(
            w,
            self.sample(),
            self.json_mode,
            clock,
            &o.disk,
            &o.freeze,
            alerts.as_slice(),
            net,
            net_parse_errors,
            self_cpu_ms,
            self.sockets(),
        )
    }

    /// Tells whether the timeline ends once a window was reported.
    pub fn ends_after_window(&self) -> (r: bool)
        ensures
            r == self@.dry_run,
    {
        self.dry_run
    }
}

// ---- what holds of all windows ----

proof fn lemma_picked_from(names: Seq<Seq<char>>, flags: Seq<bool>, n: int, i: int)
    requires
        0 <= n <= names.len(),
        0 <= i < picked(names, flags, n).len(),
    ensures
        names.contains(picked(names, flags, n)[i]),
    decreases n,
{
    if n > 0 {
        if i < picked(names, flags, n - 1).len() {
            lemma_picked_from(names, flags, n - 1, i);
        } else {
            assert(names[n - 1] == picked(names, flags, n)[i]);
        }
    }
}

proof fn lemma_alerts_are_one_line(s: TimelineState, o: Observation, net: Option<NetSample>)
    ensures
        forall|i: int|
            0 <= i < window_alerts(s, o, net).len() ==> one_line(
                #[trigger] window_alerts(s, o, net)[i],
            ),
{
    reveal_strlit("disk_latency");
    reveal_strlit("vote_lag");
    reveal_strlit("slot_freeze");
    reveal_strlit("ring_drop");
    reveal_strlit("napi_squeeze");
    reveal_strlit("udp_rcvbuf");
    reveal_strlit("socket_drop");
    let names = alert_names();
    assert forall|k: int| 0 <= k < 7 implies one_line(#[trigger] names[k]) by {}
    let flags = fired(
        o.disk,
        o.vote_lag_alert,
        o.freeze,
        net,
        borrowed(s.sockets),
        s.engine.thresholds,
    );
    assert forall|i: int| 0 <= i < window_alerts(s, o, net).len() implies one_line(
        #[trigger] window_alerts(s, o, net)[i],
    ) by {
        lemma_picked_from(names, flags, 7, i);
    }
}

/// Each alert of a window fires on its own signal and its own threshold, and on
/// nothing else: `disk_latency` on a row of elevated windows, `vote_lag` on the
/// lag of the last sample, `slot_freeze` on a slot that stands still, or stood still
/// when it was last seen, `ring_drop`,
/// `napi_squeeze` and `udp_rcvbuf` on one counter each, `socket_drop` on the drops
/// of any one port.
pub proof fn law_each_alert_has_its_own_condition(
    s: TimelineState,
    w: WindowStats,
    now: u64,
    net: Option<NetSample>,
)
    ensures
        ({
            let t = s.engine.thresholds;
            let alerts = window_alerts(s, observation(s, w, now), net);
            &&& alerts.contains("disk_latency"@) <==> w.reqs > 0 && w.p99_ns > t.disk_latency_ns
                && s.engine.streak + 1 >= t.disk_streak
            &&& alerts.contains("vote_lag"@) <==> (match s.latest {
                Some(Sample::Up(v)) => v.vote_lag >= t.vote_lag,
                Some(Sample::Down { .. }) => true,
                None => false,
            })
            &&& alerts.contains("slot_freeze"@) <==> (match s.latest {
                Some(Sample::Up(v)) => s.engine.slot.prev_slot == Some(v.network_slot)
                    && t.freeze_jump_bound >= 0,
                _ => s.engine.slot.frozen_since is Some,
            })
            &&& alerts.contains("ring_drop"@) <==> (net matches Some(n) && n.ring.rx_missed_errors
                > t.ring_drop_threshold)
            &&& alerts.contains("napi_squeeze"@) <==> (net matches Some(n) && n.softnet.time_squeeze
                > t.napi_squeeze_threshold)
            &&& alerts.contains("udp_rcvbuf"@) <==> (net matches Some(n)
                && n.snmp_udp.rcvbuf_errors > t.udp_rcvbuf_threshold)
            &&& alerts.contains("socket_drop"@) <==> (s.sockets matches Some(x) && exists|i: int|
                0 <= i < x.sockets@.len() && (#[trigger] x.sockets@[i]).drops
                    > t.socket_drop_threshold)
        }),
{
    let o = observation(s, w, now);
    let flags = fired(
        o.disk,
        o.vote_lag_alert,
        o.freeze,
        net,
        borrowed(s.sockets),
        s.engine.thresholds,
    );
    let names = alert_names();
    law_alerts_are_independent(flags, 0);
    law_alerts_are_independent(flags, 1);
    law_alerts_are_independent(flags, 2);
    law_alerts_are_independent(flags, 3);
    law_alerts_are_independent(flags, 4);
    law_alerts_are_independent(flags, 5);
    law_alerts_are_independent(flags, 6);
    match slot_of(borrowed(s.latest)) {
        Some(slot) => {
            law_freeze_is_a_still_slot(
                s.engine.slot,
                slot,
                s.engine.thresholds.freeze_jump_bound,
                s.engine.thresholds.freeze_lookback,
                now,
            );
        },
        None => {},
    }
}

/// Disk and validator do not mix: another validator sample changes nothing that
/// is said of the disk, and another window of the disk nothing that is said of the
/// validator.
pub proof fn law_disk_and_validator_do_not_mix(
    s: TimelineState,
    sample: Option<Sample>,
    w: WindowStats,
    x: WindowStats,
    now: u64,
)
    ensures
        observation((TimelineState { latest: sample, ..s }), w, now).disk == observation(
            s,
            w,
            now,
        ).disk,
        observation(s, x, now).vote_lag_alert == observation(s, w, now).vote_lag_alert,
        observation(s, x, now).freeze == observation(s, w, now).freeze,
{
}

/// Only windows are reported, and only a sender that is gone ends the timeline.
pub proof fn law_every_window_is_reported(ev: Event)
    ensures
        action_for(ev) is Report <==> (ev matches Event::Window(w) && w is Some),
        action_for(ev) is Stop <==> (match ev {
            Event::Validator(x) => x is None,
            Event::Sockets(x) => x is None,
            Event::Window(x) => x is None,
        }),
{
}

/// What arrives is what is reported on: after a sample of the validator the lag alert and
/// the slot are those of that sample, and after one of the sockets their alert is that of
/// that sample; neither touches the other, nor what is known of the disk.
pub proof fn law_latest_sample_counts(
    s: TimelineState,
    v: ValidatorSample,
    x: SocketSample,
    w: WindowStats,
    now: u64,
    net: Option<NetSample>,
)
    ensures
        ({
            let a = after_event(s, Event::Validator(Some(Sample::Up(v))));
            &&& a.engine == s.engine && a.sockets == s.sockets && a.json_mode == s.json_mode
                && a.dry_run == s.dry_run
            &&& observation(a, w, now).vote_lag_alert == (v.vote_lag
                >= s.engine.thresholds.vote_lag)
            &&& after_window(a, w, now).engine.slot.prev_slot == Some(v.network_slot)
        }),
        ({
            let b = after_event(s, Event::Sockets(Some(x)));
            &&& b.engine == s.engine && b.latest == s.latest && b.json_mode == s.json_mode
                && b.dry_run == s.dry_run
            &&& window_alerts(b, observation(b, w, now), net).contains("socket_drop"@) <==> exists|
                i: int,
            |
                0 <= i < x.sockets@.len() && (#[trigger] x.sockets@[i]).drops
                    > s.engine.thresholds.socket_drop_threshold
        }),
        after_event(s, Event::Window(Some(w))) == s,
        action_for(Event::Window(Some(w))) == Action::Report(w),
{
    law_each_alert_has_its_own_condition(after_event(s, Event::Sockets(Some(x))), w, now, net);
}

/// A window leaves the samples and the settings as they are, and changes the engine by
/// what it says of the disk and of the slot.
pub proof fn law_window_keeps_the_samples(s: TimelineState, w: WindowStats, now: u64)
    requires
        s.engine.streak < u32::MAX,
    ensures
        ({
            let t = after_window(s, w, now);
            &&& t.latest == s.latest && t.sockets == s.sockets
            &&& t.json_mode == s.json_mode && t.dry_run == s.dry_run
            &&& t.engine.thresholds == s.engine.thresholds
            &&& t.engine.streak == if w.reqs == 0 {
                s.engine.streak as int
            } else if w.p99_ns > s.engine.thresholds.disk_latency_ns {
                s.engine.streak + 1
            } else {
                0
            }
        }),
{
}

/// The CPU time is that of the process and of the kernel for it together, in whole
/// milliseconds of each.
pub proof fn law_cpu_time_adds_both_up(t: CpuTimes)
    requires
        t.user_sec >= 0 && t.user_usec >= 0 && t.sys_sec >= 0 && t.sys_usec >= 0,
    ensures
        1000 * cpu_ms(t) <= 1_000_000 * (t.user_sec + t.sys_sec) + t.user_usec + t.sys_usec,
        1_000_000 * (t.user_sec + t.sys_sec) + t.user_usec + t.sys_usec < 1000 * cpu_ms(t) + 2000,
{
}

}
