//! What the command line decides: the device to be traced, the thresholds, and
//! what is said before the timeline starts.

use vstd::prelude::*;

use crate::disk::dev_text;
use crate::net::strings_view;
use crate::number::{
    decimal, law_decimal_reads_back, lemma_decimal_chars, push_decimal,
};
use crate::rpc::Sample;
use crate::sockets::SocketSample;
use crate::text::{
    chars_of, cut_first, has_prefix, int_error_text, labelled, law_first_cut_is_at_the_first,
    lemma_occurs, lemma_position_at, lemma_regroup, lemma_trim_keeps, parse_uint, split_first, trim,
    trimmed, uint_value, IntError,
};

verus! {

// ---- the device ----

/// Why a text names no device.
#[derive(Clone, Copy, Debug, PartialEq, Eq, Structural)]
pub enum DevError {
    /// There is no colon.
    NoColon,
    /// A part is no number of 32 bits.
    Number(IntError),
}

/// The words in which a device error is reported.
pub open spec fn dev_error_text(e: DevError) -> Seq<char> {
    match e {
        DevError::NoColon => "--dev wants major:minor, e.g. 259:0"@,
        DevError::Number(i) => int_error_text(i),
    }
}

impl DevError {
    /// The words in which this error is reported.
    pub fn message(self) -> (r: &'static str)
        ensures
            r@ == dev_error_text(self),
    {
        match self {
            DevError::NoColon => "--dev wants major:minor, e.g. 259:0",
            DevError::Number(i) => i.message(),
        }
    }
}

/// The number that the kernel uses for a device.
pub open spec fn dev_number(major: u32, minor: u32) -> u32 {
    (major << 20u32) | minor
}

/// The device that a text names as `major:minor`.
pub open spec fn dev_value(s: Seq<char>) -> Result<u32, DevError> {
    match cut_first(s, ':') {
        None => Err(DevError::NoColon),
        Some((major, minor)) => match uint_value(trimmed(major), 10, u32::MAX as int) {
            Err(e) => Err(DevError::Number(e)),
            Ok(a) => match uint_value(trimmed(minor), 10, u32::MAX as int) {
                Err(e) => Err(DevError::Number(e)),
                Ok(b) => Ok(dev_number(a as u32, b as u32)),
            },
        },
    }
}

/// Turns `259:0` into the number that the kernel uses for that device.
pub fn parse_dev(s: &str) -> (r: Result<u32, DevError>)
    ensures
        r == dev_value(s@),
{
    let chars = chars_of(s);
    let (major, minor) = match split_first(chars.as_slice(), ':') {
        Some(p) => p,
        None => {
            return Err(DevError::NoColon);
        },
    };
    let a = match parse_uint(trim(major), 10, 4294967295) {
        Ok(v) => v as u32,
        Err(e) => {
            return Err(DevError::Number(e));
        },
    };
    let b = match parse_uint(trim(minor), 10, 4294967295) {
        Ok(v) => v as u32,
        Err(e) => {
            return Err(DevError::Number(e));
        },
    };
    Ok((a << 20u32) | b)
}

/// The device to be traced; 0 stands for all of them.
pub fn target_dev(dev: &Option<String>) -> (r: Result<u32, DevError>)
    ensures
        r == (match dev {
            Some(s) => dev_value(s@),
            None => Ok(0u32),
        }),
{
    match dev {
        Some(s) => parse_dev(s.as_str()),
        None => Ok(0),
    }
}

/// A device reads back from the name it is shown by.
pub proof fn law_device_reads_back(dev: u32)
    ensures
        dev_value(dev_text(dev)) == Ok::<u32, DevError>(dev),
{
    let a = dev as nat / 0x10_0000;
    let b = dev as nat % 0x10_0000;
    let s = dev_text(dev);
    let x = decimal(a);
    let y = decimal(b);
    reveal_strlit(":");
    lemma_decimal_chars(a);
    lemma_decimal_chars(b);
    let n = x.len() as int;
    assert(s[n] == ':');
    assert forall|k: int| 0 <= k < n implies s[k] != ':' by {
        assert(s[k] == x[k]);
    }
    lemma_position_at(s, ':', 0, n);
    assert(s.subrange(0, n) =~= x);
    assert(s.subrange(n + 1, s.len() as int) =~= y);
    lemma_trim_keeps(x);
    lemma_trim_keeps(y);
    law_decimal_reads_back(a, u32::MAX as int);
    law_decimal_reads_back(b, u32::MAX as int);
    assert(((dev / 0x10_0000u32) << 20u32) | (dev % 0x10_0000u32) == dev) by (bit_vector);
}

/// The threshold on the disk latency, given in microseconds, in nanoseconds;
/// `None` where it does not fit.
pub fn disk_latency_ns(us: u64) -> (r: Option<u64>)
    ensures
        r is Some <==> us * 1_000 <= u64::MAX,
        r matches Some(ns) ==> ns == us * 1_000,
{
    us.checked_mul(1_000)
}

// ---- the layers ----

/// The lines that tell which layers are active.
pub open spec fn layer_lines(
    iface: Seq<char>,
    dry_run: bool,
    self_metrics: bool,
    startup: SocketSample,
) -> Seq<Seq<char>> {
    let sockets = match startup.pid {
        Some(pid) => "  net layer 4 (per-socket agave attribution, pid "@ + decimal(pid as nat)
            + "): active, "@ + decimal(startup.sockets@.len()) + " sockets found"@,
        None =>
            "  net layer 4 (per-socket agave attribution): active but agave process not found yet, sockets will be empty"@,
    };
    let a = seq![
        "driftwatch: layers active:"@,
        "  disk (eBPF block tracepoints): active"@,
        "  rpc (vote lag / slot freeze): active"@,
        "  net layer 1-3 (ring/softnet/snmp, iface "@ + iface + "): active"@,
        sockets,
    ];
    let b = if startup.pid is Some && startup.sockets@.len() == 0 {
        a.push(
            "  !! layer 4 found the agave process but zero sockets attributed to it, check --pid / port roles"@,
        )
    } else {
        a
    };
    let c = b.push(
        if self_metrics {
            "  self_metrics (own CPU time): active"@
        } else {
            "  self_metrics (own CPU time): skipped, --self-metrics not passed"@
        },
    );
    if dry_run {
        c.push("  dry_run: exiting after one window"@)
    } else {
        c
    }
}

fn push_line(out: &mut Vec<String>, line: String)
    ensures
        strings_view(final(out)@) == strings_view(old(out)@).push(line@),
{
    out.push(line);
    assert(strings_view(out@) =~= strings_view(old(out)@).push(line@));
}

/// Tells which layers are active and which are skipped, and why.
pub fn log_active_layers(
    iface: &str,
    dry_run: bool,
    self_metrics: bool,
    startup: &SocketSample,
) -> (r: Vec<String>)
    ensures
        strings_view(r@) == layer_lines(iface@, dry_run, self_metrics, *startup),
{
    let mut out: Vec<String> = Vec::new();
    assert(strings_view(out@) =~= Seq::empty());
    push_line(&mut out, "driftwatch: layers active:".to_string());
    push_line(&mut out, "  disk (eBPF block tracepoints): active".to_string());
    push_line(&mut out, "  rpc (vote lag / slot freeze): active".to_string());
    let mut net = "  net layer 1-3 (ring/softnet/snmp, iface ".to_string();
    net.append(iface);
    net.append("): active");
    push_line(&mut out, net);
    match startup.pid {
        Some(pid) => {
            let mut line = "  net layer 4 (per-socket agave attribution, pid ".to_string();
            push_decimal(&mut line, pid as u128);
            line.append("): active, ");
            push_decimal(&mut line, startup.sockets.len() as u128);
            line.append(" sockets found");
            push_line(&mut out, line);
        },
        None => {
            push_line(
                &mut out,
                "  net layer 4 (per-socket agave attribution): active but agave process not found yet, sockets will be empty".to_string(),
            );
        },
    }
    if startup.pid.is_some() && startup.sockets.len() == 0 {
        push_line(
            &mut out,
            "  !! layer 4 found the agave process but zero sockets attributed to it, check --pid / port roles".to_string(),
        );
    }
    if self_metrics {
        push_line(&mut out, "  self_metrics (own CPU time): active".to_string());
    } else {
        push_line(
            &mut out,
            "  self_metrics (own CPU time): skipped, --self-metrics not passed".to_string(),
        );
    }
    if dry_run {
        push_line(&mut out, "  dry_run: exiting after one window".to_string());
    }
    assert(strings_view(out@) =~= layer_lines(iface@, dry_run, self_metrics, *startup));
    out
}

// ---- the check ----

/// What came of reading one file.
pub struct PathCheck {
    pub path: String,
    /// Why it could not be read.
    pub error: Option<String>,
}

/// What a check of the setup found.
pub struct CheckFacts {
    pub pid: Option<u32>,
    /// Whether a ledger was given.
    pub ledger: bool,
    /// How many ports have a role. Looked at only where the process and the
    /// ledger are known.
    pub roles: Result<usize, String>,
    /// What came of loading the kernel program.
    pub profiler: Result<(), String>,
    pub paths: Vec<PathCheck>,
    pub rpc_url: String,
    pub rpc: Sample,
}

/// One line of a check, and whether what it tells of is in order.
pub struct CheckLine {
    pub text: String,
    pub ok: bool,
}

/// One line of a check.
pub struct LineView {
    pub text: Seq<char>,
    pub ok: bool,
}

/// The lines of a check.
pub open spec fn lines_view(ls: Seq<CheckLine>) -> Seq<LineView> {
    ls.map_values(|l: CheckLine| LineView { text: l.text@, ok: l.ok })
}

/// What is said of the process. That there is none is no failure.
pub open spec fn process_line(pid: Option<u32>) -> LineView {
    match pid {
        Some(p) => LineView {
            text: "[ok]   agave process found: pid "@ + decimal(p as nat),
            ok: true,
        },
        None => LineView {
            text:
                "[warn] agave process not found (--pid to override), layer 4 will report empty until it starts"@,
            ok: true,
        },
    }
}

/// What is said of the roles. That they cannot be asked for is no failure.
pub open spec fn roles_line(pid: Option<u32>, ledger: bool, roles: Result<usize, String>) -> LineView {
    if pid is None {
        LineView {
            text: "[warn] agave process not found, skipping socket role discovery"@,
            ok: true,
        }
    } else if !ledger {
        LineView {
            text: "[warn] --ledger not given, socket roles will show as \"unknown\""@,
            ok: true,
        }
    } else {
        match roles {
            Ok(n) => LineView {
                text: "[ok]   socket role discovery (contact-info): "@ + decimal(n as nat)
                    + " ports mapped"@,
                ok: true,
            },
            Err(e) => LineView {
                text: "[FAIL] socket role discovery (contact-info): "@ + e@,
                ok: false,
            },
        }
    }
}

/// What is said of the kernel program.
pub open spec fn profiler_line(profiler: Result<(), String>) -> LineView {
    match profiler {
        Ok(_) => LineView {
            text: "[ok]   eBPF load + attach (block_rq_issue, block_rq_complete)"@,
            ok: true,
        },
        Err(e) => LineView { text: "[FAIL] eBPF load + attach: "@ + e@, ok: false },
    }
}

/// What is said of a file.
pub open spec fn path_line(p: PathCheck) -> LineView {
    match p.error {
        None => LineView { text: "[ok]   net path readable: "@ + p.path@, ok: true },
        Some(e) => LineView {
            text: "[FAIL] net path readable: "@ + p.path@ + ": "@ + e@,
            ok: false,
        },
    }
}

/// What is said of the RPC endpoint.
pub open spec fn rpc_line(url: Seq<char>, rpc: Sample) -> LineView {
    match rpc {
        Sample::Up(_) => LineView { text: "[ok]   rpc reachable: "@ + url, ok: true },
        Sample::Down { reason } => LineView {
            text: "[FAIL] rpc reachable: "@ + url + ": "@ + reason@,
            ok: false,
        },
    }
}

/// All lines of a check: the process, the roles, the kernel program, the files
/// and the RPC endpoint.
pub open spec fn check_lines(f: CheckFacts) -> Seq<LineView> {
    seq![process_line(f.pid), roles_line(f.pid, f.ledger, f.roles), profiler_line(f.profiler)]
        + f.paths@.map_values(|p: PathCheck| path_line(p)) + seq![rpc_line(f.rpc_url@, f.rpc)]
}

/// Whether all lines are in order.
pub open spec fn all_ok(ls: Seq<LineView>) -> bool {
    forall|i: int| 0 <= i < ls.len() ==> (#[trigger] ls[i]).ok
}

/// The outcome of a check.
pub struct CheckReport {
    pub lines: Vec<CheckLine>,
    pub passed: bool,
}

fn good(text: String) -> (r: CheckLine)
    ensures
        r.text == text,
        r.ok,
{
    CheckLine { text, ok: true }
}

fn process_check(pid: Option<u32>) -> (r: CheckLine)
    ensures
        (LineView { text: r.text@, ok: r.ok }) == process_line(pid),
{
    match pid {
        Some(p) => {
            let mut text = "[ok]   agave process found: pid ".to_string();
            push_decimal(&mut text, p as u128);
            good(text)
        },
        None => good(
            "[warn] agave process not found (--pid to override), layer 4 will report empty until it starts".to_string(),
        ),
    }
}

fn roles_check(pid: Option<u32>, ledger: bool, roles: &Result<usize, String>) -> (r: CheckLine)
    ensures
        (LineView { text: r.text@, ok: r.ok }) == roles_line(pid, ledger, *roles),
{
    if pid.is_none() {
        return good("[warn] agave process not found, skipping socket role discovery".to_string());
    }
    if !ledger {
        return good(
            "[warn] --ledger not given, socket roles will show as \"unknown\"".to_string(),
        );
    }
    match roles {
        Ok(n) => {
            let mut text = "[ok]   socket role discovery (contact-info): ".to_string();
            push_decimal(&mut text, *n as u128);
            text.append(" ports mapped");
            good(text)
        },
        Err(e) => {
            let mut text = "[FAIL] socket role discovery (contact-info): ".to_string();
            text.append(e.as_str());
            CheckLine { text, ok: false }
        },
    }
}

fn profiler_check(profiler: &Result<(), String>) -> (r: CheckLine)
    ensures
        (LineView { text: r.text@, ok: r.ok }) == profiler_line(*profiler),
{
    match profiler {
        Ok(_) => good(
            "[ok]   eBPF load + attach (block_rq_issue, block_rq_complete)".to_string(),
        ),
        Err(e) => {
            let mut text = "[FAIL] eBPF load + attach: ".to_string();
            text.append(e.as_str());
            CheckLine { text, ok: false }
        },
    }
}

fn path_check(p: &PathCheck) -> (r: CheckLine)
    ensures
        (LineView { text: r.text@, ok: r.ok }) == path_line(*p),
{
    match &p.error {
        None => {
            let mut text = "[ok]   net path readable: ".to_string();
            text.append(p.path.as_str());
            good(text)
        },
        Some(e) => {
            let mut text = "[FAIL] net path readable: ".to_string();
            text.append(p.path.as_str());
            text.append(": ");
            text.append(e.as_str());
            CheckLine { text, ok: false }
        },
    }
}

fn rpc_check(url: &str, rpc: &Sample) -> (r: CheckLine)
    ensures
        (LineView { text: r.text@, ok: r.ok }) == rpc_line(url@, *rpc),
{
    match rpc {
        Sample::Up(_) => {
            let mut text = "[ok]   rpc reachable: ".to_string();
            text.append(url);
            good(text)
        },
        Sample::Down { reason } => {
            let mut text = "[FAIL] rpc reachable: ".to_string();
            text.append(url);
            text.append(": ");
            text.append(reason.as_str());
            CheckLine { text, ok: false }
        },
    }
}

fn add_line(out: &mut CheckReport, line: CheckLine)
    ensures
        lines_view(final(out).lines@) == lines_view(old(out).lines@).push(
            (LineView { text: line.text@, ok: line.ok }),
        ),
        old(out).passed == all_ok(lines_view(old(out).lines@)) ==> final(out).passed == all_ok(
            lines_view(final(out).lines@),
        ),
{
    let ghost was = lines_view(out.lines@);
    let ok = line.ok;
    out.passed = out.passed && ok;
    out.lines.push(line);
    proof {
        let now = lines_view(out.lines@);
        assert(now =~= was.push((LineView { text: line.text@, ok: line.ok })));
        assert(now[was.len() as int].ok == ok);
        assert forall|i: int| 0 <= i < was.len() implies now[i] == #[trigger] was[i] by {}
        if all_ok(was) && ok {
            assert(all_ok(now));
        }
        if all_ok(now) {
            assert forall|i: int| 0 <= i < was.len() implies (#[trigger] was[i]).ok by {
                assert(now[i].ok);
            }
        }
    }
}

/// Checks a setup: tells line by line what is in order, and whether all is.
pub fn run_check(f: &CheckFacts) -> (r: CheckReport)
    ensures
        lines_view(r.lines@) == check_lines(*f),
        r.passed == all_ok(check_lines(*f)),
{
    let mut out = CheckReport { lines: Vec::new(), passed: true };
    assert(lines_view(out.lines@) =~= Seq::empty());
    add_line(&mut out, process_check(f.pid));
    add_line(&mut out, roles_check(f.pid, f.ledger, &f.roles));
    add_line(&mut out, profiler_check(&f.profiler));
    let ghost head = seq![
        process_line(f.pid),
        roles_line(f.pid, f.ledger, f.roles),
        profiler_line(f.profiler),
    ];
    let ghost paths = f.paths@.map_values(|p: PathCheck| path_line(p));
    assert(lines_view(out.lines@) =~= head + paths.take(0));
    let mut i: usize = 0;
    while i < f.paths.len()
        invariant
            i <= f.paths@.len(),
            paths == f.paths@.map_values(|p: PathCheck| path_line(p)),
            lines_view(out.lines@) == head + paths.take(i as int),
            out.passed == all_ok(lines_view(out.lines@)),
        decreases f.paths@.len() - i,
    {
        add_line(&mut out, path_check(&f.paths[i]));
        i = i + 1;
        assert(lines_view(out.lines@) =~= head + paths.take(i as int));
    }
    add_line(&mut out, rpc_check(f.rpc_url.as_str(), &f.rpc));
    assert(lines_view(out.lines@) =~= check_lines(*f));
    out
}

/// The last words on a check.
pub fn verdict(passed: bool) -> (r: Result<&'static str, &'static str>)
    ensures
        passed ==> (r matches Ok(t) && t@ == "check passed"@),
        !passed ==> (r matches Err(t) && t@ == "check failed, see [FAIL] lines above"@),
{
    if passed {
        Ok("check passed")
    } else {
        Err("check failed, see [FAIL] lines above")
    }
}

/// A line that is marked `[FAIL]` is one that is not in order, and the reverse:
/// so a check that fails has such a line above its verdict, and one that passes has
/// none.
pub proof fn law_failures_are_marked(f: CheckFacts, i: int)
    requires
        0 <= i < check_lines(f).len(),
    ensures
        has_prefix(check_lines(f)[i].text, "[FAIL]"@) <==> !check_lines(f)[i].ok,
{
    reveal_strlit("[FAIL]");
    reveal_strlit("[ok]   agave process found: pid ");
    reveal_strlit(
        "[warn] agave process not found (--pid to override), layer 4 will report empty until it starts",
    );
    reveal_strlit("[warn] agave process not found, skipping socket role discovery");
    reveal_strlit("[warn] --ledger not given, socket roles will show as \"unknown\"");
    reveal_strlit("[ok]   socket role discovery (contact-info): ");
    reveal_strlit("[FAIL] socket role discovery (contact-info): ");
    reveal_strlit("[ok]   eBPF load + attach (block_rq_issue, block_rq_complete)");
    reveal_strlit("[FAIL] eBPF load + attach: ");
    reveal_strlit("[ok]   net path readable: ");
    reveal_strlit("[FAIL] net path readable: ");
    reveal_strlit("[ok]   rpc reachable: ");
    reveal_strlit("[FAIL] rpc reachable: ");
    let l = check_lines(f)[i];
    let head = l.text.subrange(0, 6);
    assert(l.text.len() >= 6);
    assert(head[1] == l.text[1]);
    if l.ok {
        assert(l.text[1] != 'F');
    } else {
        assert(head =~= "[FAIL]"@);
    }
}

// ---- what holds of all settings ----

/// A device is its major number, 20 bits up, and its minor number: written with a colon
/// between them they name it.
pub proof fn law_device_has_its_two_numbers(major: u32, minor: u32)
    requires
        major < 4096,
        minor < 0x10_0000,
    ensures
        dev_value(decimal(major as nat) + ":"@ + decimal(minor as nat)) == Ok::<u32, DevError>(
            (major * 0x10_0000 + minor) as u32,
        ),
        dev_text((major * 0x10_0000 + minor) as u32) == decimal(major as nat) + ":"@ + decimal(
            minor as nat,
        ),
{
    let dev = (major * 0x10_0000 + minor) as u32;
    assert(dev as nat / 0x10_0000 == major && dev as nat % 0x10_0000 == minor);
    law_device_reads_back(dev);
}

/// A text without a colon names no device, and says how one is named.
pub proof fn law_device_wants_a_colon(s: Seq<char>)
    ensures
        dev_value(s) == Err::<u32, DevError>(DevError::NoColon) <==> !s.contains(':'),
{
    law_first_cut_is_at_the_first(s, ':');
}

/// A check passes if and only if the kernel program loads, every file can be read and the
/// validator answers, and the roles can be asked for where the process and the ledger are
/// known; a missing process or ledger fails nothing.
pub proof fn law_check_passes_if_nothing_fails(f: CheckFacts)
    ensures
        all_ok(check_lines(f)) <==> {
            &&& f.profiler is Ok
            &&& f.rpc is Up
            &&& f.pid is Some && f.ledger ==> f.roles is Ok
            &&& forall|i: int| 0 <= i < f.paths@.len() ==> (#[trigger] f.paths@[i]).error is None
        },
        check_lines(f).len() == f.paths@.len() + 4,
{
    let ls = check_lines(f);
    let n = f.paths@.len() as int;
    assert(ls[0] == process_line(f.pid));
    assert(ls[1] == roles_line(f.pid, f.ledger, f.roles));
    assert(ls[2] == profiler_line(f.profiler));
    assert(ls[n + 3] == rpc_line(f.rpc_url@, f.rpc));
    assert forall|i: int| 0 <= i < n implies ls[i + 3] == path_line(#[trigger] f.paths@[i]) by {}
    if all_ok(ls) {
        assert forall|i: int| 0 <= i < n implies (#[trigger] f.paths@[i]).error is None by {
            assert(ls[i + 3].ok);
        }
        assert(ls[1].ok && ls[2].ok && ls[n + 3].ok);
    }
    if f.profiler is Ok && f.rpc is Up && (f.pid is Some && f.ledger ==> f.roles is Ok) && (forall|
        i: int,
    |
        0 <= i < f.paths@.len() ==> (#[trigger] f.paths@[i]).error is None) {
        assert forall|k: int| 0 <= k < ls.len() implies (#[trigger] ls[k]).ok by {
            if 3 <= k < n + 3 {
                assert(f.paths@[k - 3].error is None);
            }
        }
    }
}

/// The lines of a check show what they are about: the process and the number of roles, the
/// file and its error, the endpoint and the reason.
pub proof fn law_check_lines_show_what_was_found(f: CheckFacts, i: int)
    requires
        0 <= i < f.paths@.len(),
    ensures
        ({
            let ls = check_lines(f);
            let none = Seq::<char>::empty();
            let rpc = ls[f.paths@.len() as int + 3].text;
            &&& f.pid matches Some(p) ==> labelled(ls[0].text, "pid "@, decimal(p as nat), none)
            &&& labelled(ls[i + 3].text, "net path readable: "@, f.paths@[i].path@, none)
            &&& f.paths@[i].error matches Some(e) ==> labelled(
                ls[i + 3].text,
                f.paths@[i].path@ + ": "@,
                e@,
                none,
            )
            &&& labelled(rpc, "rpc reachable: "@, f.rpc_url@, none)
            &&& f.rpc matches Sample::Down { reason } ==> labelled(
                rpc,
                f.rpc_url@ + ": "@,
                reason@,
                none,
            )
            &&& f.profiler matches Err(e) ==> labelled(ls[2].text, "attach: "@, e@, none)
        }),
{
    reveal_strlit("[ok]   agave process found: pid ");
    reveal_strlit("pid ");
    reveal_strlit("[ok]   net path readable: ");
    reveal_strlit("[FAIL] net path readable: ");
    reveal_strlit("net path readable: ");
    reveal_strlit("[ok]   rpc reachable: ");
    reveal_strlit("[FAIL] rpc reachable: ");
    reveal_strlit("rpc reachable: ");
    reveal_strlit("[FAIL] eBPF load + attach: ");
    reveal_strlit("attach: ");
    let ls = check_lines(f);
    let n = f.paths@.len() as int;
    assert(ls[0] == process_line(f.pid));
    assert(ls[2] == profiler_line(f.profiler));
    assert(ls[i + 3] == path_line(f.paths@[i]));
    assert(ls[n + 3] == rpc_line(f.rpc_url@, f.rpc));
    match f.pid {
        Some(p) => {
            lemma_tail(
                "[ok]   agave process found: pid "@,
                28,
                "pid "@,
                decimal(p as nat),
                Seq::empty(),
            );
        },
        None => {},
    }
    let path = f.paths@[i].path@;
    match f.paths@[i].error {
        None => {
            lemma_tail("[ok]   net path readable: "@, 7, "net path readable: "@, path, Seq::empty());
        },
        Some(e) => {
            lemma_tail("[FAIL] net path readable: "@, 7, "net path readable: "@, path, ": "@ + e@);
            lemma_regroup("[FAIL] net path readable: "@ + path, ": "@, e@);
            lemma_end(ls[i + 3].text, "[FAIL] net path readable: "@, path + ": "@, e@);
        },
    }
    match f.rpc {
        Sample::Up(_) => {
            lemma_tail("[ok]   rpc reachable: "@, 7, "rpc reachable: "@, f.rpc_url@, Seq::empty());
        },
        Sample::Down { reason } => {
            lemma_tail(
                "[FAIL] rpc reachable: "@,
                7,
                "rpc reachable: "@,
                f.rpc_url@,
                ": "@ + reason@,
            );
            lemma_regroup("[FAIL] rpc reachable: "@ + f.rpc_url@, ": "@, reason@);
            lemma_end(ls[n + 3].text, "[FAIL] rpc reachable: "@, f.rpc_url@ + ": "@, reason@);
        },
    }
    match f.profiler {
        Err(e) => {
            lemma_tail("[FAIL] eBPF load + attach: "@, 19, "attach: "@, e@, Seq::empty());
        },
        Ok(_) => {},
    }
}

/// What stands behind the end of a heading.
proof fn lemma_tail(head: Seq<char>, at: int, label: Seq<char>, part: Seq<char>, rest: Seq<char>)
    requires
        0 <= at,
        at + label.len() == head.len(),
        head.subrange(at, head.len() as int) =~= label,
    ensures
        labelled(head + part + rest, label, part, Seq::empty()),
        rest.len() == 0 ==> head + part + rest == head + part,
{
    let a = head.subrange(0, at);
    let none = Seq::<char>::empty();
    assert(head =~= a + label);
    let s = head + part + rest;
    assert(s =~= a + (label + part + none) + rest);
    lemma_occurs(s, a, label + part + none, rest);
    if rest.len() == 0 {
        assert(s =~= head + part);
    }
}

proof fn lemma_end(line: Seq<char>, head: Seq<char>, label: Seq<char>, part: Seq<char>)
    requires
        line =~= head + label + part,
    ensures
        labelled(line, label, part, Seq::empty()),
{
    let none = Seq::<char>::empty();
    assert(line =~= head + (label + part + none) + none);
    lemma_occurs(line, head, label + part + none, none);
}

/// The list of layers names the interface, and ends in the dry run if and only if it is
/// one; a process without sockets is warned about, and no other.
pub proof fn law_layers_are_listed(
    iface: Seq<char>,
    dry_run: bool,
    self_metrics: bool,
    startup: SocketSample,
)
    ensures
        ({
            let ls = layer_lines(iface, dry_run, self_metrics, startup);
            let warned = startup.pid is Some && startup.sockets@.len() == 0;
            &&& ls.len() == 6 + (if warned {
                1int
            } else {
                0
            }) + (if dry_run {
                1int
            } else {
                0
            })
            &&& labelled(ls[3], "iface "@, iface, ")"@)
            &&& startup.pid matches Some(pid) ==> labelled(ls[4], "pid "@, decimal(pid as nat), ")"@)
                && labelled(
                ls[4],
                "active, "@,
                decimal(startup.sockets@.len()),
                " sockets found"@,
            )
            &&& warned <==> has_prefix(ls[5], "  !! "@)
            &&& dry_run <==> has_prefix(ls.last(), "  dry_run"@)
        }),
{
    reveal_strlit("  net layer 1-3 (ring/softnet/snmp, iface ");
    reveal_strlit("iface ");
    reveal_strlit("): active");
    reveal_strlit(")");
    reveal_strlit(": active");
    reveal_strlit("  net layer 4 (per-socket agave attribution, pid ");
    reveal_strlit("pid ");
    reveal_strlit("): active, ");
    reveal_strlit(": active, ");
    reveal_strlit("active, ");
    reveal_strlit("): ");
    reveal_strlit("  !! ");
    reveal_strlit("  dry_run");
    reveal_strlit("  dry_run: exiting after one window");
    reveal_strlit(
        "  !! layer 4 found the agave process but zero sockets attributed to it, check --pid / port roles",
    );
    reveal_strlit("  self_metrics (own CPU time): active");
    reveal_strlit("  self_metrics (own CPU time): skipped, --self-metrics not passed");
    let ls = layer_lines(iface, dry_run, self_metrics, startup);
    let none = Seq::<char>::empty();
    let h = "  net layer 1-3 (ring/softnet/snmp, iface "@;
    assert("): active"@ =~= ")"@ + ": active"@);
    let a = h.subrange(0, h.len() - 6);
    assert(h =~= a + "iface "@);
    assert(ls[3] == h + iface + "): active"@);
    assert(ls[3] =~= a + ("iface "@ + iface + ")"@) + ": active"@);
    lemma_occurs(ls[3], a, "iface "@ + iface + ")"@, ": active"@);
    match startup.pid {
        Some(pid) => {
            let h = "  net layer 4 (per-socket agave attribution, pid "@;
            let a = h.subrange(0, h.len() - 4);
            let p = decimal(pid as nat);
            let n = decimal(startup.sockets@.len());
            let end = " sockets found"@;
            assert(h =~= a + "pid "@);
            assert("): active, "@ =~= ")"@ + ": active, "@);
            assert("): active, "@ =~= "): "@ + "active, "@);
            assert(ls[4] == h + p + "): active, "@ + n + end);
            assert(ls[4] =~= a + ("pid "@ + p + ")"@) + (": active, "@ + n + end));
            lemma_occurs(ls[4], a, "pid "@ + p + ")"@, ": active, "@ + n + end);
            let b = h + p + "): "@;
            assert(ls[4] =~= b + ("active, "@ + n + end) + none);
            lemma_occurs(ls[4], b, "active, "@ + n + end, none);
        },
        None => {},
    }
    let warning =
        "  !! layer 4 found the agave process but zero sockets attributed to it, check --pid / port roles"@;
    assert(warning.subrange(0, 5) =~= "  !! "@);
    assert("  dry_run: exiting after one window"@.subrange(0, 9) =~= "  dry_run"@);
    let x = "  self_metrics (own CPU time): active"@;
    let y = "  self_metrics (own CPU time): skipped, --self-metrics not passed"@;
    assert(x[2] == 's' && y[2] == 's');
    assert("  !! "@[2] == '!' && "  dry_run"@[2] == 'd');
    assert(x.subrange(0, 5)[2] == 's' && y.subrange(0, 5)[2] == 's');
    assert(x.subrange(0, 9)[2] == 's' && y.subrange(0, 9)[2] == 's');
}

}
