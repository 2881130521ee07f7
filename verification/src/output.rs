//! Validator samples as readable status lines.

use vstd::prelude::*;

use crate::number::{decimal, grouped, push_decimal, push_grouped, push_signed, signed_decimal};
use crate::rpc::{Sample, ValidatorSample};
use crate::text::{has_prefix, labelled, lemma_occurs};

verus! {

/// The state of a validator in one word. More than 150 slots behind is a rough
/// measure of falling behind.
pub open spec fn state_text(s: ValidatorSample) -> Seq<char> {
    if !s.healthy {
        "UNHEALTHY"@
    } else if s.delinquent {
        "DELINQUENT"@
    } else if s.vote_lag > 150 {
        "LAGGING"@
    } else {
        "OK"@
    }
}

/// The status line of a validator that answered.
pub open spec fn up_text(s: ValidatorSample) -> Seq<char> {
    "epoch "@ + decimal(s.epoch as nat) + " | slot "@ + grouped(s.network_slot as nat)
        + " | last vote "@ + grouped(s.my_last_vote as nat) + " | lag "@ + signed_decimal(
        s.vote_lag as int,
    ) + " | credits "@ + grouped(s.credits as nat) + " | "@ + state_text(s)
}

/// The status line of a poll.
pub open spec fn status_text(s: Sample) -> Seq<char> {
    match s {
        Sample::Up(v) => up_text(v),
        Sample::Down { reason } => "DOWN | "@ + reason@,
    }
}

/// The short status of a poll.
pub open spec fn compact_text(s: Sample) -> Seq<char> {
    match s {
        Sample::Up(v) => "slot "@ + grouped(v.network_slot as nat) + " | lag "@ + signed_decimal(
            v.vote_lag as int,
        ) + " | credits "@ + grouped(v.credits as nat) + " | "@ + state_text(v),
        Sample::Down { .. } => "validator DOWN"@,
    }
}

/// Names the state of a validator.
pub fn state(s: &ValidatorSample) -> (r: &'static str)
    ensures
        r@ == state_text(*s),
{
    if !s.healthy {
        "UNHEALTHY"
    } else if s.delinquent {
        "DELINQUENT"
    } else if s.vote_lag > 150 {
        "LAGGING"
    } else {
        "OK"
    }
}

/// Turns 1234567 into `1,234,567`.
pub fn commas(n: u64) -> (r: String)
    ensures
        r@ == grouped(n as nat),
{
    let mut out = String::new();
    push_grouped(&mut out, n);
    assert(out@ =~= grouped(n as nat));
    out
}

/// The status line of a validator that answered:
/// `epoch 0 | slot 1,084 | last vote 1,083 | lag 1 | credits 4,201 | OK`.
pub fn up_line(s: &ValidatorSample) -> (r: String)
    ensures
        r@ == up_text(*s),
{
    let mut out = "epoch ".to_string();
    push_decimal(&mut out, s.epoch as u128);
    out.append(" | slot ");
    push_grouped(&mut out, s.network_slot);
    out.append(" | last vote ");
    push_grouped(&mut out, s.my_last_vote);
    out.append(" | lag ");
    push_signed(&mut out, s.vote_lag);
    out.append(" | credits ");
    push_grouped(&mut out, s.credits);
    out.append(" | ");
    out.append(state(s));
    out
}

/// Formats one poll as a single status line; one that failed reads
/// `DOWN | getEpochInfo: request failed`.
pub fn status_line(sample: &Sample) -> (r: String)
    ensures
        r@ == status_text(*sample),
{
    match sample {
        Sample::Up(s) => up_line(s),
        Sample::Down { reason } => {
            let mut out = "DOWN | ".to_string();
            out.append(reason.as_str());
            out
        },
    }
}

/// The short form for the combined timeline:
/// `slot 4,321 | lag 1 | credits 26,412 | OK`, or `validator DOWN`.
pub fn compact(sample: &Sample) -> (r: String)
    ensures
        r@ == compact_text(*sample),
{
    match sample {
        Sample::Up(s) => {
            let mut out = "slot ".to_string();
            push_grouped(&mut out, s.network_slot);
            out.append(" | lag ");
            push_signed(&mut out, s.vote_lag);
            out.append(" | credits ");
            push_grouped(&mut out, s.credits);
            out.append(" | ");
            out.append(state(s));
            out
        },
        Sample::Down { .. } => "validator DOWN".to_string(),
    }
}

// ---- what holds of all samples ----

/// The state of a validator tells what is wrong with it: `UNHEALTHY` if and only if it
/// is not healthy, whatever else; `DELINQUENT` of a healthy one that is delinquent;
/// `LAGGING` of one that is neither but more than 150 slots behind; `OK` only where
/// nothing of that holds.
pub proof fn law_state_names_the_worst(s: ValidatorSample)
    ensures
        state_text(s) == "UNHEALTHY"@ <==> !s.healthy,
        state_text(s) == "DELINQUENT"@ <==> s.healthy && s.delinquent,
        state_text(s) == "LAGGING"@ <==> s.healthy && !s.delinquent && s.vote_lag > 150,
        state_text(s) == "OK"@ <==> s.healthy && !s.delinquent && s.vote_lag <= 150,
{
    reveal_strlit("UNHEALTHY");
    reveal_strlit("DELINQUENT");
    reveal_strlit("LAGGING");
    reveal_strlit("OK");
    assert("UNHEALTHY"@.len() == 9 && "DELINQUENT"@.len() == 10);
    assert("LAGGING"@.len() == 7 && "OK"@.len() == 2);
}

/// The status line of a validator that answered says of each of its numbers which one
/// it is, and ends in the state.
pub proof fn law_status_line_labels_its_numbers(s: ValidatorSample)
    ensures
        ({
            let line = status_text(Sample::Up(s));
            &&& has_prefix(line, "epoch "@ + decimal(s.epoch as nat) + " | "@)
            &&& labelled(line, " | slot "@, grouped(s.network_slot as nat), " | "@)
            &&& labelled(line, " | last vote "@, grouped(s.my_last_vote as nat), " | "@)
            &&& labelled(line, " | lag "@, signed_decimal(s.vote_lag as int), " | "@)
            &&& labelled(line, " | credits "@, grouped(s.credits as nat), " | "@)
            &&& line.subrange(line.len() - state_text(s).len(), line.len() as int) == state_text(s)
        }),
{
    reveal_strlit(" | ");
    reveal_strlit(" | slot ");
    reveal_strlit(" | last vote ");
    reveal_strlit(" | lag ");
    reveal_strlit(" | credits ");
    let e = decimal(s.epoch as nat);
    let n = grouped(s.network_slot as nat);
    let v = grouped(s.my_last_vote as nat);
    let l = signed_decimal(s.vote_lag as int);
    let c = grouped(s.credits as nat);
    let st = state_text(s);
    let line = status_text(Sample::Up(s));
    let bar = " | "@;
    let a0 = "epoch "@ + e;
    let a1 = a0 + " | slot "@ + n;
    let a2 = a1 + " | last vote "@ + v;
    let a3 = a2 + " | lag "@ + l;
    let a4 = a3 + " | credits "@ + c;
    let rest = |x: Seq<char>| x.subrange(3, x.len() as int);
    assert(" | slot "@ =~= bar + rest(" | slot "@));
    assert(" | last vote "@ =~= bar + rest(" | last vote "@));
    assert(" | lag "@ =~= bar + rest(" | lag "@));
    assert(" | credits "@ =~= bar + rest(" | credits "@));
    assert(line =~= a4 + bar + st);
    assert(line.subrange(0, (a0.len() + 3) as int) =~= a0 + bar);
    lemma_occurs(
        line,
        a0,
        " | slot "@ + n + bar,
        rest(" | last vote "@) + v + " | lag "@ + l + " | credits "@ + c + bar + st,
    );
    lemma_occurs(
        line,
        a1,
        " | last vote "@ + v + bar,
        rest(" | lag "@) + l + " | credits "@ + c + bar + st,
    );
    lemma_occurs(line, a2, " | lag "@ + l + bar, rest(" | credits "@) + c + bar + st);
    lemma_occurs(line, a3, " | credits "@ + c + bar, st);
    assert(line.subrange(line.len() - st.len(), line.len() as int) =~= st);
}

/// The short status of a validator that answered labels its slot, its lag and its
/// credits, and ends in the state.
pub proof fn law_short_status_labels_its_numbers(s: ValidatorSample)
    ensures
        ({
            let line = compact_text(Sample::Up(s));
            &&& has_prefix(line, "slot "@ + grouped(s.network_slot as nat) + " | "@)
            &&& labelled(line, " | lag "@, signed_decimal(s.vote_lag as int), " | "@)
            &&& labelled(line, " | credits "@, grouped(s.credits as nat), " | "@)
            &&& line.subrange(line.len() - state_text(s).len(), line.len() as int) == state_text(s)
        }),
{
    reveal_strlit(" | ");
    reveal_strlit(" | lag ");
    reveal_strlit(" | credits ");
    let n = grouped(s.network_slot as nat);
    let l = signed_decimal(s.vote_lag as int);
    let c = grouped(s.credits as nat);
    let st = state_text(s);
    let line = compact_text(Sample::Up(s));
    let bar = " | "@;
    let a1 = "slot "@ + n;
    let a2 = a1 + " | lag "@ + l;
    let rest = |x: Seq<char>| x.subrange(3, x.len() as int);
    assert(" | lag "@ =~= bar + rest(" | lag "@));
    assert(" | credits "@ =~= bar + rest(" | credits "@));
    assert(line.subrange(0, (a1.len() + 3) as int) =~= a1 + bar);
    lemma_occurs(line, a1, " | lag "@ + l + bar, rest(" | credits "@) + c + bar + st);
    lemma_occurs(line, a2, " | credits "@ + c + bar, st);
    assert(line.subrange(line.len() - st.len(), line.len() as int) =~= st);
}

/// A poll that failed shows its reason, and is told from one that did not by how the
/// line begins.
pub proof fn law_failed_poll_shows_its_reason(reason: String, s: ValidatorSample)
    ensures
        has_prefix(status_text(Sample::Down { reason }), "DOWN"@),
        ({
            let line = status_text(Sample::Down { reason });
            line.subrange(line.len() - reason@.len(), line.len() as int) == reason@
        }),
        !has_prefix(status_text(Sample::Up(s)), "DOWN"@),
        compact_text(Sample::Down { reason }) != compact_text(Sample::Up(s)),
{
    reveal_strlit("DOWN");
    reveal_strlit("DOWN | ");
    reveal_strlit("epoch ");
    reveal_strlit("slot ");
    reveal_strlit("validator DOWN");
    let down = status_text(Sample::Down { reason });
    assert(down.subrange(0, 4) =~= "DOWN"@);
    assert(down.subrange(down.len() - reason@.len(), down.len() as int) =~= reason@);
    let up = status_text(Sample::Up(s));
    assert(up[0] == 'e');
    assert(up.subrange(0, 4)[0] == 'e');
    assert(compact_text(Sample::Up(s))[0] == 's');
    assert("validator DOWN"@[0] == 'v');
}

}
