//! What register programs come to on a device that answers.

use vstd::prelude::*;

use crate::cc::fsp::RpcEnd;
use crate::cc::rpc::{ExchangeState, Phase};
use crate::cc::script::{script_of, Cond, Instr, ScriptEnd, ScriptState, Stop};
use crate::kernel::{Pace, Reply, Request, Step};

verus! {

/// The registers of a device.
pub trait Registers: Sized {
    /// What a register reads, and the device after that.
    spec fn reading(self, register: u32) -> (u32, Self);

    /// The device after a register has been written.
    spec fn written(self, register: u32, value: u32) -> Self;
}

// --- Step by step ------------------------------------------------------------

/// How a device answers a request, and the device after that.
pub open spec fn answer<D: Registers>(device: D, request: Request) -> (Reply, D) {
    match request {
        Request::Read32(register) => {
            let (value, after) = device.reading(register);
            (Reply::Word(value), after)
        },
        Request::Write32(register, value) => (Reply::Done, device.written(register, value)),
        _ => (Reply::Done, device),
    }
}

/// How many requests an instruction has left that is not in vain.
pub open spec fn steps_left(script: ScriptState) -> nat {
    match (script.pace, script.seen) {
        (Pace::Starting, _) => 3,
        (Pace::Looking, None) => 2,
        (Pace::Looking, Some(_)) => 1,
        _ => 0,
    }
}

/// Whether a program has come nearer to its end.
pub open spec fn nearer(script: ScriptState, next: ScriptState) -> bool {
    &&& next.code == script.code
    &&& script.at < next.at < script.code.len() || (script.at == next.at && next.pace
        == Pace::Looking && steps_left(next) < steps_left(script))
}

/// What a program comes to on a device, and the device after it; nothing where
/// it has to wait.
pub open spec fn script_run<D: Registers>(script: ScriptState, device: D) -> Option<(ScriptEnd, D)>
    decreases script.code.len() - script.at, steps_left(script),
{
    let (reply, after) = answer(device, script.request());
    match script.after(reply) {
        Step::Done(end) => Some((end, after)),
        Step::Next(next) => if nearer(script, next) {
            script_run(next, after)
        } else {
            None
        },
    }
}

/// What an exchange comes to on a device, and the device after it; nothing
/// where it has to wait, or to find out why no response came.
pub open spec fn exchange_run<D: Registers>(exchange: ExchangeState, device: D) -> Option<
    (RpcEnd, D),
> {
    match script_run(exchange.script, device) {
        None => None,
        Some((end, sent)) => match ExchangeState::turn(exchange.rpc, exchange.phase, end) {
            Step::Done(end) => Some((end, sent)),
            Step::Next(next) => if next.phase == Phase::Fetching {
                match script_run(next.script, sent) {
                    None => None,
                    Some((end, fetched)) => match ExchangeState::turn(next.rpc, next.phase, end) {
                        Step::Done(end) => Some((end, fetched)),
                        Step::Next(_) => None,
                    },
                }
            } else {
                None
            },
        },
    }
}

// --- All at once -------------------------------------------------------------

/// Whether a condition holds on a device, and the device after the look.
pub open spec fn look<D: Registers>(cond: Cond, device: D) -> (bool, D) {
    let (first, once) = device.reading(cond.first());
    match cond.second() {
        None => (cond.holds(first, 0), once),
        Some(register) => {
            let (second, twice) = once.reading(register);
            (cond.holds(first, second), twice)
        },
    }
}

/// What some instructions read on a device, and the device after them; nothing
/// where one of them stops or has to wait.
pub open spec fn carried<D: Registers>(code: Seq<Instr>, device: D) -> Option<(Seq<u32>, D)>
    decreases code.len(),
{
    if code.len() == 0 {
        Some((seq![], device))
    } else {
        let rest = code.drop_first();
        match code[0] {
            Instr::Write(register, value) => carried(rest, device.written(register, value)),
            Instr::Read(register) => {
                let (value, after) = device.reading(register);
                match carried(rest, after) {
                    Some((output, end)) => Some((seq![value] + output, end)),
                    None => None,
                }
            },
            Instr::Clear(register, mask, _) => {
                let (value, after) = device.reading(register);
                if value & mask == 0 {
                    carried(rest, after)
                } else {
                    None
                }
            },
            Instr::Await(wait) => {
                let (holds, after) = look(wait.cond, device);
                if holds {
                    carried(rest, after)
                } else {
                    None
                }
            },
        }
    }
}

proof fn lemma_script_carried<D: Registers>(
    code: Seq<Instr>,
    at: int,
    output: Seq<u32>,
    device: D,
)
    requires
        0 <= at < code.len(),
        carried(code.skip(at), device) is Some,
    ensures
        ({
            let (more, end) = carried(code.skip(at), device)->0;
            script_run(
                ScriptState { code, at, output, pace: Pace::Starting, seen: None },
                device,
            ) == Some((Ok::<Seq<u32>, Stop>(output + more), end))
        }),
    decreases code.len() - at,
{
    reveal_with_fuel(script_run, 4);
    let script = ScriptState { code, at, output, pace: Pace::Starting, seen: None };
    let rest = code.skip(at);
    assert(rest.drop_first() =~= code.skip(at + 1));
    assert(rest[0] == code[at]);
    let (more, end) = carried(rest, device)->0;
    let last = at + 1 == code.len();
    if last {
        assert(code.skip(at + 1) =~= seq![]);
    }
    match code[at] {
        Instr::Write(register, value) => {
            let after = device.written(register, value);
            if last {
                assert(carried(rest.drop_first(), after) == Some((Seq::<u32>::empty(), after)));
                assert(output + more =~= output);
            } else {
                lemma_script_carried(code, at + 1, output, after);
            }
        },
        Instr::Read(register) => {
            let (value, after) = device.reading(register);
            let tail = (carried(code.skip(at + 1), after)->0).0;
            assert(more == seq![value] + tail);
            if last {
                assert(output + more =~= output.push(value));
            } else {
                lemma_script_carried(code, at + 1, output.push(value), after);
                assert(output.push(value) + tail =~= output + more);
            }
        },
        Instr::Clear(register, mask, _) => {
            let (value, after) = device.reading(register);
            if last {
                assert(carried(rest.drop_first(), after) == Some((Seq::<u32>::empty(), after)));
                assert(output + more =~= output);
            } else {
                lemma_script_carried(code, at + 1, output, after);
            }
        },
        Instr::Await(wait) => {
            let (holds, after) = look(wait.cond, device);
            if last {
                assert(carried(rest.drop_first(), after) == Some((Seq::<u32>::empty(), after)));
                assert(output + more =~= output);
            } else {
                lemma_script_carried(code, at + 1, output, after);
            }
        },
    }
}

/// A program that no instruction stops comes to what its instructions read,
/// and leaves the device as they do, first to last.
pub proof fn a_program_does_what_it_says<D: Registers>(code: Seq<Instr>, device: D)
    requires
        code.len() > 0,
        carried(code, device) is Some,
    ensures
        script_run(script_of(code), device) == Some(
            (Ok::<Seq<u32>, Stop>((carried(code, device)->0).0), (carried(code, device)->0).1),
        ),
{
    assert(code.skip(0) =~= code);
    lemma_script_carried(code, 0, seq![], device);
    assert(seq![] + (carried(code, device)->0).0 =~= (carried(code, device)->0).0);
}

/// One program after another.
pub proof fn lemma_carried_append<D: Registers>(a: Seq<Instr>, b: Seq<Instr>, device: D)
    requires
        carried(a, device) is Some,
        carried(b, (carried(a, device)->0).1) is Some,
    ensures
        ({
            let (first, mid) = carried(a, device)->0;
            let (second, end) = carried(b, mid)->0;
            carried(a + b, device) == Some((first + second, end))
        }),
    decreases a.len(),
{
    let (first, mid) = carried(a, device)->0;
    let (second, end) = carried(b, mid)->0;
    if a.len() == 0 {
        assert(a + b =~= b);
        assert(first + second =~= second);
    } else {
        let rest = a.drop_first();
        assert((a + b).drop_first() =~= rest + b);
        assert((a + b)[0] == a[0]);
        match a[0] {
            Instr::Write(register, value) => {
                lemma_carried_append(rest, b, device.written(register, value));
            },
            Instr::Read(register) => {
                let (value, after) = device.reading(register);
                lemma_carried_append(rest, b, after);
                let tail = (carried(rest, after)->0).0;
                assert(first + second =~= seq![value] + (tail + second));
            },
            Instr::Clear(register, _, _) => {
                let (_, after) = device.reading(register);
                lemma_carried_append(rest, b, after);
            },
            Instr::Await(wait) => {
                let (_, after) = look(wait.cond, device);
                lemma_carried_append(rest, b, after);
            },
        }
    }
}

} // verus!
