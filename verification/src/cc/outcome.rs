//! What a conversation with a device comes to, waits and all.

use vstd::prelude::*;

use crate::cc::error::CcFault;
use crate::cc::fsp::RpcEnd;
use crate::cc::job::SetState;
use crate::cc::rpc::{
    ExchangeState, FspRpc, KnobEnd, KnobState, Phase, PlanEnd, PlanState, ResetState,
};
use crate::cc::run::{answer, exchange_run, look, nearer, script_run, steps_left, Registers};
use crate::cc::script::{Instr, ScriptEnd, ScriptState, Stop};
use crate::kernel::{Pace, Reply, Request, Step};

verus! {

/// The state of a conversation.
pub trait Talk: Sized {
    type End;

    /// What it asks for.
    spec fn asks(self) -> Request;

    /// Where it goes from an answer.
    spec fn told(self, reply: Reply) -> Step<Self, Self::End>;
}

impl Talk for ScriptState {
    type End = ScriptEnd;

    open spec fn asks(self) -> Request {
        self.request()
    }

    open spec fn told(self, reply: Reply) -> Step<Self, ScriptEnd> {
        self.after(reply)
    }
}

impl Talk for ResetState {
    type End = FspRpc;

    open spec fn asks(self) -> Request {
        self.script.request()
    }

    open spec fn told(self, reply: Reply) -> Step<Self, FspRpc> {
        self.after(reply)
    }
}

impl Talk for ExchangeState {
    type End = RpcEnd;

    open spec fn asks(self) -> Request {
        self.script.request()
    }

    open spec fn told(self, reply: Reply) -> Step<Self, RpcEnd> {
        self.after(reply)
    }
}

impl Talk for KnobState {
    type End = KnobEnd;

    open spec fn asks(self) -> Request {
        self.exchange.script.request()
    }

    open spec fn told(self, reply: Reply) -> Step<Self, KnobEnd> {
        self.after(reply)
    }
}

impl Talk for PlanState {
    type End = PlanEnd;

    open spec fn asks(self) -> Request {
        self.job.exchange.script.request()
    }

    open spec fn told(self, reply: Reply) -> Step<Self, PlanEnd> {
        self.after(reply)
    }
}

impl Talk for SetState {
    type End = Result<(), CcFault>;

    open spec fn asks(self) -> Request {
        self.request()
    }

    open spec fn told(self, reply: Reply) -> Step<Self, Result<(), CcFault>> {
        self.after(reply)
    }
}

/// What a clock is to read, each time it is asked: nanoseconds since the timing
/// started.
pub type Clock = Seq<u64>;

/// What a conversation comes to, and the device and the clock after it.
pub type Outcome<T, D> = Option<(T, D, Clock)>;

/// How a device and a clock answer a request; not at all where the clock has
/// run out.
pub open spec fn timed_answer<D: Registers>(
    device: D,
    clock: Clock,
    request: Request,
) -> Option<(Reply, D, Clock)> {
    if request == Request::Elapsed {
        if clock.len() == 0 {
            None
        } else {
            Some((Reply::Nanos(clock[0]), device, clock.drop_first()))
        }
    } else {
        let (reply, after) = answer(device, request);
        Some((reply, after, clock))
    }
}

/// What a conversation comes to within `n` answers.
pub open spec fn within<T: Talk, D: Registers>(
    talk: T,
    device: D,
    clock: Clock,
    n: nat,
) -> Outcome<T::End, D>
    decreases n,
{
    if n == 0 {
        None
    } else {
        match timed_answer(device, clock, talk.asks()) {
            None => None,
            Some((reply, after, left)) => match talk.told(reply) {
                Step::Done(end) => Some((end, after, left)),
                Step::Next(next) => within(next, after, left, (n - 1) as nat),
            },
        }
    }
}

/// What a conversation comes to; nothing where it does not end.
pub open spec fn outcome<T: Talk, D: Registers>(
    talk: T,
    device: D,
    clock: Clock,
) -> Outcome<T::End, D> {
    if exists|n: nat| #[trigger] within(talk, device, clock, n) is Some {
        within(talk, device, clock, choose|n: nat| #[trigger] within(talk, device, clock, n) is Some)
    } else {
        None
    }
}

proof fn lemma_within_more<T: Talk, D: Registers>(
    talk: T,
    device: D,
    clock: Clock,
    n: nat,
    m: nat,
)
    requires
        within(talk, device, clock, n) is Some,
        n <= m,
    ensures
        within(talk, device, clock, m) == within(talk, device, clock, n),
    decreases n,
{
    let (reply, after, left) = timed_answer(device, clock, talk.asks())->0;
    if let Step::Next(next) = talk.told(reply) {
        lemma_within_more(next, after, left, (n - 1) as nat, (m - 1) as nat);
    }
}

/// What a conversation comes to within some answers it comes to.
pub proof fn lemma_outcome<T: Talk, D: Registers>(talk: T, device: D, clock: Clock, n: nat)
    requires
        within(talk, device, clock, n) is Some,
    ensures
        outcome(talk, device, clock) == within(talk, device, clock, n),
{
    let m = choose|m: nat| #[trigger] within(talk, device, clock, m) is Some;
    if n <= m {
        lemma_within_more(talk, device, clock, n, m);
    } else {
        lemma_within_more(talk, device, clock, m, n);
    }
}

/// Whether `wrap` makes one conversation a part of another, which goes on with
/// `turn` of what the part comes to.
pub open spec fn is_part<P: Talk, T: Talk>(
    wrap: spec_fn(P) -> T,
    turn: spec_fn(P::End) -> Step<T, T::End>,
) -> bool {
    &&& forall|part: P| (#[trigger] wrap(part)).asks() == part.asks()
    &&& forall|part: P, reply: Reply| #[trigger]
        wrap(part).told(reply) == match part.told(reply) {
            Step::Next(next) => Step::Next(wrap(next)),
            Step::Done(end) => turn(end),
        }
}

proof fn lemma_part_within<P: Talk, T: Talk, D: Registers>(
    part: P,
    wrap: spec_fn(P) -> T,
    turn: spec_fn(P::End) -> Step<T, T::End>,
    device: D,
    clock: Clock,
    n: nat,
    m: nat,
)
    requires
        is_part(wrap, turn),
        within(part, device, clock, n) is Some,
    ensures
        ({
            let (end, after, left) = within(part, device, clock, n)->0;
            match turn(end) {
                Step::Done(end) => within(wrap(part), device, clock, n + m) == Some(
                    (end, after, left),
                ),
                Step::Next(next) => within(next, after, left, m) is Some ==> within(
                    wrap(part),
                    device,
                    clock,
                    n + m,
                ) == within(next, after, left, m),
            }
        }),
    decreases n,
{
    let (reply, after, left) = timed_answer(device, clock, part.asks())->0;
    assert(wrap(part).asks() == part.asks());
    match part.told(reply) {
        Step::Next(next) => {
            lemma_part_within(next, wrap, turn, after, left, (n - 1) as nat, m);
        },
        Step::Done(end) => {
            if let Step::Next(next) = turn(end) {
                if within(next, after, left, m) is Some {
                    lemma_within_more(next, after, left, m, (n + m - 1) as nat);
                }
            }
        },
    }
}

/// A conversation goes on from what a part of it comes to.
pub proof fn lemma_part<P: Talk, T: Talk, D: Registers>(
    part: P,
    wrap: spec_fn(P) -> T,
    turn: spec_fn(P::End) -> Step<T, T::End>,
    device: D,
    clock: Clock,
)
    requires
        is_part(wrap, turn),
        outcome(part, device, clock) is Some,
    ensures
        ({
            let (end, after, left) = outcome(part, device, clock)->0;
            match turn(end) {
                Step::Done(end) => outcome(wrap(part), device, clock) == Some((end, after, left)),
                Step::Next(next) => outcome(next, after, left) is Some ==> outcome(
                    wrap(part),
                    device,
                    clock,
                ) == outcome(next, after, left),
            }
        }),
{
    let n = choose|n: nat| #[trigger] within(part, device, clock, n) is Some;
    let (end, after, left) = outcome(part, device, clock)->0;
    match turn(end) {
        Step::Done(_) => {
            lemma_part_within(part, wrap, turn, device, clock, n, 0);
            lemma_outcome(wrap(part), device, clock, n + 0);
        },
        Step::Next(next) => {
            if outcome(next, after, left) is Some {
                let m = choose|m: nat| #[trigger] within(next, after, left, m) is Some;
                lemma_part_within(part, wrap, turn, device, clock, n, m);
                lemma_outcome(wrap(part), device, clock, n + m);
            }
        },
    }
}

// --- Programs ----------------------------------------------------------------

proof fn lemma_script_within<D: Registers>(script: ScriptState, device: D, clock: Clock) -> (n: nat)
    requires
        script.pace == Pace::Starting || script.pace == Pace::Looking,
        script_run(script, device) is Some,
    ensures
        within(script, device, clock, n) == Some(
            ((script_run(script, device)->0).0, (script_run(script, device)->0).1, clock),
        ),
    decreases script.code.len() - script.at, steps_left(script),
{
    let (reply, after) = answer(device, script.request());
    match script.after(reply) {
        Step::Done(_) => {
            assert(within(script, device, clock, 1) is Some);
            1
        },
        Step::Next(next) => {
            assert(nearer(script, next));
            let n = lemma_script_within(next, after, clock);
            n + 1
        },
    }
}

/// A program that need not wait comes to the same by any clock.
pub proof fn lemma_script_outcome<D: Registers>(script: ScriptState, device: D, clock: Clock)
    requires
        script.pace == Pace::Starting,
        script_run(script, device) is Some,
    ensures
        outcome(script, device, clock) == Some(
            ((script_run(script, device)->0).0, (script_run(script, device)->0).1, clock),
        ),
{
    let n = lemma_script_within(script, device, clock);
    lemma_outcome(script, device, clock, n);
}

/// Whether the `k`-th reading of a clock is the first past a deadline.
pub open spec fn is_deadline(clock: Clock, k: int, timeout: u64) -> bool {
    &&& 0 <= k < clock.len()
    &&& clock[k] > timeout
    &&& forall|i: int| 0 <= i < k ==> #[trigger] clock[i] <= timeout
}

proof fn lemma_looks_in_vain<D: Registers>(script: ScriptState, device: D, clock: Clock, k: int)
    requires
        script.pace == Pace::Looking,
        script.seen is None,
        script.code[script.at] matches Instr::Await(wait) && look(wait.cond, device) == (
            false,
            device,
        ) && is_deadline(clock, k, wait.timeout),
    ensures
        within(script, device, clock, (3 + 4 * k) as nat) == Some(
            (
                Err::<Seq<u32>, Stop>(
                    Stop::TimedOut((script.code[script.at]->Await_0).what),
                ),
                device,
                clock.skip(k + 1),
            ),
        ),
    decreases k,
{
    reveal_with_fuel(within, 5);
    let wait = script.code[script.at]->Await_0;
    let left = clock.drop_first();
    let timing = ScriptState { pace: Pace::Timing, seen: None, ..script };
    let n = (3 + 4 * k) as nat;
    if k == 0 {
        assert(left =~= clock.skip(1));
        assert(within(timing, device, clock, 1) == Some(
            (Err::<Seq<u32>, Stop>(Stop::TimedOut(wait.what)), device, left),
        ));
        if wait.cond.second() is None {
            lemma_within_more(timing, device, clock, 1, 2);
        }
    } else {
        assert(clock[0] <= wait.timeout);
        assert forall|i: int| 0 <= i < k - 1 implies #[trigger] left[i] <= wait.timeout by {
            assert(clock[i + 1] <= wait.timeout);
        }
        lemma_looks_in_vain(script, device, left, k - 1);
        assert(left.skip(k) =~= clock.skip(k + 1));
        let sleeping = ScriptState { pace: Pace::Sleeping, seen: None, ..script };
        assert(script == ScriptState { pace: Pace::Looking, seen: None, ..script });
        let m = (n - 4) as nat;
        assert(within(sleeping, device, left, m + 1) == within(script, device, left, m));
        assert(within(timing, device, clock, m + 2) == within(script, device, left, m));
        lemma_within_more(timing, device, clock, m + 2, m + 3);
    }
}

/// A wait in vain ends at its deadline, and the program with it, the device
/// being left as it is.
pub proof fn a_wait_in_vain_times_out<D: Registers>(
    script: ScriptState,
    device: D,
    clock: Clock,
    k: int,
)
    requires
        script.pace == Pace::Starting,
        script.code[script.at] matches Instr::Await(wait) && look(wait.cond, device) == (
            false,
            device,
        ) && is_deadline(clock, k, wait.timeout),
    ensures
        outcome(script, device, clock) == Some(
            (
                Err::<Seq<u32>, Stop>(
                    Stop::TimedOut((script.code[script.at]->Await_0).what),
                ),
                device,
                clock.skip(k + 1),
            ),
        ),
{
    let looking = ScriptState { pace: Pace::Looking, seen: None, ..script };
    lemma_looks_in_vain(looking, device, clock, k);
    let n = (3 + 4 * k) as nat;
    assert(within(script, device, clock, n + 1) == within(looking, device, clock, n));
    lemma_outcome(script, device, clock, n + 1);
}

/// A wait for what is there already is passed at once.
pub proof fn lemma_wait_passed<D: Registers>(script: ScriptState, device: D, clock: Clock)
    requires
        script.pace == Pace::Starting,
        script.seen is None,
        script.at + 1 < script.code.len(),
        script.code[script.at] matches Instr::Await(wait) && look(wait.cond, device) == (
            true,
            device,
        ),
        outcome(ScriptState { at: script.at + 1, ..script }, device, clock) is Some,
    ensures
        outcome(script, device, clock) == outcome(
            ScriptState { at: script.at + 1, ..script },
            device,
            clock,
        ),
{
    let next = ScriptState { at: script.at + 1, ..script };
    let n = choose|n: nat| #[trigger] within(next, device, clock, n) is Some;
    lemma_outcome(next, device, clock, n);
    lemma_within_more(next, device, clock, n, n + 1);
    reveal_with_fuel(within, 4);
    assert(within(script, device, clock, n + 3) == within(next, device, clock, n));
    lemma_outcome(script, device, clock, n + 3);
}

// --- Exchanges ---------------------------------------------------------------

proof fn lemma_exchange_turn<D: Registers>(exchange: ExchangeState, device: D, clock: Clock)
    requires
        outcome(exchange.script, device, clock) is Some,
    ensures
        ({
            let (end, after, left) = outcome(exchange.script, device, clock)->0;
            match ExchangeState::turn(exchange.rpc, exchange.phase, end) {
                Step::Done(end) => outcome(exchange, device, clock) == Some((end, after, left)),
                Step::Next(next) => outcome(next, after, left) is Some ==> outcome(
                    exchange,
                    device,
                    clock,
                ) == outcome(next, after, left),
            }
        }),
{
    let wrap = |script: ScriptState| ExchangeState { script, ..exchange };
    let turn = |end: ScriptEnd| ExchangeState::turn(exchange.rpc, exchange.phase, end);
    assert(wrap(exchange.script) == exchange);
    lemma_part(exchange.script, wrap, turn, device, clock);
}

/// An exchange that need not wait comes to the same by any clock.
pub proof fn lemma_exchange_outcome<D: Registers>(exchange: ExchangeState, device: D, clock: Clock)
    requires
        exchange.script.pace == Pace::Starting,
        exchange_run(exchange, device) is Some,
    ensures
        outcome(exchange, device, clock) == Some(
            ((exchange_run(exchange, device)->0).0, (exchange_run(exchange, device)->0).1, clock),
        ),
{
    lemma_script_outcome(exchange.script, device, clock);
    lemma_exchange_turn(exchange, device, clock);
    let (end, sent) = script_run(exchange.script, device)->0;
    if let Step::Next(next) = ExchangeState::turn(exchange.rpc, exchange.phase, end) {
        assert(next.phase == Phase::Fetching);
        lemma_script_outcome(next.script, sent, clock);
        lemma_exchange_turn(next, sent, clock);
    }
}

} // verus!
