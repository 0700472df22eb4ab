//! Register programs: straight-line sequences of reads, writes and waits.

use vstd::prelude::*;

use crate::kernel::{Op, Pace, PollEvent, PollStep, Procedure, Reply, Request, Step};
use crate::kernel::{poll, poll_step, POLL_PAUSE_MS};

verus! {

/// What is looked for in the registers.
#[derive(Clone, Copy, Debug, PartialEq, Eq, Structural)]
pub enum Cond {
    /// Two registers read the same.
    Same(u32, u32),
    /// Two registers read differently.
    Differ(u32, u32),
    /// A register has some bit of a mask set.
    AnySet(u32, u32),
    /// A register reads a value.
    Is(u32, u32),
    /// A register reads anything but a value.
    IsNot(u32, u32),
}

/// What a wait is for.
#[derive(Clone, Copy, Debug, PartialEq, Eq, Structural)]
pub enum What {
    Bar0Firewall,
    GpuBoot,
    SwitchBoot,
    StaleResponse,
    CommandQueue,
    Response,
    MnocReady,
    MnocCredits,
    MnocResponse,
}

/// Wait until a condition holds, for at most `timeout` nanoseconds.
#[derive(Clone, Copy, Debug, PartialEq, Eq, Structural)]
pub struct Wait {
    pub what: What,
    pub cond: Cond,
    pub timeout: u64,
}

/// Which way a message was going when the mailbox failed.
#[derive(Clone, Copy, Debug, PartialEq, Eq, Structural)]
pub enum Way {
    Send,
    Receive,
}

/// One instruction.
#[derive(Clone, Copy, Debug, PartialEq, Eq, Structural)]
pub enum Instr {
    /// Wait, and stop if it is in vain.
    Await(Wait),
    /// Write a register.
    Write(u32, u32),
    /// Read a register into the output.
    Read(u32),
    /// Read a register, and stop if it has some bit of a mask set.
    Clear(u32, u32, Way),
}

/// Why a program stopped before its end.
#[derive(Clone, Copy, Debug, PartialEq, Eq, Structural)]
pub enum Stop {
    /// A wait timed out.
    TimedOut(What),
    /// A register that had to be clear was not, and what it read.
    ErrorBit(Way, u32),
}

impl What {
    pub open spec fn text(self) -> Seq<char> {
        match self {
            What::Bar0Firewall => "BAR0 firewall"@,
            What::GpuBoot => "GPU boot complete"@,
            What::SwitchBoot => "NVSwitch boot complete"@,
            What::StaleResponse => "stale FSP response"@,
            What::CommandQueue => "FSP command queue empty"@,
            What::Response => "FSP response"@,
            What::MnocReady => "FSP MNOC receive ready"@,
            What::MnocCredits => "FSP MNOC credits"@,
            What::MnocResponse => "FSP MNOC response"@,
        }
    }

    pub fn name(self) -> (r: &'static str)
        ensures
            r@ == self.text(),
    {
        match self {
            What::Bar0Firewall => "BAR0 firewall",
            What::GpuBoot => "GPU boot complete",
            What::SwitchBoot => "NVSwitch boot complete",
            What::StaleResponse => "stale FSP response",
            What::CommandQueue => "FSP command queue empty",
            What::Response => "FSP response",
            What::MnocReady => "FSP MNOC receive ready",
            What::MnocCredits => "FSP MNOC credits",
            What::MnocResponse => "FSP MNOC response",
        }
    }
}

impl Cond {
    /// The register looked at first.
    pub open spec fn first(self) -> u32 {
        match self {
            Cond::Same(a, _) => a,
            Cond::Differ(a, _) => a,
            Cond::AnySet(a, _) => a,
            Cond::Is(a, _) => a,
            Cond::IsNot(a, _) => a,
        }
    }

    /// The register looked at second, if it takes two.
    pub open spec fn second(self) -> Option<u32> {
        match self {
            Cond::Same(_, b) => Some(b),
            Cond::Differ(_, b) => Some(b),
            _ => None,
        }
    }

    /// Whether the condition holds of what was read; `second` matters where
    /// it takes two registers.
    pub open spec fn holds(self, first: u32, second: u32) -> bool {
        match self {
            Cond::Same(_, _) => first == second,
            Cond::Differ(_, _) => first != second,
            Cond::AnySet(_, mask) => first & mask != 0,
            Cond::Is(_, value) => first == value,
            Cond::IsNot(_, value) => first != value,
        }
    }

    fn first_register(self) -> (r: u32)
        ensures
            r == self.first(),
    {
        match self {
            Cond::Same(a, _) => a,
            Cond::Differ(a, _) => a,
            Cond::AnySet(a, _) => a,
            Cond::Is(a, _) => a,
            Cond::IsNot(a, _) => a,
        }
    }

    fn second_register(self) -> (r: Option<u32>)
        ensures
            r == self.second(),
    {
        match self {
            Cond::Same(_, b) => Some(b),
            Cond::Differ(_, b) => Some(b),
            _ => None,
        }
    }

    fn check(self, first: u32, second: u32) -> (r: bool)
        ensures
            r == self.holds(first, second),
    {
        match self {
            Cond::Same(_, _) => first == second,
            Cond::Differ(_, _) => first != second,
            Cond::AnySet(_, mask) => first & mask != 0,
            Cond::Is(_, value) => first == value,
            Cond::IsNot(_, value) => first != value,
        }
    }
}

/// A program under way.
pub struct Script {
    code: Vec<Instr>,
    at: usize,
    output: Vec<u32>,
    pace: Pace,
    seen: Option<u32>,
}

/// Where a program stands.
pub struct ScriptState {
    /// The whole program.
    pub code: Seq<Instr>,
    /// The instruction being carried out.
    pub at: int,
    /// What has been read so far.
    pub output: Seq<u32>,
    /// Where the current wait stands, if this is one.
    pub pace: Pace,
    /// What the first of two registers read, once it has been looked at.
    pub seen: Option<u32>,
}

/// What comes of a program: all it read, or why it stopped.
pub type ScriptEnd = Result<Seq<u32>, Stop>;

pub open spec fn word(reply: Reply) -> u32 {
    reply->Word_0
}

/// How many registers a program reads into its output.
pub open spec fn count_reads(code: Seq<Instr>) -> nat
    decreases code.len(),
{
    if code.len() == 0 {
        0
    } else {
        count_reads(code.drop_last()) + if code.last() is Read {
            1nat
        } else {
            0nat
        }
    }
}

pub proof fn lemma_count_reads_append(a: Seq<Instr>, b: Seq<Instr>)
    ensures
        count_reads(a + b) == count_reads(a) + count_reads(b),
    decreases b.len(),
{
    if b.len() == 0 {
        assert(a + b =~= a);
    } else {
        assert((a + b).drop_last() =~= a + b.drop_last());
        lemma_count_reads_append(a, b.drop_last());
    }
}

pub proof fn lemma_count_no_reads(code: Seq<Instr>)
    requires
        forall|i: int| 0 <= i < code.len() ==> !(#[trigger] code[i] is Read),
    ensures
        count_reads(code) == 0,
    decreases code.len(),
{
    if code.len() > 0 {
        assert(!(code[code.len() - 1] is Read));
        lemma_count_no_reads(code.drop_last());
    }
}

/// A program about to start.
pub open spec fn script_of(code: Seq<Instr>) -> ScriptState {
    ScriptState { code, at: 0, output: seq![], pace: Pace::Starting, seen: None }
}

impl ScriptState {
    pub open spec fn well_formed(self) -> bool {
        &&& 0 <= self.at < self.code.len()
        &&& self.output.len() == count_reads(self.code.take(self.at))
    }

    pub open spec fn request(self) -> Request {
        match self.code[self.at] {
            Instr::Write(register, value) => Request::Write32(register, value),
            Instr::Read(register) => Request::Read32(register),
            Instr::Clear(register, _, _) => Request::Read32(register),
            Instr::Await(wait) => match self.pace {
                Pace::Starting => Request::StartTimer,
                Pace::Looking => match self.seen {
                    None => Request::Read32(wait.cond.first()),
                    Some(_) => Request::Read32(
                        match wait.cond.second() {
                            Some(second) => second,
                            None => wait.cond.first(),
                        },
                    ),
                },
                Pace::Timing => Request::Elapsed,
                Pace::Sleeping => Request::Sleep(POLL_PAUSE_MS),
            },
        }
    }

    /// On to the next instruction, or to the end.
    pub open spec fn past(self, output: Seq<u32>) -> Step<ScriptState, ScriptEnd> {
        if self.at + 1 == self.code.len() {
            Step::Done(Ok(output))
        } else {
            Step::Next(
                ScriptState {
                    code: self.code,
                    at: self.at + 1,
                    output,
                    pace: Pace::Starting,
                    seen: None,
                },
            )
        }
    }

    /// On with the current wait, once `event` was seen.
    pub open spec fn waited(self, wait: Wait, event: PollEvent) -> Step<ScriptState, ScriptEnd> {
        match poll_step(event, wait.timeout) {
            PollStep::Look => Step::Next(ScriptState { pace: Pace::Looking, seen: None, ..self }),
            PollStep::AskTime => Step::Next(ScriptState { pace: Pace::Timing, seen: None, ..self }),
            PollStep::Sleep => Step::Next(ScriptState { pace: Pace::Sleeping, seen: None, ..self }),
            PollStep::Ready => self.past(self.output),
            PollStep::TimedOut => Step::Done(Err(Stop::TimedOut(wait.what))),
        }
    }

    pub open spec fn after(self, reply: Reply) -> Step<ScriptState, ScriptEnd> {
        match self.code[self.at] {
            Instr::Write(_, _) => self.past(self.output),
            Instr::Read(_) => self.past(self.output.push(word(reply))),
            Instr::Clear(_, mask, way) => if word(reply) & mask == 0 {
                self.past(self.output)
            } else {
                Step::Done(Err(Stop::ErrorBit(way, word(reply))))
            },
            Instr::Await(wait) => match self.pace {
                Pace::Starting => self.waited(wait, PollEvent::Started),
                Pace::Looking => match (self.seen, wait.cond.second()) {
                    (None, Some(_)) => Step::Next(
                        ScriptState { seen: Some(word(reply)), ..self },
                    ),
                    (None, None) => self.waited(
                        wait,
                        PollEvent::Looked(wait.cond.holds(word(reply), 0)),
                    ),
                    (Some(first), _) => self.waited(
                        wait,
                        PollEvent::Looked(wait.cond.holds(first, word(reply))),
                    ),
                },
                Pace::Timing => self.waited(wait, PollEvent::Elapsed(reply->Nanos_0)),
                Pace::Sleeping => self.waited(wait, PollEvent::Slept),
            },
        }
    }
}

impl View for Script {
    type V = ScriptState;

    closed spec fn view(&self) -> ScriptState {
        ScriptState {
            code: self.code@,
            at: self.at as int,
            output: self.output@,
            pace: self.pace,
            seen: self.seen,
        }
    }
}

/// What a step of a program comes to.
pub open spec fn script_step(step: Step<Script, Result<Vec<u32>, Stop>>) -> Step<
    ScriptState,
    ScriptEnd,
> {
    match step {
        Step::Next(script) => Step::Next(script@),
        Step::Done(Ok(output)) => Step::Done(Ok(output@)),
        Step::Done(Err(stop)) => Step::Done(Err(stop)),
    }
}

fn word_of(reply: &Reply) -> (r: u32)
    ensures
        reply is Word ==> r == word(*reply),
{
    match reply {
        Reply::Word(word) => *word,
        _ => 0,
    }
}

impl Script {
    pub fn new(code: Vec<Instr>) -> (r: Script)
        ensures
            r@ == script_of(code@),
            code@.len() > 0 ==> r@.well_formed(),
    {
        let r: Script = Script {
            code,
            at: 0,
            output: Vec::new(),
            pace: Pace::Starting,
            seen: None,
        };
        assert(r@.output =~= seq![]);
        assert(code@.take(0) =~= seq![]);
        r
    }

    fn past(self) -> (step: Step<Script, Result<Vec<u32>, Stop>>)
        requires
            0 <= self@.at < self@.code.len(),
        ensures
            script_step(step) == self@.past(self@.output),
    {
        let last: usize = self.code.len() - 1;
        if self.at == last {
            Step::Done(Ok(self.output))
        } else {
            Step::Next(Script { at: self.at + 1, pace: Pace::Starting, seen: None, ..self })
        }
    }

    fn waited(self, wait: Wait, event: PollEvent) -> (step: Step<Script, Result<Vec<u32>, Stop>>)
        requires
            self@.well_formed(),
        ensures
            script_step(step) == self@.waited(wait, event),
    {
        match poll(event, wait.timeout) {
            PollStep::Look => Step::Next(Script { pace: Pace::Looking, seen: None, ..self }),
            PollStep::AskTime => Step::Next(Script { pace: Pace::Timing, seen: None, ..self }),
            PollStep::Sleep => Step::Next(Script { pace: Pace::Sleeping, seen: None, ..self }),
            PollStep::Ready => self.past(),
            PollStep::TimedOut => Step::Done(Err(Stop::TimedOut(wait.what))),
        }
    }
}

impl Procedure for Script {
    type Output = Result<Vec<u32>, Stop>;

    open spec fn well_formed(&self) -> bool {
        self@.well_formed()
    }

    open spec fn request(&self) -> Request {
        self@.request()
    }

    fn op(&self) -> (op: Op) {
        let ghost _now = (self.well_formed(), self.request());
        match self.code[self.at] {
            Instr::Write(register, value) => Op::Write32(register, value),
            Instr::Read(register) => Op::Read32(register),
            Instr::Clear(register, _, _) => Op::Read32(register),
            Instr::Await(wait) => match self.pace {
                Pace::Starting => Op::StartTimer,
                Pace::Looking => match (self.seen, wait.cond.second_register()) {
                    (Some(_), Some(second)) => Op::Read32(second),
                    _ => Op::Read32(wait.cond.first_register()),
                },
                Pace::Timing => Op::Elapsed,
                Pace::Sleeping => Op::Sleep(POLL_PAUSE_MS),
            },
        }
    }

    fn resume(self, reply: Reply) -> (step: Step<Self, Self::Output>)
        ensures
            script_step(step) == self@.after(reply),
            step matches Step::Next(next) ==> next@.code == self@.code,
            step matches Step::Done(Ok(output)) ==> output@.len() == count_reads(self@.code),
    {
        let ghost _now = (self.well_formed(), self.request());
        proof {
            let code = self@.code;
            let at = self@.at;
            assert(code.take(at + 1).drop_last() =~= code.take(at));
            if at + 1 == code.len() {
                assert(code.take(at + 1) =~= code);
            }
        }
        match self.code[self.at] {
            Instr::Write(_, _) => self.past(),
            Instr::Read(_) => {
                let mut script: Script = self;
                script.output.push(word_of(&reply));
                script.past()
            },
            Instr::Clear(_, mask, way) => {
                let read: u32 = word_of(&reply);
                if read & mask == 0 {
                    self.past()
                } else {
                    Step::Done(Err(Stop::ErrorBit(way, read)))
                }
            },
            Instr::Await(wait) => match self.pace {
                Pace::Starting => self.waited(wait, PollEvent::Started),
                Pace::Looking => {
                    let read: u32 = word_of(&reply);
                    match (self.seen, wait.cond.second_register()) {
                        (None, Some(_)) => Step::Next(Script { seen: Some(read), ..self }),
                        (None, None) => self.waited(
                            wait,
                            PollEvent::Looked(wait.cond.check(read, 0)),
                        ),
                        (Some(first), _) => self.waited(
                            wait,
                            PollEvent::Looked(wait.cond.check(first, read)),
                        ),
                    }
                },
                Pace::Timing => {
                    let nanos: u64 = match reply {
                        Reply::Nanos(nanos) => nanos,
                        _ => 0,
                    };
                    self.waited(wait, PollEvent::Elapsed(nanos))
                },
                Pace::Sleeping => self.waited(wait, PollEvent::Slept),
            },
        }
    }
}

/// What is waited for, by what the registers read: that two are equal or are not,
/// that one has a value or has not, or that one has any bit of a mask.
pub proof fn conditions_mean_what_they_say(a: u32, b: u32, x: u32, y: u32)
    ensures
        Cond::Same(a, b).holds(x, y) <==> x == y,
        Cond::Differ(a, b).holds(x, y) <==> !Cond::Same(a, b).holds(x, y),
        Cond::Is(a, b).holds(x, y) <==> x == b,
        Cond::IsNot(a, b).holds(x, y) <==> !Cond::Is(a, b).holds(x, y),
        Cond::AnySet(a, b).holds(x, y) <==> x & b != 0,
        Cond::Same(a, b).first() == a && Cond::Same(a, b).second() == Some(b),
        Cond::Differ(a, b).first() == a && Cond::Differ(a, b).second() == Some(b),
        Cond::Is(a, b).first() == a && Cond::Is(a, b).second() is None,
        Cond::IsNot(a, b).first() == a && Cond::IsNot(a, b).second() is None,
        Cond::AnySet(a, b).first() == a && Cond::AnySet(a, b).second() is None,
{
}

/// Whether a program goes on from an instruction: to the next one, or after the
/// last to its end, having read `output`.
pub open spec fn moves_on(
    script: ScriptState,
    step: Step<ScriptState, ScriptEnd>,
    output: Seq<u32>,
) -> bool {
    match step {
        Step::Done(end) => script.at == script.code.len() - 1 && end == Ok::<Seq<u32>, Stop>(output),
        Step::Next(next) => script.at < script.code.len() - 1 && next == (ScriptState {
            at: script.at + 1,
            output,
            pace: Pace::Starting,
            seen: None,
            ..script
        }),
    }
}

/// A write writes its value to its register; a read adds what its register reads
/// to the output; a register that must be clear stops the program where a bit of
/// the mask is set. Each takes one request, and nothing is skipped.
pub proof fn an_instruction_takes_one_request(script: ScriptState, x: u32)
    requires
        0 <= script.at < script.code.len(),
    ensures
        match script.code[script.at] {
            Instr::Write(register, value) => script.request() == Request::Write32(register, value)
                && moves_on(script, script.after(Reply::Done), script.output),
            Instr::Read(register) => script.request() == Request::Read32(register) && moves_on(
                script,
                script.after(Reply::Word(x)),
                script.output.push(x),
            ),
            Instr::Clear(register, mask, way) => {
                &&& script.request() == Request::Read32(register)
                &&& x & mask == 0 ==> moves_on(script, script.after(Reply::Word(x)), script.output)
                &&& x & mask != 0 ==> script.after(Reply::Word(x)) == Step::<
                    ScriptState,
                    ScriptEnd,
                >::Done(Err(Stop::ErrorBit(way, x)))
            },
            Instr::Await(_) => true,
        },
{
}

/// A wait starts a clock and looks at its one register or its two, one after the
/// other. It is over where the condition holds; where it does not, the time is
/// asked, and past the limit the program stops with what was waited for. Else it
/// sleeps for a millisecond and looks again.
pub proof fn a_wait_looks_until_its_time_is_up(
    script: ScriptState,
    wait: Wait,
    x: u32,
    y: u32,
    nanos: u64,
)
    requires
        0 <= script.at < script.code.len(),
        script.code[script.at] == Instr::Await(wait),
    ensures
        ({
            let starting = ScriptState { pace: Pace::Starting, seen: None, ..script };
            let looking = ScriptState { pace: Pace::Looking, seen: None, ..script };
            let seen = ScriptState { pace: Pace::Looking, seen: Some(x), ..script };
            let timing = ScriptState { pace: Pace::Timing, seen: None, ..script };
            let sleeping = ScriptState { pace: Pace::Sleeping, seen: None, ..script };
            &&& starting.request() == Request::StartTimer
            &&& starting.after(Reply::Done) == Step::<ScriptState, ScriptEnd>::Next(looking)
            &&& match wait.cond {
                Cond::Same(a, b) | Cond::Differ(a, b) => {
                    &&& looking.request() == Request::Read32(a)
                    &&& looking.after(Reply::Word(x)) == Step::<ScriptState, ScriptEnd>::Next(seen)
                    &&& seen.request() == Request::Read32(b)
                    &&& if (x == y) == (wait.cond is Same) {
                        moves_on(seen, seen.after(Reply::Word(y)), script.output)
                    } else {
                        seen.after(Reply::Word(y)) == Step::<ScriptState, ScriptEnd>::Next(timing)
                    }
                },
                Cond::AnySet(a, b) | Cond::Is(a, b) | Cond::IsNot(a, b) => {
                    let holds = match wait.cond {
                        Cond::AnySet(_, _) => x & b != 0,
                        Cond::Is(_, _) => x == b,
                        _ => x != b,
                    };
                    &&& looking.request() == Request::Read32(a)
                    &&& if holds {
                        moves_on(looking, looking.after(Reply::Word(x)), script.output)
                    } else {
                        looking.after(Reply::Word(x)) == Step::<ScriptState, ScriptEnd>::Next(
                            timing,
                        )
                    }
                },
            }
            &&& timing.request() == Request::Elapsed
            &&& nanos > wait.timeout ==> timing.after(Reply::Nanos(nanos)) == Step::<
                ScriptState,
                ScriptEnd,
            >::Done(Err(Stop::TimedOut(wait.what)))
            &&& nanos <= wait.timeout ==> timing.after(Reply::Nanos(nanos)) == Step::<
                ScriptState,
                ScriptEnd,
            >::Next(sleeping)
            &&& sleeping.request() == Request::Sleep(1)
            &&& sleeping.after(Reply::Done) == Step::<ScriptState, ScriptEnd>::Next(looking)
        }),
{
}

/// What is waited for, in words.
pub proof fn the_waits_are_called_so()
    ensures
        What::Bar0Firewall.text() == "BAR0 firewall"@,
        What::GpuBoot.text() == "GPU boot complete"@,
        What::SwitchBoot.text() == "NVSwitch boot complete"@,
        What::StaleResponse.text() == "stale FSP response"@,
        What::CommandQueue.text() == "FSP command queue empty"@,
        What::Response.text() == "FSP response"@,
        What::MnocReady.text() == "FSP MNOC receive ready"@,
        What::MnocCredits.text() == "FSP MNOC credits"@,
        What::MnocResponse.text() == "FSP MNOC response"@,
{
}

/// A program stands where its state says, and ends in what it hands out.
pub proof fn where_a_program_stands(script: Script, output: Vec<u32>, stop: Stop)
    ensures
        script_step(Step::Next(script)) == Step::<ScriptState, ScriptEnd>::Next(script@),
        script_step(Step::Done(Ok(output))) == Step::<ScriptState, ScriptEnd>::Done(Ok(output@)),
        script_step(Step::Done(Err(stop))) == Step::<ScriptState, ScriptEnd>::Done(Err(stop)),
{
}

} // verus!
