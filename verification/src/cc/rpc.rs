//! Conversations with the FSP: exchanging packets, and reading and writing
//! knobs with them.

use vstd::prelude::*;

use crate::cc::fsp::{
    a_response_is_read_from_the_window, emem_response, head_and_tail_include_each_other,
    mnoc_response, the_mailboxes_are_here, FspError,
};
use crate::cc::fsp::{
    bare, check_read, check_response, check_write, emem_dwords, emem_fetch, emem_fetch_code,
    emem_receive, emem_receive_code, emem_send, emem_send_code, invalid_knob, is_invalid_knob,
    mctp_packet, mnoc_fetch, mnoc_fetch_code, mnoc_receive, mnoc_receive_code, mnoc_send,
    mnoc_send_code, mnoc_words, packet, read_command, read_value, response_payload, rpc_end,
    stale_response, write_command, written, RpcEnd, RpcError, RpcFault, EMEM_BASE, MNOC_ERROR,
    MNOC_INFO_SEND, MNOC_SIZE_MASK, MSGQ_HEAD, MSGQ_TAIL, NVDM_PRC, QUEUE_HEAD, QUEUE_TAIL, SECOND,
};
use crate::cc::script::{
    count_reads, lemma_count_no_reads, lemma_count_reads_append, script_of, Cond, Instr, Script,
    ScriptEnd, ScriptState, Stop, Wait, Way, What,
};
use crate::kernel::{Op, Procedure, Reply, Request, Step};

verus! {

/// One RPC channel to the FSP.  Variant selection is per GPU generation.
#[derive(Clone, Copy, Debug, PartialEq, Eq, Structural)]
pub enum FspRpc {
    /// Hopper and the switches: the EMEM window, channel 2.
    Emem,
    /// Blackwell: the MNOC mailbox, port 0.
    Mnoc,
}

// --- Taking over a channel ---------------------------------------------------

/// What is being done about queues that another client may have left behind.
#[derive(Clone, Copy, Debug, PartialEq, Eq, Structural)]
pub enum ResetPhase {
    /// Looking at the command queue.
    Commands,
    /// Looking at the message queue.
    Messages,
    /// Giving an in-flight command a chance to produce its response.
    Draining,
    /// Pointing both queues back at this channel's EMEM base.
    Rewinding,
}

pub open spec fn reset_code(phase: ResetPhase) -> Seq<Instr> {
    match phase {
        ResetPhase::Commands => seq![Instr::Read(QUEUE_HEAD), Instr::Read(QUEUE_TAIL)],
        ResetPhase::Messages => seq![Instr::Read(MSGQ_HEAD), Instr::Read(MSGQ_TAIL)],
        ResetPhase::Draining => seq![Instr::Await(stale_response())],
        ResetPhase::Rewinding => seq![
            Instr::Write(QUEUE_TAIL, EMEM_BASE),
            Instr::Write(QUEUE_HEAD, EMEM_BASE),
            Instr::Write(MSGQ_TAIL, EMEM_BASE),
            Instr::Write(MSGQ_HEAD, EMEM_BASE),
        ],
    }
}

/// Resets stale queue state left behind by a crashed client.
pub struct ResetQueues {
    phase: ResetPhase,
    script: Script,
}

pub struct ResetState {
    pub phase: ResetPhase,
    pub script: ScriptState,
}

pub open spec fn reset_at(phase: ResetPhase) -> ResetState {
    ResetState { phase, script: script_of(reset_code(phase)) }
}

impl ResetState {
    pub open spec fn well_formed(self) -> bool {
        &&& self.script.well_formed()
        &&& self.script.code == reset_code(self.phase)
    }

    /// Where it goes from the end of a phase: queues that are both empty are
    /// left alone, and a drain in vain does not matter.
    pub open spec fn turn(phase: ResetPhase, end: ScriptEnd) -> Step<ResetState, FspRpc> {
        match (phase, end) {
            (ResetPhase::Commands, Ok(out)) => if out[0] == out[1] {
                Step::Next(reset_at(ResetPhase::Messages))
            } else {
                Step::Next(reset_at(ResetPhase::Draining))
            },
            (ResetPhase::Messages, Ok(out)) => if out[0] == out[1] {
                Step::Done(FspRpc::Emem)
            } else {
                Step::Next(reset_at(ResetPhase::Draining))
            },
            (ResetPhase::Draining, _) => Step::Next(reset_at(ResetPhase::Rewinding)),
            _ => Step::Done(FspRpc::Emem),
        }
    }

    pub open spec fn after(self, reply: Reply) -> Step<ResetState, FspRpc> {
        match self.script.after(reply) {
            Step::Next(script) => Step::Next(ResetState { script, ..self }),
            Step::Done(end) => Self::turn(self.phase, end),
        }
    }
}

impl View for ResetQueues {
    type V = ResetState;

    closed spec fn view(&self) -> ResetState {
        ResetState { phase: self.phase, script: self.script@ }
    }
}

pub open spec fn reset_step(step: Step<ResetQueues, FspRpc>) -> Step<ResetState, FspRpc> {
    match step {
        Step::Next(reset) => Step::Next(reset@),
        Step::Done(rpc) => Step::Done(rpc),
    }
}

proof fn lemma_reset_reads()
    ensures
        count_reads(reset_code(ResetPhase::Commands)) == 2,
        count_reads(reset_code(ResetPhase::Messages)) == 2,
{
    reveal_with_fuel(count_reads, 3);
}

/// Reset the EMEM queues of a device.
pub fn emem_reset_queues() -> (r: ResetQueues)
    ensures
        r@ == reset_at(ResetPhase::Commands),
        r.well_formed(),
{
    ResetQueues::enter(ResetPhase::Commands)
}

impl ResetQueues {
    fn enter(phase: ResetPhase) -> (r: ResetQueues)
        ensures
            r@ == reset_at(phase),
            r@.well_formed(),
    {
        let mut code: Vec<Instr> = Vec::new();
        match phase {
            ResetPhase::Commands => {
                code.push(Instr::Read(QUEUE_HEAD));
                code.push(Instr::Read(QUEUE_TAIL));
            },
            ResetPhase::Messages => {
                code.push(Instr::Read(MSGQ_HEAD));
                code.push(Instr::Read(MSGQ_TAIL));
            },
            ResetPhase::Draining => {
                code.push(
                    Instr::Await(
                        Wait {
                            what: What::StaleResponse,
                            cond: Cond::Differ(MSGQ_HEAD, MSGQ_TAIL),
                            timeout: 5 * SECOND,
                        },
                    ),
                );
            },
            ResetPhase::Rewinding => {
                code.push(Instr::Write(QUEUE_TAIL, EMEM_BASE));
                code.push(Instr::Write(QUEUE_HEAD, EMEM_BASE));
                code.push(Instr::Write(MSGQ_TAIL, EMEM_BASE));
                code.push(Instr::Write(MSGQ_HEAD, EMEM_BASE));
            },
        }
        assert(code@ =~= reset_code(phase));
        ResetQueues { phase, script: Script::new(code) }
    }
}

impl Procedure for ResetQueues {
    type Output = FspRpc;

    open spec fn well_formed(&self) -> bool {
        self@.well_formed()
    }

    open spec fn request(&self) -> Request {
        self@.script.request()
    }

    fn op(&self) -> (op: Op) {
        let ghost _now = (self.well_formed(), self.request());
        self.script.op()
    }

    fn resume(self, reply: Reply) -> (step: Step<Self, Self::Output>)
        ensures
            reset_step(step) == self@.after(reply),
    {
        let ghost _now = (self.well_formed(), self.request());
        proof {
            lemma_reset_reads();
        }
        let phase: ResetPhase = self.phase;
        match self.script.resume(reply) {
            Step::Next(script) => Step::Next(ResetQueues { phase, script }),
            Step::Done(end) => match (phase, end) {
                (ResetPhase::Commands, Ok(out)) => if out[0] == out[1] {
                    Step::Next(ResetQueues::enter(ResetPhase::Messages))
                } else {
                    Step::Next(ResetQueues::enter(ResetPhase::Draining))
                },
                (ResetPhase::Messages, Ok(out)) => if out[0] == out[1] {
                    Step::Done(FspRpc::Emem)
                } else {
                    Step::Next(ResetQueues::enter(ResetPhase::Draining))
                },
                (ResetPhase::Draining, _) => Step::Next(ResetQueues::enter(ResetPhase::Rewinding)),
                _ => Step::Done(FspRpc::Emem),
            },
        }
    }
}

// --- Exchanging a packet -----------------------------------------------------

/// How far an exchange has come.
#[derive(Clone, Copy, Debug, PartialEq, Eq, Structural)]
pub enum Phase {
    /// Sending the command and waiting for the response.
    Sending,
    /// Finding out why no response came.
    Blaming,
    /// Fetching the response.
    Fetching,
}

/// One command and its response.
pub struct Exchange {
    rpc: FspRpc,
    phase: Phase,
    script: Script,
}

pub struct ExchangeState {
    pub rpc: FspRpc,
    pub phase: Phase,
    pub script: ScriptState,
}

/// Sending `data` and waiting for what comes back.
pub open spec fn exchange_code(rpc: FspRpc, data: Seq<u32>) -> Seq<Instr> {
    match rpc {
        FspRpc::Emem => emem_send_code(data) + emem_receive_code(),
        FspRpc::Mnoc => mnoc_send_code(data) + mnoc_receive_code(),
    }
}

/// The exchange of the PRC command `payload`, about to start.
pub open spec fn exchange_of(rpc: FspRpc, payload: Seq<u32>) -> ExchangeState {
    ExchangeState {
        rpc,
        phase: Phase::Sending,
        script: script_of(exchange_code(rpc, packet(NVDM_PRC, payload))),
    }
}

pub open spec fn stop_fault(stop: Stop) -> RpcFault {
    match stop {
        Stop::TimedOut(what) => RpcFault::TimedOut(what),
        Stop::ErrorBit(way, info) => RpcFault::Mnoc(way, info),
    }
}

impl ExchangeState {
    /// What the fetching of a response starts from.
    pub open spec fn places(rpc: FspRpc) -> nat {
        match rpc {
            FspRpc::Emem => 2,
            FspRpc::Mnoc => 1,
        }
    }

    pub open spec fn well_formed(self) -> bool {
        &&& self.script.well_formed()
        &&& self.phase == Phase::Sending ==> count_reads(self.script.code) == Self::places(
            self.rpc,
        )
        &&& self.phase == Phase::Blaming ==> count_reads(self.script.code) == 1
    }

    /// Fetching the response that `out` announces, if it is not too large.
    pub open spec fn fetch(rpc: FspRpc, out: Seq<u32>) -> Step<ExchangeState, RpcEnd> {
        let code = match rpc {
            FspRpc::Emem => if emem_dwords(out[0], out[1]) > 256 {
                Err(RpcFault::ResponseTooLarge)
            } else {
                Ok(emem_fetch_code(out[0], out[1]))
            },
            FspRpc::Mnoc => if out[0] & MNOC_SIZE_MASK > 1024 {
                Err(RpcFault::MnocResponseTooLarge(out[0] & MNOC_SIZE_MASK))
            } else {
                Ok(mnoc_fetch_code(out[0]))
            },
        };
        match code {
            Ok(code) => Step::Next(
                ExchangeState { rpc, phase: Phase::Fetching, script: script_of(code) },
            ),
            Err(fault) => Step::Done(Err((fault, seq![]))),
        }
    }

    pub open spec fn turn(rpc: FspRpc, phase: Phase, end: ScriptEnd) -> Step<
        ExchangeState,
        RpcEnd,
    > {
        match (phase, end) {
            (Phase::Sending, Ok(out)) => Self::fetch(rpc, out),
            (Phase::Blaming, Ok(out)) => if out[0] & MNOC_ERROR != 0 {
                Step::Done(Err((RpcFault::Mnoc(Way::Receive, out[0]), seq![])))
            } else {
                Step::Done(Err((RpcFault::TimedOut(What::MnocResponse), seq![])))
            },
            (Phase::Fetching, Ok(out)) => Step::Done(response_payload(out)),
            (Phase::Sending, Err(Stop::TimedOut(What::MnocResponse))) => Step::Next(
                ExchangeState {
                    rpc,
                    phase: Phase::Blaming,
                    script: script_of(seq![Instr::Read(MNOC_INFO_SEND)]),
                },
            ),
            (_, Err(stop)) => Step::Done(Err((stop_fault(stop), seq![]))),
        }
    }

    pub open spec fn after(self, reply: Reply) -> Step<ExchangeState, RpcEnd> {
        match self.script.after(reply) {
            Step::Next(script) => Step::Next(ExchangeState { script, ..self }),
            Step::Done(end) => Self::turn(self.rpc, self.phase, end),
        }
    }
}

impl View for Exchange {
    type V = ExchangeState;

    closed spec fn view(&self) -> ExchangeState {
        ExchangeState { rpc: self.rpc, phase: self.phase, script: self.script@ }
    }
}

pub open spec fn exchange_step(step: Step<Exchange, Result<Vec<u32>, RpcError>>) -> Step<
    ExchangeState,
    RpcEnd,
> {
    match step {
        Step::Next(exchange) => Step::Next(exchange@),
        Step::Done(r) => Step::Done(rpc_end(r)),
    }
}

proof fn lemma_mnoc_words_read_nothing(data: Seq<u32>)
    ensures
        forall|i: int| 0 <= i < mnoc_words(data).len() ==> !(#[trigger] mnoc_words(data)[i] is Read),
    decreases data.len(),
{
    if data.len() > 0 {
        lemma_mnoc_words_read_nothing(data.drop_last());
    }
}

proof fn lemma_exchange_reads(rpc: FspRpc, data: Seq<u32>)
    ensures
        count_reads(exchange_code(rpc, data)) == ExchangeState::places(rpc),
        exchange_code(rpc, data).len() > 0,
{
    reveal_with_fuel(count_reads, 4);
    match rpc {
        FspRpc::Emem => {
            lemma_count_no_reads(emem_send_code(data));
            lemma_count_reads_append(emem_send_code(data), emem_receive_code());
        },
        FspRpc::Mnoc => {
            lemma_mnoc_words_read_nothing(data);
            assert forall|i: int| 0 <= i < mnoc_send_code(data).len() implies !(
            #[trigger] mnoc_send_code(data)[i] is Read) by {
                let n = mnoc_words(data).len();
                if 2 <= i < 2 + n {
                    assert(mnoc_send_code(data)[i] == mnoc_words(data)[i - 2]);
                }
            }
            lemma_count_no_reads(mnoc_send_code(data));
            lemma_count_reads_append(mnoc_send_code(data), mnoc_receive_code());
        },
    }
}

impl Exchange {
    /// Send a PRC command.
    pub fn prc_cmd(rpc: FspRpc, payload: &[u32]) -> (r: Result<Exchange, RpcFault>)
        requires
            rpc == FspRpc::Mnoc ==> (payload.len() + 2) * 4 <= u32::MAX,
        ensures
            match r {
                Ok(exchange) => {
                    &&& exchange@ == exchange_of(rpc, payload@)
                    &&& exchange.well_formed()
                    &&& rpc == FspRpc::Emem ==> payload.len() + 2 <= 256
                },
                Err(fault) => {
                    &&& fault == RpcFault::CommandTooLarge
                    &&& rpc == FspRpc::Emem
                    &&& payload.len() + 2 > 256
                },
            },
    {
        let data: Vec<u32> = mctp_packet(NVDM_PRC, payload);
        proof {
            lemma_exchange_reads(rpc, data@);
        }
        let mut code: Vec<Instr> = match rpc {
            FspRpc::Emem => match emem_send(&data) {
                Ok(code) => code,
                Err(fault) => return Err(fault),
            },
            FspRpc::Mnoc => mnoc_send(&data),
        };
        match rpc {
            FspRpc::Emem => emem_receive(&mut code),
            FspRpc::Mnoc => mnoc_receive(&mut code),
        }
        Ok(Exchange { rpc, phase: Phase::Sending, script: Script::new(code) })
    }

    fn fetch(rpc: FspRpc, out: Vec<u32>) -> (step: Step<Exchange, Result<Vec<u32>, RpcError>>)
        requires
            out.len() == ExchangeState::places(rpc),
        ensures
            exchange_step(step) == ExchangeState::fetch(rpc, out@),
            step matches Step::Next(next) ==> next.well_formed(),
    {
        let code: Result<Vec<Instr>, RpcFault> = match rpc {
            FspRpc::Emem => emem_fetch(out[0], out[1]),
            FspRpc::Mnoc => mnoc_fetch(out[0]),
        };
        match code {
            Ok(code) => Step::Next(
                Exchange { rpc, phase: Phase::Fetching, script: Script::new(code) },
            ),
            Err(fault) => Step::Done(Err(bare(fault))),
        }
    }
}

impl Procedure for Exchange {
    type Output = Result<Vec<u32>, RpcError>;

    open spec fn well_formed(&self) -> bool {
        self@.well_formed()
    }

    open spec fn request(&self) -> Request {
        self@.script.request()
    }

    fn op(&self) -> (op: Op) {
        let ghost _now = (self.well_formed(), self.request());
        self.script.op()
    }

    fn resume(self, reply: Reply) -> (step: Step<Self, Self::Output>)
        ensures
            exchange_step(step) == self@.after(reply),
    {
        let ghost _now = (self.well_formed(), self.request());
        let rpc: FspRpc = self.rpc;
        let phase: Phase = self.phase;
        match self.script.resume(reply) {
            Step::Next(script) => Step::Next(Exchange { rpc, phase, script }),
            Step::Done(end) => match (phase, end) {
                (Phase::Sending, Ok(out)) => Exchange::fetch(rpc, out),
                (Phase::Blaming, Ok(out)) => if out[0] & MNOC_ERROR != 0 {
                    Step::Done(Err(bare(RpcFault::Mnoc(Way::Receive, out[0]))))
                } else {
                    Step::Done(
                        Err(bare(RpcFault::TimedOut(What::MnocResponse))),
                    )
                },
                (Phase::Fetching, Ok(out)) => Step::Done(check_response(out)),
                (Phase::Sending, Err(Stop::TimedOut(What::MnocResponse))) => {
                    let mut code: Vec<Instr> = Vec::new();
                    code.push(Instr::Read(MNOC_INFO_SEND));
                    assert(code@ =~= seq![Instr::Read(MNOC_INFO_SEND)]);
                    assert(count_reads(code@) == 1) by {
                        reveal_with_fuel(count_reads, 2);
                    }
                    Step::Next(Exchange { rpc, phase: Phase::Blaming, script: Script::new(code) })
                },
                (_, Err(Stop::TimedOut(what))) => Step::Done(
                    Err(bare(RpcFault::TimedOut(what))),
                ),
                (_, Err(Stop::ErrorBit(way, info))) => Step::Done(
                    Err(bare(RpcFault::Mnoc(way, info))),
                ),
            },
        }
    }
}

// --- Knobs -------------------------------------------------------------------

/// Something to do with one knob.
#[derive(Clone, Copy, Debug, PartialEq, Eq, Structural)]
pub enum KnobOp {
    /// Read it.
    Read(u32),
    /// Write it.
    Write(u32, u16),
    /// Read it, and write it unless it is already at the value asked for:
    /// knobs live in flash.
    Ensure(u32, u16),
    /// Read it, and write it back to 0 unless it is there already or the
    /// firmware does not have it.
    ClearIfKnown(u32),
    /// Read it to find out whether the firmware knows PPCIE.
    Probe(u32),
}

impl KnobOp {
    pub open spec fn knob(self) -> u32 {
        match self {
            KnobOp::Read(knob) => knob,
            KnobOp::Write(knob, _) => knob,
            KnobOp::Ensure(knob, _) => knob,
            KnobOp::ClearIfKnown(knob) => knob,
            KnobOp::Probe(knob) => knob,
        }
    }

    /// The value it may come to write.
    pub open spec fn value(self) -> u16 {
        match self {
            KnobOp::Write(_, value) => value,
            KnobOp::Ensure(_, value) => value,
            _ => 0,
        }
    }

    /// Whether it starts out writing rather than reading.
    pub open spec fn writes_at_once(self) -> bool {
        self is Write
    }

    fn target(self) -> (r: (u32, u16))
        ensures
            r == (self.knob(), self.value()),
    {
        match self {
            KnobOp::Read(knob) => (knob, 0),
            KnobOp::Write(knob, value) => (knob, value),
            KnobOp::Ensure(knob, value) => (knob, value),
            KnobOp::ClearIfKnown(knob) => (knob, 0),
            KnobOp::Probe(knob) => (knob, 0),
        }
    }
}

/// What a knob operation comes to: the value where it was asked for, and
/// nothing where it was not.
pub type KnobEnd = Result<Option<u16>, (RpcFault, Seq<u32>)>;

pub open spec fn knob_end(r: Result<Option<u16>, RpcError>) -> KnobEnd {
    match r {
        Ok(value) => Ok(value),
        Err(err) => Err((err.fault, err.words@)),
    }
}

/// A knob operation under way.
pub struct KnobJob {
    rpc: FspRpc,
    op: KnobOp,
    writing: bool,
    exchange: Exchange,
}

pub struct KnobState {
    pub rpc: FspRpc,
    pub op: KnobOp,
    /// Whether the write is under way, and not the read.
    pub writing: bool,
    pub exchange: ExchangeState,
}

/// The reading or the writing half of a knob operation, about to start.
pub open spec fn knob_at(rpc: FspRpc, op: KnobOp, writing: bool) -> KnobState {
    KnobState {
        rpc,
        op,
        writing,
        exchange: exchange_of(
            rpc,
            if writing {
                write_command(op.knob(), op.value())
            } else {
                read_command(op.knob())
            },
        ),
    }
}

/// A knob operation about to start.
pub open spec fn knob_of(rpc: FspRpc, op: KnobOp) -> KnobState {
    knob_at(rpc, op, op.writes_at_once())
}

impl KnobState {
    pub open spec fn well_formed(self) -> bool {
        self.exchange.well_formed()
    }

    /// Where it goes once the knob was read.
    pub open spec fn after_read(
        rpc: FspRpc,
        op: KnobOp,
        read: Result<u16, (RpcFault, Seq<u32>)>,
    ) -> Step<KnobState, KnobEnd> {
        match (op, read) {
            (KnobOp::Read(_), Ok(value)) => Step::Done(Ok(Some(value))),
            (KnobOp::Probe(_), Ok(_)) => Step::Done(Ok(None)),
            (_, Ok(value)) => if value == op.value() {
                Step::Done(Ok(None))
            } else {
                Step::Next(knob_at(rpc, op, true))
            },
            (KnobOp::ClearIfKnown(_), Err(err)) => if invalid_knob(err.0) {
                Step::Done(Ok(None))
            } else {
                Step::Done(Err(err))
            },
            (KnobOp::Probe(_), Err(err)) => if invalid_knob(err.0) {
                Step::Done(Err((RpcFault::NoPpcie, seq![])))
            } else {
                Step::Done(Err(err))
            },
            (_, Err(err)) => Step::Done(Err(err)),
        }
    }

    /// The command whose response is waited for.
    pub open spec fn command(self) -> Seq<u32> {
        if self.writing {
            write_command(self.op.knob(), self.op.value())
        } else {
            read_command(self.op.knob())
        }
    }

    /// Where it goes once the exchange has come to `end`.
    pub open spec fn exchanged(self, end: RpcEnd) -> Step<KnobState, KnobEnd> {
        if self.writing {
            match written(self.op.knob(), end) {
                Ok(()) => Step::Done(Ok(None)),
                Err(err) => Step::Done(Err(err)),
            }
        } else {
            Self::after_read(self.rpc, self.op, read_value(self.op.knob(), end))
        }
    }

    pub open spec fn after(self, reply: Reply) -> Step<KnobState, KnobEnd> {
        match self.exchange.after(reply) {
            Step::Next(exchange) => Step::Next(KnobState { exchange, ..self }),
            Step::Done(end) => self.exchanged(end),
        }
    }
}

impl View for KnobJob {
    type V = KnobState;

    closed spec fn view(&self) -> KnobState {
        KnobState {
            rpc: self.rpc,
            op: self.op,
            writing: self.writing,
            exchange: self.exchange@,
        }
    }
}

pub open spec fn knob_step(step: Step<KnobJob, Result<Option<u16>, RpcError>>) -> Step<
    KnobState,
    KnobEnd,
> {
    match step {
        Step::Next(job) => Step::Next(job@),
        Step::Done(r) => Step::Done(knob_end(r)),
    }
}

impl KnobJob {
    fn enter(rpc: FspRpc, op: KnobOp, writing: bool) -> (r: KnobJob)
        ensures
            r@ == knob_at(rpc, op, writing),
            r@.well_formed(),
    {
        let (knob, value): (u32, u16) = op.target();
        let mut payload: Vec<u32> = Vec::new();
        if writing {
            payload.push(0xd | 0x2u32 << 8 | knob << 16);
            payload.push(value as u32);
            assert(payload@ =~= write_command(knob, value));
        } else {
            payload.push(0xc | 0x2u32 << 8 | knob << 16);
            assert(payload@ =~= read_command(knob));
        }
        KnobJob { rpc, op, writing, exchange: Exchange::prc_cmd(rpc, &payload).unwrap() }
    }

    pub fn new(rpc: FspRpc, op: KnobOp) -> (r: KnobJob)
        ensures
            r@ == knob_of(rpc, op),
            r.well_formed(),
    {
        match op {
            KnobOp::Write(_, _) => KnobJob::enter(rpc, op, true),
            _ => KnobJob::enter(rpc, op, false),
        }
    }

    fn after_read(rpc: FspRpc, op: KnobOp, read: Result<u16, RpcError>) -> (step: Step<
        KnobJob,
        Result<Option<u16>, RpcError>,
    >)
        ensures
            knob_step(step) == KnobState::after_read(
                rpc,
                op,
                match read {
                    Ok(value) => Ok(value),
                    Err(err) => Err((err.fault, err.words@)),
                },
            ),
            step matches Step::Next(next) ==> next.well_formed(),
    {
        match read {
            Ok(read) => match op {
                KnobOp::Read(_) => Step::Done(Ok(Some(read))),
                KnobOp::Probe(_) => Step::Done(Ok(None)),
                _ => {
                    let (_, value): (u32, u16) = op.target();
                    if read == value {
                        Step::Done(Ok(None))
                    } else {
                        Step::Next(KnobJob::enter(rpc, op, true))
                    }
                },
            },
            Err(err) => match op {
                KnobOp::ClearIfKnown(_) => if is_invalid_knob(&err) {
                    Step::Done(Ok(None))
                } else {
                    Step::Done(Err(err))
                },
                KnobOp::Probe(_) => if is_invalid_knob(&err) {
                    Step::Done(Err(bare(RpcFault::NoPpcie)))
                } else {
                    Step::Done(Err(err))
                },
                _ => Step::Done(Err(err)),
            },
        }
    }
}

impl Procedure for KnobJob {
    type Output = Result<Option<u16>, RpcError>;

    open spec fn well_formed(&self) -> bool {
        self@.well_formed()
    }

    open spec fn request(&self) -> Request {
        self@.exchange.script.request()
    }

    fn op(&self) -> (op: Op) {
        let ghost _now = (self.well_formed(), self.request());
        self.exchange.op()
    }

    fn resume(self, reply: Reply) -> (step: Step<Self, Self::Output>)
        ensures
            knob_step(step) == self@.after(reply),
    {
        let ghost _now = (self.well_formed(), self.request());
        let rpc: FspRpc = self.rpc;
        let op: KnobOp = self.op;
        let writing: bool = self.writing;
        match self.exchange.resume(reply) {
            Step::Next(exchange) => Step::Next(KnobJob { rpc, op, writing, exchange }),
            Step::Done(end) => {
                let (knob, _): (u32, u16) = op.target();
                if writing {
                    match check_write(knob, end) {
                        Ok(()) => Step::Done(Ok(None)),
                        Err(err) => Step::Done(Err(err)),
                    }
                } else {
                    KnobJob::after_read(rpc, op, check_read(knob, end))
                }
            },
        }
    }
}

impl FspRpc {
    /// Hopper: EMEM channel 2.  Resets stale queue state left behind by a
    /// crashed client before first use.
    pub fn emem() -> (r: ResetQueues)
        ensures
            r@ == reset_at(ResetPhase::Commands),
            r.well_formed(),
    {
        emem_reset_queues()
    }

    /// Blackwell: MNOC port 0.
    pub fn mnoc() -> (r: FspRpc)
        ensures
            r == FspRpc::Mnoc,
    {
        FspRpc::Mnoc
    }

    pub fn knob_read(&self, knob: u32) -> (r: KnobJob)
        ensures
            r@ == knob_of(*self, KnobOp::Read(knob)),
            r.well_formed(),
    {
        KnobJob::new(*self, KnobOp::Read(knob))
    }

    pub fn knob_write(&self, knob: u32, value: u16) -> (r: KnobJob)
        ensures
            r@ == knob_of(*self, KnobOp::Write(knob, value)),
            r.well_formed(),
    {
        KnobJob::new(*self, KnobOp::Write(knob, value))
    }

    pub fn knob_check_and_write(&self, knob: u32, value: u16) -> (r: KnobJob)
        ensures
            r@ == knob_of(*self, KnobOp::Ensure(knob, value)),
            r.well_formed(),
    {
        KnobJob::new(*self, KnobOp::Ensure(knob, value))
    }
}

// --- Plans -------------------------------------------------------------------

/// What a plan comes to.
pub type PlanEnd = Result<(), (RpcFault, Seq<u32>)>;

pub open spec fn plan_end(r: Result<(), RpcError>) -> PlanEnd {
    match r {
        Ok(()) => Ok(()),
        Err(err) => Err((err.fault, err.words@)),
    }
}

/// Knob operations one after the other, up to the first that fails.
pub struct PlanJob {
    rpc: FspRpc,
    plan: Vec<KnobOp>,
    at: usize,
    job: KnobJob,
}

pub struct PlanState {
    pub rpc: FspRpc,
    pub plan: Seq<KnobOp>,
    /// The operation under way.
    pub at: int,
    pub job: KnobState,
}

pub open spec fn plan_at(rpc: FspRpc, plan: Seq<KnobOp>, at: int) -> PlanState {
    PlanState { rpc, plan, at, job: knob_of(rpc, plan[at]) }
}

impl PlanState {
    pub open spec fn well_formed(self) -> bool {
        &&& 0 <= self.at < self.plan.len()
        &&& self.job.well_formed()
    }

    /// Where it goes once the operation has come to `end`.
    pub open spec fn turned(self, end: KnobEnd) -> Step<PlanState, PlanEnd> {
        match end {
            Err(err) => Step::Done(Err(err)),
            Ok(_) => if self.at + 1 == self.plan.len() {
                Step::Done(Ok(()))
            } else {
                Step::Next(plan_at(self.rpc, self.plan, self.at + 1))
            },
        }
    }

    pub open spec fn after(self, reply: Reply) -> Step<PlanState, PlanEnd> {
        match self.job.after(reply) {
            Step::Next(job) => Step::Next(PlanState { job, ..self }),
            Step::Done(end) => self.turned(end),
        }
    }
}

impl View for PlanJob {
    type V = PlanState;

    closed spec fn view(&self) -> PlanState {
        PlanState { rpc: self.rpc, plan: self.plan@, at: self.at as int, job: self.job@ }
    }
}

pub open spec fn plan_step(step: Step<PlanJob, Result<(), RpcError>>) -> Step<PlanState, PlanEnd> {
    match step {
        Step::Next(job) => Step::Next(job@),
        Step::Done(r) => Step::Done(plan_end(r)),
    }
}

impl PlanJob {
    pub fn new(rpc: FspRpc, plan: Vec<KnobOp>) -> (r: PlanJob)
        requires
            plan.len() > 0,
        ensures
            r@ == plan_at(rpc, plan@, 0),
            r.well_formed(),
    {
        let job: KnobJob = KnobJob::new(rpc, plan[0]);
        PlanJob { rpc, plan, at: 0, job }
    }
}

impl Procedure for PlanJob {
    type Output = Result<(), RpcError>;

    open spec fn well_formed(&self) -> bool {
        self@.well_formed()
    }

    open spec fn request(&self) -> Request {
        self@.job.exchange.script.request()
    }

    fn op(&self) -> (op: Op) {
        let ghost _now = (self.well_formed(), self.request());
        self.job.op()
    }

    fn resume(self, reply: Reply) -> (step: Step<Self, Self::Output>)
        ensures
            plan_step(step) == self@.after(reply),
    {
        let ghost _now = (self.well_formed(), self.request());
        let rpc: FspRpc = self.rpc;
        let at: usize = self.at;
        let plan: Vec<KnobOp> = self.plan;
        match self.job.resume(reply) {
            Step::Next(job) => Step::Next(PlanJob { rpc, plan, at, job }),
            Step::Done(Err(err)) => Step::Done(Err(err)),
            Step::Done(Ok(_)) => {
                let last: usize = plan.len() - 1;
                if at == last {
                    Step::Done(Ok(()))
                } else {
                    let job: KnobJob = KnobJob::new(rpc, plan[at + 1]);
                    Step::Next(PlanJob { rpc, plan, at: at + 1, job })
                }
            },
        }
    }
}

// --- What is refused ---------------------------------------------------------

/// A response is fetched where it is announced with 256 dwords or 1024 bytes at
/// most, and refused as too large where with more.
pub proof fn only_what_is_too_large_is_not_fetched(head: u32, n: u32, info: u32)
    requires
        n >= 1,
        head + (n - 1) * 4 <= u32::MAX,
    ensures
        ({
            let out = seq![head, (head + (n - 1) * 4) as u32];
            let step = ExchangeState::fetch(FspRpc::Emem, out);
            &&& n <= 256 ==> (step matches Step::Next(next) && next.phase == Phase::Fetching
                && next.rpc == FspRpc::Emem && next.script.code.len() == n + 2)
            &&& n > 256 ==> step == Step::<ExchangeState, RpcEnd>::Done(
                Err((RpcFault::ResponseTooLarge, seq![])),
            )
        }),
        ({
            let bytes = info % 0x10_0000;
            let step = ExchangeState::fetch(FspRpc::Mnoc, seq![info]);
            &&& bytes <= 1024 ==> (step matches Step::Next(next) && next.phase == Phase::Fetching
                && next.rpc == FspRpc::Mnoc && next.script.code.len() == bytes / 4 + 1)
            &&& bytes > 1024 ==> step == Step::<ExchangeState, RpcEnd>::Done(
                Err((RpcFault::MnocResponseTooLarge(bytes), seq![])),
            )
        }),
{
    head_and_tail_include_each_other(head, n);
    if n <= 256 {
        a_response_is_read_from_the_window(head, n, 0);
    }
    assert(info & 0xf_ffff == info % 0x10_0000) by (bit_vector);
}

/// A program that stops is told by what was waited for in vain or by the bit
/// that was set. Only an MNOC response that does not come is looked into first:
/// a mailbox that has failed is then told as that.
pub proof fn a_failed_exchange_says_why(
    rpc: FspRpc,
    phase: Phase,
    what: What,
    way: Way,
    info: u32,
)
    ensures
        !(phase == Phase::Sending && what == What::MnocResponse) ==> ExchangeState::turn(
            rpc,
            phase,
            Err(Stop::TimedOut(what)),
        ) == Step::<ExchangeState, RpcEnd>::Done(Err((RpcFault::TimedOut(what), seq![]))),
        ExchangeState::turn(rpc, phase, Err(Stop::ErrorBit(way, info))) == Step::<
            ExchangeState,
            RpcEnd,
        >::Done(Err((RpcFault::Mnoc(way, info), seq![]))),
        ExchangeState::turn(rpc, Phase::Sending, Err(Stop::TimedOut(What::MnocResponse)))
            matches Step::Next(next) && next.phase == Phase::Blaming && next.script.code == seq![
            Instr::Read(0x8f1f04),
        ],
        ExchangeState::turn(rpc, Phase::Blaming, Ok(seq![info])) == Step::<
            ExchangeState,
            RpcEnd,
        >::Done(
            Err(
                if info & 0x200_0000 != 0 {
                    (RpcFault::Mnoc(Way::Receive, info), seq![])
                } else {
                    (RpcFault::TimedOut(What::MnocResponse), seq![])
                },
            ),
        ),
{
    the_mailboxes_are_here();
}

/// A read comes to the value, a probe to nothing; a knob is written where it is
/// not at the value asked for, and only then. Firmware that does not have a knob
/// answers with code 1e3: that is nothing to clear, and no PPCIE to probe, but a
/// failure of everything else.
pub proof fn a_read_decides_what_is_done(
    rpc: FspRpc,
    knob: u32,
    asked: u16,
    found: u16,
    words: Seq<u32>,
)
    ensures
        ({
            let unknown = Err::<u16, (RpcFault, Seq<u32>)>(
                (RpcFault::Completion(FspError { code: 0x1e3 }), words),
            );
            let read = KnobOp::Read(knob);
            let probe = KnobOp::Probe(knob);
            let ensure = KnobOp::Ensure(knob, asked);
            let clear = KnobOp::ClearIfKnown(knob);
            let set = KnobState {
                rpc,
                op: ensure,
                writing: true,
                exchange: exchange_of(rpc, write_command(knob, asked)),
            };
            let cleared = KnobState {
                rpc,
                op: clear,
                writing: true,
                exchange: exchange_of(rpc, write_command(knob, 0)),
            };
            let nothing = Step::<KnobState, KnobEnd>::Done(Ok(None));
            &&& KnobState::after_read(rpc, read, Ok(found)) == Step::<KnobState, KnobEnd>::Done(
                Ok(Some(found)),
            )
            &&& KnobState::after_read(rpc, probe, Ok(found)) == nothing
            &&& KnobState::after_read(rpc, ensure, Ok(found)) == if found == asked {
                nothing
            } else {
                Step::Next(set)
            }
            &&& KnobState::after_read(rpc, clear, Ok(found)) == if found == 0 {
                nothing
            } else {
                Step::Next(cleared)
            }
            &&& KnobState::after_read(rpc, clear, unknown) == nothing
            &&& KnobState::after_read(rpc, probe, unknown) == Step::<KnobState, KnobEnd>::Done(
                Err((RpcFault::NoPpcie, seq![])),
            )
            &&& KnobState::after_read(rpc, read, unknown) == Step::<KnobState, KnobEnd>::Done(
                Err(unknown->Err_0),
            )
            &&& KnobState::after_read(rpc, ensure, unknown) == Step::<KnobState, KnobEnd>::Done(
                Err(unknown->Err_0),
            )
        }),
{
}

/// A plan goes on to the next operation where one went through, ends after the
/// last, and ends with the fault of the first that did not.
pub proof fn a_plan_is_worked_through(
    plan: PlanState,
    value: Option<u16>,
    fault: (RpcFault, Seq<u32>),
)
    requires
        0 <= plan.at < plan.plan.len(),
    ensures
        plan.turned(Err(fault)) == Step::<PlanState, PlanEnd>::Done(Err(fault)),
        plan.at == plan.plan.len() - 1 ==> plan.turned(Ok(value)) == Step::<
            PlanState,
            PlanEnd,
        >::Done(Ok(())),
        plan.at < plan.plan.len() - 1 ==> (plan.turned(Ok(value)) matches Step::Next(next)
            && next.at == plan.at + 1 && next.plan == plan.plan && next.rpc == plan.rpc
            && next.job.op == plan.plan[plan.at + 1] && next.job.writing == (plan.plan[plan.at
            + 1] is Write)),
{
}

/// What is sent for a knob: a read of it first, or where it is only to be written
/// its write; in a PRC message, through the channel asked for.
pub proof fn a_knob_is_asked_for_first(rpc: FspRpc, knob: u32, value: u16)
    ensures
        knob_of(rpc, KnobOp::Read(knob)).exchange == exchange_of(rpc, read_command(knob)),
        knob_of(rpc, KnobOp::Probe(knob)).exchange == exchange_of(rpc, read_command(knob)),
        knob_of(rpc, KnobOp::Ensure(knob, value)).exchange == exchange_of(rpc, read_command(knob)),
        knob_of(rpc, KnobOp::ClearIfKnown(knob)).exchange == exchange_of(rpc, read_command(knob)),
        knob_of(rpc, KnobOp::Write(knob, value)).exchange == exchange_of(
            rpc,
            write_command(knob, value),
        ),
        exchange_of(FspRpc::Emem, read_command(knob)).script == script_of(
            emem_send_code(packet(0x13, read_command(knob))) + seq![
                Instr::Await(emem_response()),
                Instr::Read(0x8f2c90),
                Instr::Read(0x8f2c94),
            ],
        ),
        exchange_of(FspRpc::Mnoc, read_command(knob)).script == script_of(
            mnoc_send_code(packet(0x13, read_command(knob))) + seq![
                Instr::Await(mnoc_response()),
                Instr::Read(0x8f1f04),
            ],
        ),
        forall|payload: Seq<u32>|
            (#[trigger] exchange_of(rpc, payload)).phase == Phase::Sending && exchange_of(
                rpc,
                payload,
            ).rpc == rpc && exchange_of(rpc, payload).script.code == exchange_code(
                rpc,
                packet(0x13, payload),
            ),
{
    the_mailboxes_are_here();
}

/// A channel is taken over as it is where both its queues are empty; where one is
/// not, a response is waited for, in vain or not, and all four pointers are then
/// put to the start of the window.
pub proof fn queues_that_are_not_empty_are_put_back(end: ScriptEnd, head: u32, tail: u32)
    ensures
        reset_code(ResetPhase::Commands) == seq![Instr::Read(0x8f2c10), Instr::Read(0x8f2c14)],
        reset_code(ResetPhase::Messages) == seq![Instr::Read(0x8f2c90), Instr::Read(0x8f2c94)],
        ResetState::turn(ResetPhase::Commands, Ok(seq![head, tail])) == Step::<
            ResetState,
            FspRpc,
        >::Next(
            if head == tail {
                reset_at(ResetPhase::Messages)
            } else {
                reset_at(ResetPhase::Draining)
            },
        ),
        ResetState::turn(ResetPhase::Messages, Ok(seq![head, tail])) == if head == tail {
            Step::<ResetState, FspRpc>::Done(FspRpc::Emem)
        } else {
            Step::Next(reset_at(ResetPhase::Draining))
        },
        ResetState::turn(ResetPhase::Draining, end) == Step::<ResetState, FspRpc>::Next(
            reset_at(ResetPhase::Rewinding),
        ),
        ResetState::turn(ResetPhase::Rewinding, end) == Step::<ResetState, FspRpc>::Done(
            FspRpc::Emem,
        ),
        reset_code(ResetPhase::Rewinding) == seq![
            Instr::Write(0x8f2c14, 2048),
            Instr::Write(0x8f2c10, 2048),
            Instr::Write(0x8f2c94, 2048),
            Instr::Write(0x8f2c90, 2048),
        ],
{
    the_mailboxes_are_here();
}

/// A conversation stands where its state says, and ends in what it hands out.
pub proof fn where_a_conversation_stands(
    reset: ResetQueues,
    exchange: Exchange,
    knob: KnobJob,
    plan: PlanJob,
    rpc: FspRpc,
    payload: Vec<u32>,
    value: Option<u16>,
    err: RpcError,
)
    ensures
        reset_step(Step::Next(reset)) == Step::<ResetState, FspRpc>::Next(reset@),
        reset_step(Step::Done(rpc)) == Step::<ResetState, FspRpc>::Done(rpc),
        exchange_step(Step::Next(exchange)) == Step::<ExchangeState, RpcEnd>::Next(exchange@),
        exchange_step(Step::Done(Ok(payload))) == Step::<ExchangeState, RpcEnd>::Done(
            Ok(payload@),
        ),
        exchange_step(Step::Done(Err(err))) == Step::<ExchangeState, RpcEnd>::Done(
            Err((err.fault, err.words@)),
        ),
        knob_step(Step::Next(knob)) == Step::<KnobState, KnobEnd>::Next(knob@),
        knob_step(Step::Done(Ok(value))) == Step::<KnobState, KnobEnd>::Done(Ok(value)),
        knob_step(Step::Done(Err(err))) == Step::<KnobState, KnobEnd>::Done(
            Err((err.fault, err.words@)),
        ),
        plan_step(Step::Next(plan)) == Step::<PlanState, PlanEnd>::Next(plan@),
        plan_step(Step::Done(Ok(()))) == Step::<PlanState, PlanEnd>::Done(Ok(())),
        plan_step(Step::Done(Err(err))) == Step::<PlanState, PlanEnd>::Done(
            Err((err.fault, err.words@)),
        ),
{
}

} // verus!
