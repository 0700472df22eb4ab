//! The FSP behind either mailbox, and what an exchange with it comes to.

use vstd::prelude::*;

use crate::cc::firmware::firmware_answer;
use crate::cc::fsp::{
    command_queue_empty, emem_dwords, emem_fetch_code, emem_receive_code, emem_rewind,
    emem_send_code, mnoc_credits, mnoc_fetch_code, mnoc_ready, mnoc_receive_code, mnoc_send_code,
    mnoc_words, msg_header, packet, read_times, response_payload, stale_response, write_all,
    RpcFault, EMEMC, EMEMC_AINCR, EMEMC_AINCW, EMEMD, EMEM_BASE, MCTP_HEADER, MNOC_CREDITS, MNOC_ERROR, MNOC_INFO_RECV, MNOC_INFO_SEND,
    MNOC_NEW_MSG, MNOC_RDATA_SEND, MNOC_READY, MNOC_SIZE_MASK, MNOC_WDATA_RECV, MSGQ_HEAD,
    MSGQ_TAIL, NVDM_PRC, NVDM_RESPONSE, QUEUE_HEAD, QUEUE_TAIL,
};
use crate::cc::mode::Knobs;
use crate::cc::outcome::{
    a_wait_in_vain_times_out, is_deadline, lemma_part, lemma_script_outcome, outcome, Clock,
};
use crate::cc::rpc::{
    exchange_code, exchange_of, reset_at, reset_code, FspRpc, ResetPhase, ResetState,
};
use crate::cc::run::{
    a_program_does_what_it_says, carried, exchange_run, lemma_carried_append, script_run, Registers,
};
use crate::cc::script::{script_of, Instr, ScriptEnd, ScriptState, Stop, Way};
use crate::kernel::Step;

verus! {

/// The packet in which firmware answers the PRC command `payload`.
pub open spec fn response_packet(knobs: Knobs, found: u16, payload: Seq<u32>) -> Seq<u32> {
    let header = seq![MCTP_HEADER, msg_header(NVDM_RESPONSE), 0u32, NVDM_PRC];
    match firmware_answer(knobs, found, payload).0 {
        Ok(body) => header + seq![0u32] + body,
        Err((RpcFault::Completion(fsp), _)) => header + seq![fsp.code],
        Err(_) => header,
    }
}

/// The answer in a response packet is the one that firmware gave.
pub proof fn a_response_carries_the_answer(knobs: Knobs, found: u16, payload: Seq<u32>)
    ensures
        response_payload(response_packet(knobs, found, payload)) == firmware_answer(
            knobs,
            found,
            payload,
        ).0,
        5 <= response_packet(knobs, found, payload).len() <= 6,
{
    let response = response_packet(knobs, found, payload);
    assert((0x0010_de7e | 0x15u32 << 24) >> 24 == 0x15) by (bit_vector);
    assert(response[1] == msg_header(NVDM_RESPONSE));
    assert(response[3] == NVDM_PRC);
    match firmware_answer(knobs, found, payload).0 {
        Ok(body) => {
            assert(response.skip(5) =~= body);
        },
        Err(_) => {},
    }
}

// --- EMEM --------------------------------------------------------------------

/// Firmware behind an EMEM channel.
pub struct EmemFsp {
    pub knobs: Knobs,
    /// What it finds in the upper half of a dword.
    pub found: u16,
    /// The channel's window, by dword.
    pub window: Seq<u32>,
    /// The dword that the data port is at.
    pub at: int,
    pub queue_head: u32,
    pub queue_tail: u32,
    pub msgq_head: u32,
    pub msgq_tail: u32,
    /// What the registers beside the channel's read.
    pub others: Map<u32, u32>,
}

impl EmemFsp {
    /// Whether the channel can be used: nothing is queued either way.
    pub open spec fn is_ready(self) -> bool {
        &&& self.window.len() == 256
        &&& self.queue_head == self.queue_tail
        &&& self.msgq_head == self.msgq_tail
    }

    /// The doorbell: the command that tail and head announce is taken out of
    /// the window, and the response is put there.
    pub open spec fn rung(self, head: u32) -> EmemFsp {
        if head == self.queue_tail {
            EmemFsp { queue_head: head, ..self }
        } else {
            let command = self.window.take(emem_dwords(head, self.queue_tail));
            let payload = command.skip(2);
            let response = response_packet(self.knobs, self.found, payload);
            EmemFsp {
                knobs: firmware_answer(self.knobs, self.found, payload).1,
                window: response + self.window.skip(response.len() as int),
                queue_head: head,
                queue_tail: head,
                msgq_head: EMEM_BASE,
                msgq_tail: (EMEM_BASE + (response.len() - 1) * 4) as u32,
                ..self
            }
        }
    }
}

impl Registers for EmemFsp {
    open spec fn reading(self, register: u32) -> (u32, EmemFsp) {
        if register == QUEUE_HEAD {
            (self.queue_head, self)
        } else if register == QUEUE_TAIL {
            (self.queue_tail, self)
        } else if register == MSGQ_HEAD {
            (self.msgq_head, self)
        } else if register == MSGQ_TAIL {
            (self.msgq_tail, self)
        } else if register == EMEMD {
            (self.window[self.at], EmemFsp { at: self.at + 1, ..self })
        } else {
            (self.others[register], self)
        }
    }

    open spec fn written(self, register: u32, value: u32) -> EmemFsp {
        if register == EMEMC {
            EmemFsp { at: ((value & 0x00ff_ffff) - EMEM_BASE) / 4, ..self }
        } else if register == EMEMD {
            EmemFsp { window: self.window.update(self.at, value), at: self.at + 1, ..self }
        } else if register == QUEUE_TAIL {
            EmemFsp { queue_tail: value, ..self }
        } else if register == QUEUE_HEAD {
            self.rung(value)
        } else if register == MSGQ_HEAD {
            EmemFsp { msgq_head: value, ..self }
        } else if register == MSGQ_TAIL {
            EmemFsp { msgq_tail: value, ..self }
        } else {
            self
        }
    }
}

/// `window` with `data` from the `at`-th dword on.
pub open spec fn overwritten(window: Seq<u32>, at: int, data: Seq<u32>) -> Seq<u32> {
    window.take(at) + data + window.skip(at + data.len())
}

proof fn lemma_window_written(fsp: EmemFsp, data: Seq<u32>)
    requires
        0 <= fsp.at,
        fsp.at + data.len() <= fsp.window.len(),
    ensures
        carried(write_all(EMEMD, data), fsp) == Some(
            (
                Seq::<u32>::empty(),
                EmemFsp {
                    window: overwritten(fsp.window, fsp.at, data),
                    at: fsp.at + data.len(),
                    ..fsp
                },
            ),
        ),
    decreases data.len(),
{
    let code = write_all(EMEMD, data);
    if data.len() == 0 {
        assert(overwritten(fsp.window, fsp.at, data) =~= fsp.window);
    } else {
        let rest = data.drop_first();
        let next = fsp.written(EMEMD, data[0]);
        assert(code.drop_first() =~= write_all(EMEMD, rest));
        lemma_window_written(next, rest);
        assert(overwritten(next.window, next.at, rest) =~= overwritten(fsp.window, fsp.at, data));
    }
}

proof fn lemma_window_read(fsp: EmemFsp, n: nat)
    requires
        0 <= fsp.at,
        fsp.at + n <= fsp.window.len(),
    ensures
        carried(read_times(EMEMD, n as int), fsp) == Some(
            (fsp.window.subrange(fsp.at, fsp.at + n), EmemFsp { at: fsp.at + n, ..fsp }),
        ),
    decreases n,
{
    let code = read_times(EMEMD, n as int);
    if n == 0 {
        assert(fsp.window.subrange(fsp.at, fsp.at + n) =~= seq![]);
    } else {
        let (value, next) = fsp.reading(EMEMD);
        assert(code.drop_first() =~= read_times(EMEMD, n - 1));
        lemma_window_read(next, (n - 1) as nat);
        assert(seq![value] + fsp.window.subrange(fsp.at + 1, fsp.at + n) =~= fsp.window.subrange(
            fsp.at,
            fsp.at + n,
        ));
    }
}

proof fn lemma_rewound(fsp: EmemFsp)
    ensures
        fsp.written(EMEMC, EMEM_BASE | EMEMC_AINCW | EMEMC_AINCR) == (EmemFsp { at: 0, ..fsp }),
{
    assert((2048u32 | 0x100_0000 | 0x200_0000) & 0x00ff_ffff == 2048) by (bit_vector);
    assert(1u32 << 24 == 0x100_0000 && 1u32 << 25 == 0x200_0000) by (bit_vector);
}

/// The channel after it has taken a command and put a response in its place.
pub open spec fn emem_answered(fsp: EmemFsp, payload: Seq<u32>) -> EmemFsp {
    let data = packet(NVDM_PRC, payload);
    EmemFsp {
        window: overwritten(fsp.window, 0, data),
        at: data.len() as int,
        queue_tail: (EMEM_BASE + (data.len() - 1) * 4) as u32,
        ..fsp
    }.rung(EMEM_BASE)
}

proof fn lemma_emem_sent(fsp: EmemFsp, payload: Seq<u32>)
    requires
        fsp.is_ready(),
        payload.len() + 2 <= 256,
    ensures
        carried(emem_send_code(packet(NVDM_PRC, payload)), fsp) == Some(
            (Seq::<u32>::empty(), emem_answered(fsp, payload)),
        ),
{
    let data = packet(NVDM_PRC, payload);
    let n = data.len() as int;
    let tail = (EMEM_BASE + (n - 1) * 4) as u32;
    let head = seq![
        Instr::Await(command_queue_empty()),
        emem_rewind(),
    ];
    let bell = seq![Instr::Write(QUEUE_TAIL, tail), Instr::Write(QUEUE_HEAD, EMEM_BASE)];
    let rewound = EmemFsp { at: 0, ..fsp };
    let filled = EmemFsp { window: overwritten(fsp.window, 0, data), at: n, ..fsp };
    reveal_with_fuel(carried, 3);
    lemma_rewound(fsp);
    assert(head.drop_first() =~= seq![emem_rewind()]);
    assert(head.drop_first().drop_first() =~= seq![]);
    assert(carried(head, fsp) == Some((Seq::<u32>::empty(), rewound)));
    lemma_window_written(rewound, data);
    lemma_carried_append(head, write_all(EMEMD, data), fsp);
    assert(Seq::<u32>::empty() + Seq::<u32>::empty() =~= Seq::<u32>::empty());
    assert(bell.drop_first() =~= seq![Instr::Write(QUEUE_HEAD, EMEM_BASE)]);
    assert(bell.drop_first().drop_first() =~= seq![]);
    assert(carried(bell, filled) == Some((Seq::<u32>::empty(), emem_answered(fsp, payload))));
    lemma_carried_append(head + write_all(EMEMD, data), bell, fsp);
}

proof fn lemma_emem_answered(fsp: EmemFsp, payload: Seq<u32>)
    requires
        fsp.is_ready(),
        payload.len() + 2 <= 256,
    ensures
        ({
            let after = emem_answered(fsp, payload);
            let response = response_packet(fsp.knobs, fsp.found, payload);
            &&& after.knobs == firmware_answer(fsp.knobs, fsp.found, payload).1
            &&& after.found == fsp.found
            &&& after.window.len() == 256
            &&& after.window.take(response.len() as int) == response
            &&& after.queue_head == after.queue_tail
            &&& after.msgq_head == EMEM_BASE
            &&& after.msgq_tail == EMEM_BASE + (response.len() - 1) * 4
        }),
{
    let data = packet(NVDM_PRC, payload);
    let n = data.len() as int;
    let tail = (EMEM_BASE + (n - 1) * 4) as u32;
    let window = overwritten(fsp.window, 0, data);
    let response = response_packet(fsp.knobs, fsp.found, payload);
    a_response_carries_the_answer(fsp.knobs, fsp.found, payload);
    assert(tail != EMEM_BASE);
    assert(emem_dwords(EMEM_BASE, tail) == n);
    assert(window.take(n) =~= data);
    assert(data.skip(2) =~= payload);
    let after = emem_answered(fsp, payload);
    assert(after.window =~= response + window.skip(response.len() as int));
    assert(after.window.take(response.len() as int) =~= response);
}

/// The channel after a response has been fetched and acknowledged.
pub open spec fn emem_fetched(fsp: EmemFsp, payload: Seq<u32>) -> EmemFsp {
    let response = response_packet(fsp.knobs, fsp.found, payload);
    EmemFsp {
        at: response.len() as int,
        msgq_tail: EMEM_BASE,
        ..emem_answered(fsp, payload)
    }
}

proof fn lemma_emem_fetched(fsp: EmemFsp, payload: Seq<u32>)
    requires
        fsp.is_ready(),
        payload.len() + 2 <= 256,
    ensures
        ({
            let answered = emem_answered(fsp, payload);
            carried(emem_fetch_code(answered.msgq_head, answered.msgq_tail), answered) == Some(
                (
                    response_packet(fsp.knobs, fsp.found, payload),
                    emem_fetched(fsp, payload),
                ),
            )
        }),
{
    let answered = emem_answered(fsp, payload);
    let response = response_packet(fsp.knobs, fsp.found, payload);
    let n = response.len();
    lemma_emem_answered(fsp, payload);
    a_response_carries_the_answer(fsp.knobs, fsp.found, payload);
    let (head, tail) = (answered.msgq_head, answered.msgq_tail);
    assert(emem_dwords(head, tail) == n);
    reveal_with_fuel(carried, 2);
    lemma_rewound(answered);
    let rewound = EmemFsp { at: 0, ..answered };
    let start = seq![emem_rewind()];
    let reads = read_times(EMEMD, n as int);
    let ack = seq![Instr::Write(MSGQ_TAIL, head)];
    assert(start.drop_first() =~= seq![]);
    assert(carried(start, answered) == Some((Seq::<u32>::empty(), rewound)));
    lemma_window_read(rewound, n);
    assert(answered.window.subrange(0, n as int) =~= response);
    lemma_carried_append(start, reads, answered);
    assert(Seq::<u32>::empty() + response =~= response);
    assert(ack.drop_first() =~= seq![]);
    let read = EmemFsp { at: n as int, ..answered };
    assert(carried(ack, read) == Some((Seq::<u32>::empty(), emem_fetched(fsp, payload))));
    lemma_carried_append(start + reads, ack, answered);
    assert(response + Seq::<u32>::empty() =~= response);
}

/// An exchange over a ready EMEM channel comes to what firmware answers, with
/// the knobs as that leaves them; and the channel is ready again.
pub proof fn an_emem_exchange_is_answered(fsp: EmemFsp, payload: Seq<u32>)
    requires
        fsp.is_ready(),
        payload.len() + 2 <= 256,
    ensures
        exchange_run(exchange_of(FspRpc::Emem, payload), fsp) == Some(
            (
                firmware_answer(fsp.knobs, fsp.found, payload).0,
                emem_fetched(fsp, payload),
            ),
        ),
        emem_fetched(fsp, payload).knobs == firmware_answer(fsp.knobs, fsp.found, payload).1,
        emem_fetched(fsp, payload).is_ready(),
{
    let data = packet(NVDM_PRC, payload);
    let answered = emem_answered(fsp, payload);
    let (head, tail) = (answered.msgq_head, answered.msgq_tail);
    let response = response_packet(fsp.knobs, fsp.found, payload);
    let receive = emem_receive_code();
    lemma_emem_sent(fsp, payload);
    lemma_emem_answered(fsp, payload);
    a_response_carries_the_answer(fsp.knobs, fsp.found, payload);
    reveal_with_fuel(carried, 4);
    assert(receive.drop_first() =~= seq![Instr::Read(MSGQ_HEAD), Instr::Read(MSGQ_TAIL)]);
    assert(receive.drop_first().drop_first() =~= seq![Instr::Read(MSGQ_TAIL)]);
    assert(receive.drop_first().drop_first().drop_first() =~= seq![]);
    let places = (carried(receive, answered)->0).0;
    assert(places =~= seq![head, tail]);
    lemma_carried_append(emem_send_code(data), receive, fsp);
    assert(Seq::<u32>::empty() + places =~= places);
    a_program_does_what_it_says(exchange_code(FspRpc::Emem, data), fsp);
    lemma_emem_fetched(fsp, payload);
    a_program_does_what_it_says(emem_fetch_code(head, tail), answered);
    assert(emem_dwords(head, tail) == response.len());
}

proof fn lemma_reset_turn<D: Registers>(phase: ResetPhase, device: D, clock: Clock)
    requires
        outcome(reset_at(phase).script, device, clock) is Some,
    ensures
        ({
            let (end, after, left) = outcome(reset_at(phase).script, device, clock)->0;
            match ResetState::turn(phase, end) {
                Step::Done(rpc) => outcome(reset_at(phase), device, clock) == Some(
                    (rpc, after, left),
                ),
                Step::Next(next) => outcome(next, after, left) is Some ==> outcome(
                    reset_at(phase),
                    device,
                    clock,
                ) == outcome(next, after, left),
            }
        }),
{
    let wrap = |script: ScriptState| ResetState { phase, script };
    let turn = |end: ScriptEnd| ResetState::turn(phase, end);
    assert(wrap(reset_at(phase).script) == reset_at(phase));
    lemma_part(reset_at(phase).script, wrap, turn, device, clock);
}

proof fn lemma_queues_read(fsp: EmemFsp)
    ensures
        script_run(reset_at(ResetPhase::Commands).script, fsp) == Some(
            (Ok::<Seq<u32>, Stop>(seq![fsp.queue_head, fsp.queue_tail]), fsp),
        ),
        script_run(reset_at(ResetPhase::Messages).script, fsp) == Some(
            (Ok::<Seq<u32>, Stop>(seq![fsp.msgq_head, fsp.msgq_tail]), fsp),
        ),
{
    reveal_with_fuel(carried, 3);
    let commands = reset_code(ResetPhase::Commands);
    let messages = reset_code(ResetPhase::Messages);
    assert(commands.drop_first() =~= seq![Instr::Read(QUEUE_TAIL)]);
    assert(commands.drop_first().drop_first() =~= seq![]);
    assert(messages.drop_first() =~= seq![Instr::Read(MSGQ_TAIL)]);
    assert(messages.drop_first().drop_first() =~= seq![]);
    a_program_does_what_it_says(commands, fsp);
    a_program_does_what_it_says(messages, fsp);
    assert((carried(commands, fsp)->0).0 =~= seq![fsp.queue_head, fsp.queue_tail]);
    assert((carried(messages, fsp)->0).0 =~= seq![fsp.msgq_head, fsp.msgq_tail]);
}

/// The channel with both its queues pointed back at its base.
pub open spec fn emem_rewound(fsp: EmemFsp) -> EmemFsp {
    EmemFsp {
        queue_head: EMEM_BASE,
        queue_tail: EMEM_BASE,
        msgq_head: EMEM_BASE,
        msgq_tail: EMEM_BASE,
        ..fsp
    }
}

proof fn lemma_queues_rewound(fsp: EmemFsp, clock: Clock)
    ensures
        outcome(reset_at(ResetPhase::Rewinding), fsp, clock) == Some(
            (FspRpc::Emem, emem_rewound(fsp), clock),
        ),
{
    reveal_with_fuel(carried, 5);
    let code = reset_code(ResetPhase::Rewinding);
    let rest = code.drop_first();
    assert(rest =~= seq![
        Instr::Write(QUEUE_HEAD, EMEM_BASE),
        Instr::Write(MSGQ_TAIL, EMEM_BASE),
        Instr::Write(MSGQ_HEAD, EMEM_BASE),
    ]);
    assert(rest.drop_first() =~= seq![
        Instr::Write(MSGQ_TAIL, EMEM_BASE),
        Instr::Write(MSGQ_HEAD, EMEM_BASE),
    ]);
    assert(rest.drop_first().drop_first() =~= seq![Instr::Write(MSGQ_HEAD, EMEM_BASE)]);
    assert(rest.drop_first().drop_first().drop_first() =~= seq![]);
    assert(carried(code, fsp) == Some((Seq::<u32>::empty(), emem_rewound(fsp))));
    a_program_does_what_it_says(code, fsp);
    lemma_script_outcome(script_of(code), fsp, clock);
    lemma_reset_turn(ResetPhase::Rewinding, fsp, clock);
}

/// Whether the channel need not be waited for: its queues are empty, or the
/// response to the last command is there.
pub open spec fn is_at_rest(fsp: EmemFsp) -> bool {
    fsp.is_ready() || fsp.msgq_head != fsp.msgq_tail
}

/// Whether the channel can be taken over by a clock: where a command is in
/// flight whose response is not there, it is waited for in vain, and the `k`-th
/// reading is past the deadline.
pub open spec fn can_be_taken(fsp: EmemFsp, clock: Clock, k: int) -> bool {
    &&& fsp.window.len() == 256
    &&& is_at_rest(fsp) || is_deadline(clock, k, stale_response().timeout)
}

/// The channel once it has been taken over: queues that are both empty are left
/// alone.
pub open spec fn taken_over(fsp: EmemFsp) -> EmemFsp {
    if fsp.is_ready() {
        fsp
    } else {
        emem_rewound(fsp)
    }
}

/// The clock once the channel has been taken over.
pub open spec fn clock_taken(fsp: EmemFsp, clock: Clock, k: int) -> Clock {
    if is_at_rest(fsp) {
        clock
    } else {
        clock.skip(k + 1)
    }
}

proof fn lemma_queues_drained(fsp: EmemFsp, clock: Clock, k: int)
    requires
        can_be_taken(fsp, clock, k),
        !fsp.is_ready(),
    ensures
        outcome(reset_at(ResetPhase::Draining), fsp, clock) == Some(
            (FspRpc::Emem, emem_rewound(fsp), clock_taken(fsp, clock, k)),
        ),
{
    let code = reset_code(ResetPhase::Draining);
    if fsp.msgq_head != fsp.msgq_tail {
        reveal_with_fuel(carried, 2);
        assert(code.drop_first() =~= seq![]);
        assert(carried(code, fsp) == Some((Seq::<u32>::empty(), fsp)));
        a_program_does_what_it_says(code, fsp);
        lemma_script_outcome(script_of(code), fsp, clock);
    } else {
        a_wait_in_vain_times_out(script_of(code), fsp, clock, k);
    }
    lemma_reset_turn(ResetPhase::Draining, fsp, clock);
    lemma_queues_rewound(fsp, clock_taken(fsp, clock, k));
}

/// Taking over a channel readies it, whatever a crashed client has left in its
/// queues: queues that are empty are left alone, a response that is still there
/// is dropped, and a command in flight is given up once its response has been
/// waited for in vain.  The knobs are left alone.
pub proof fn a_channel_taken_over_is_ready(fsp: EmemFsp, clock: Clock, k: int)
    requires
        can_be_taken(fsp, clock, k),
    ensures
        outcome(reset_at(ResetPhase::Commands), fsp, clock) == Some(
            (FspRpc::Emem, taken_over(fsp), clock_taken(fsp, clock, k)),
        ),
        taken_over(fsp).is_ready(),
        taken_over(fsp).knobs == fsp.knobs,
        taken_over(fsp).found == fsp.found,
        !fsp.is_ready() ==> taken_over(fsp) == emem_rewound(fsp),
{
    lemma_queues_read(fsp);
    let commands = seq![fsp.queue_head, fsp.queue_tail];
    let messages = seq![fsp.msgq_head, fsp.msgq_tail];
    assert(commands[0] == fsp.queue_head && commands[1] == fsp.queue_tail);
    assert(messages[0] == fsp.msgq_head && messages[1] == fsp.msgq_tail);
    lemma_script_outcome(reset_at(ResetPhase::Commands).script, fsp, clock);
    lemma_script_outcome(reset_at(ResetPhase::Messages).script, fsp, clock);
    if !fsp.is_ready() {
        lemma_queues_drained(fsp, clock, k);
    }
    lemma_reset_turn(ResetPhase::Messages, fsp, clock);
    lemma_reset_turn(ResetPhase::Commands, fsp, clock);
}

// --- MNOC --------------------------------------------------------------------

/// Firmware behind the MNOC mailbox.
pub struct MnocFsp {
    pub knobs: Knobs,
    /// What it finds in the upper half of a dword.
    pub found: u16,
    /// How many dwords of a command are announced.
    pub expected: int,
    /// Those that have come.
    pub command: Seq<u32>,
    /// The response, as far as it has not been read.
    pub response: Seq<u32>,
    /// What the status of the sending mailbox reads.
    pub info: u32,
    /// What the registers beside the mailbox's read.
    pub others: Map<u32, u32>,
}

/// The status of a mailbox that has `n` dwords to hand over.
pub open spec fn mnoc_info(n: nat) -> u32 {
    MNOC_READY | (n * 4) as u32
}

impl MnocFsp {
    /// One more dword of a command; the last one has it answered.
    pub open spec fn pushed(self, value: u32) -> MnocFsp {
        let command = self.command.push(value);
        if command.len() == self.expected {
            let payload = command.skip(2);
            let response = response_packet(self.knobs, self.found, payload);
            MnocFsp {
                knobs: firmware_answer(self.knobs, self.found, payload).1,
                command: seq![],
                response,
                info: mnoc_info(response.len()),
                ..self
            }
        } else {
            MnocFsp { command, ..self }
        }
    }
}

impl Registers for MnocFsp {
    open spec fn reading(self, register: u32) -> (u32, MnocFsp) {
        if register == MNOC_INFO_RECV {
            (MNOC_READY | MNOC_CREDITS, self)
        } else if register == MNOC_INFO_SEND {
            (self.info, self)
        } else if register == MNOC_RDATA_SEND {
            (self.response[0], MnocFsp { response: self.response.drop_first(), ..self })
        } else {
            (self.others[register], self)
        }
    }

    open spec fn written(self, register: u32, value: u32) -> MnocFsp {
        if register == MNOC_INFO_RECV {
            MnocFsp { expected: ((value & MNOC_SIZE_MASK) / 4) as int, command: seq![], ..self }
        } else if register == MNOC_WDATA_RECV {
            self.pushed(value)
        } else {
            self
        }
    }
}

proof fn lemma_mnoc_bits()
    ensures
        (MNOC_READY | MNOC_CREDITS) & MNOC_READY != 0,
        (MNOC_READY | MNOC_CREDITS) & MNOC_CREDITS != 0,
        (MNOC_READY | MNOC_CREDITS) & MNOC_ERROR == 0,
{
    assert((1u32 << 24 | 1u32 << 26) & (1u32 << 24) != 0) by (bit_vector);
    assert((1u32 << 24 | 1u32 << 26) & (1u32 << 26) != 0) by (bit_vector);
    assert((1u32 << 24 | 1u32 << 26) & (1u32 << 25) == 0) by (bit_vector);
}

proof fn lemma_mnoc_info(n: nat)
    requires
        n <= 256,
    ensures
        mnoc_info(n) & MNOC_READY != 0,
        mnoc_info(n) & MNOC_ERROR == 0,
        mnoc_info(n) & MNOC_SIZE_MASK == n * 4,
{
    let bytes = (n * 4) as u32;
    assert(bytes <= 1024 ==> (1u32 << 24 | bytes) & (1u32 << 24) != 0) by (bit_vector);
    assert(bytes <= 1024 ==> (1u32 << 24 | bytes) & (1u32 << 25) == 0) by (bit_vector);
    assert(bytes <= 1024 ==> (1u32 << 24 | bytes) & 0xfffff == bytes) by (bit_vector);
}

proof fn lemma_mnoc_announced(n: nat)
    requires
        n <= 256,
    ensures
        ((n * 4) as u32 | MNOC_NEW_MSG) & MNOC_SIZE_MASK == n * 4,
{
    let bytes = (n * 4) as u32;
    assert(bytes <= 1024 ==> (bytes | 1u32 << 20) & 0xfffff == bytes) by (bit_vector);
}

/// The mailbox after all but the last dword of a command.
proof fn lemma_mnoc_words(fsp: MnocFsp, data: Seq<u32>)
    requires
        fsp.command.len() == 0,
        data.len() <= fsp.expected,
    ensures
        carried(mnoc_words(data), fsp) == Some(
            (
                Seq::<u32>::empty(),
                if data.len() == 0 {
                    fsp
                } else {
                    MnocFsp { command: data.drop_last(), ..fsp }.pushed(data.last())
                },
            ),
        ),
    decreases data.len(),
{
    if data.len() > 0 {
        let front = data.drop_last();
        let write = Instr::Write(MNOC_WDATA_RECV, data.last());
        let waits = mnoc_words(front);
        lemma_mnoc_words(fsp, front);
        let mid = MnocFsp { command: front, ..fsp };
        if front.len() == 0 {
            assert(front =~= fsp.command);
        } else {
            assert(front.drop_last().push(front.last()) =~= front);
        }
        assert(carried(waits, fsp) == Some((Seq::<u32>::empty(), mid)));
        reveal_with_fuel(carried, 3);
        lemma_mnoc_bits();
        let more = if (data.len() - 1) % 16 == 0 {
            seq![Instr::Await(mnoc_credits()), write]
        } else {
            seq![write]
        };
        assert(seq![Instr::Await(mnoc_credits()), write].drop_first() =~= seq![write]);
        assert(seq![write].drop_first() =~= seq![]);
        assert(carried(more, mid) == Some((Seq::<u32>::empty(), mid.pushed(data.last()))));
        assert(mnoc_words(data) =~= waits + more);
        lemma_carried_append(waits, more, fsp);
        assert(Seq::<u32>::empty() + Seq::<u32>::empty() =~= Seq::<u32>::empty());
    }
}

/// The mailbox after it has taken a command.
pub open spec fn mnoc_answered(fsp: MnocFsp, payload: Seq<u32>) -> MnocFsp {
    let response = response_packet(fsp.knobs, fsp.found, payload);
    MnocFsp {
        knobs: firmware_answer(fsp.knobs, fsp.found, payload).1,
        found: fsp.found,
        expected: (payload.len() + 2) as int,
        command: seq![],
        response,
        info: mnoc_info(response.len()),
        others: fsp.others,
    }
}

proof fn lemma_mnoc_sent(fsp: MnocFsp, payload: Seq<u32>)
    requires
        payload.len() + 2 <= 256,
    ensures
        carried(mnoc_send_code(packet(NVDM_PRC, payload)), fsp) == Some(
            (Seq::<u32>::empty(), mnoc_answered(fsp, payload)),
        ),
{
    let data = packet(NVDM_PRC, payload);
    let n = data.len();
    let announce = Instr::Write(MNOC_INFO_RECV, (n * 4) as u32 | MNOC_NEW_MSG);
    let start = seq![Instr::Await(mnoc_ready()), announce];
    let check = seq![
        Instr::Clear(MNOC_INFO_RECV, MNOC_ERROR, Way::Send),
    ];
    let announced = MnocFsp { expected: n as int, command: seq![], ..fsp };
    reveal_with_fuel(carried, 3);
    lemma_mnoc_bits();
    lemma_mnoc_announced(n);
    assert(start.drop_first() =~= seq![announce]);
    assert(start.drop_first().drop_first() =~= seq![]);
    assert(carried(start, fsp) == Some((Seq::<u32>::empty(), announced)));
    lemma_mnoc_words(announced, data);
    let last = MnocFsp { command: data.drop_last(), ..announced };
    assert(data.drop_last().push(data.last()) =~= data);
    assert(data.skip(2) =~= payload);
    assert(last.pushed(data.last()) == mnoc_answered(fsp, payload));
    lemma_carried_append(start, mnoc_words(data), fsp);
    assert(Seq::<u32>::empty() + Seq::<u32>::empty() =~= Seq::<u32>::empty());
    assert(check.drop_first() =~= seq![]);
    lemma_carried_append(start + mnoc_words(data), check, fsp);
}

proof fn lemma_mnoc_read(fsp: MnocFsp, n: nat)
    requires
        n <= fsp.response.len(),
    ensures
        carried(read_times(MNOC_RDATA_SEND, n as int), fsp) == Some(
            (
                fsp.response.take(n as int),
                MnocFsp { response: fsp.response.skip(n as int), ..fsp },
            ),
        ),
    decreases n,
{
    let code = read_times(MNOC_RDATA_SEND, n as int);
    if n == 0 {
        assert(fsp.response.take(0) =~= seq![]);
        assert(fsp.response.skip(0) =~= fsp.response);
    } else {
        let (value, next) = fsp.reading(MNOC_RDATA_SEND);
        assert(code.drop_first() =~= read_times(MNOC_RDATA_SEND, n - 1));
        lemma_mnoc_read(next, (n - 1) as nat);
        assert(seq![value] + next.response.take(n - 1) =~= fsp.response.take(n as int));
        assert(next.response.skip(n - 1) =~= fsp.response.skip(n as int));
    }
}

/// An exchange over the MNOC mailbox comes to what firmware answers, with the
/// knobs as that leaves them and the response read to its end.
pub proof fn an_mnoc_exchange_is_answered(fsp: MnocFsp, payload: Seq<u32>)
    requires
        payload.len() + 2 <= 256,
    ensures
        exchange_run(exchange_of(FspRpc::Mnoc, payload), fsp) == Some(
            (
                firmware_answer(fsp.knobs, fsp.found, payload).0,
                MnocFsp { response: seq![], ..mnoc_answered(fsp, payload) },
            ),
        ),
        mnoc_answered(fsp, payload).knobs == firmware_answer(fsp.knobs, fsp.found, payload).1,
{
    let data = packet(NVDM_PRC, payload);
    let answered = mnoc_answered(fsp, payload);
    let response = answered.response;
    let info = answered.info;
    let receive = mnoc_receive_code();
    lemma_mnoc_sent(fsp, payload);
    a_response_carries_the_answer(fsp.knobs, fsp.found, payload);
    lemma_mnoc_info(response.len());
    reveal_with_fuel(carried, 3);
    assert(receive.drop_first() =~= seq![Instr::Read(MNOC_INFO_SEND)]);
    assert(receive.drop_first().drop_first() =~= seq![]);
    let places = (carried(receive, answered)->0).0;
    assert(places =~= seq![info]);
    lemma_carried_append(mnoc_send_code(data), receive, fsp);
    assert(Seq::<u32>::empty() + places =~= places);
    a_program_does_what_it_says(exchange_code(FspRpc::Mnoc, data), fsp);
    let reads = read_times(MNOC_RDATA_SEND, response.len() as int);
    let check = seq![
        Instr::Clear(MNOC_INFO_SEND, MNOC_ERROR, Way::Receive),
    ];
    lemma_mnoc_read(answered, response.len());
    assert(response.take(response.len() as int) =~= response);
    assert(response.skip(response.len() as int) =~= seq![]);
    let drained = MnocFsp { response: seq![], ..answered };
    assert(check.drop_first() =~= seq![]);
    assert(carried(check, drained) == Some((Seq::<u32>::empty(), drained)));
    lemma_carried_append(reads, check, answered);
    assert(response + Seq::<u32>::empty() =~= response);
    assert(mnoc_fetch_code(info) =~= reads + check);
    a_program_does_what_it_says(mnoc_fetch_code(info), answered);
}

} // verus!
