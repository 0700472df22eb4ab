//! What reading and setting a mode comes to, registers to knobs.

use vstd::prelude::*;

use crate::cc::chip::{Chip, Switch};
use crate::cc::error::{CcFault, DeviceFault};
use crate::cc::firmware::{
    firmware_answer, firmware_without_ppcie_is_told_apart, has_cc_knobs, has_ppcie_knobs, knob_run,
    plan_run, setting_a_cc_mode_goes_through, setting_a_ppcie_mode_goes_through,
};
use crate::cc::fsp::{RpcEnd, RpcFault, KNOB_PPCIE, SECOND};
use crate::cc::gpu::{cc_state_register, channel};
use crate::cc::job::{
    bar0_code, boot_code, set_of, switch_boot_code, CcReading, PpcieReading, Reading,
    SetPhaseState, SetState, ALL_ONES, BOOT_COMPLETE_OK, NV_PMC_BOOT_0, PPCIE_STATE_HOPPER,
    PPCIE_STATE_HOPPER_BIT, PPCIE_STATE_SWITCH, PPCIE_STATE_SWITCH_BIT,
};
use crate::cc::mailbox::{
    a_channel_taken_over_is_ready, an_emem_exchange_is_answered, an_mnoc_exchange_is_answered,
    can_be_taken, clock_taken, taken_over, EmemFsp, MnocFsp,
};
use crate::cc::mode::{
    cc_is_set, cc_ops, cc_state, ppcie_is_set, ppcie_mode_in, ppcie_ops, CcMode, Knobs, PpcieMode,
};
use crate::cc::outcome::{
    a_wait_in_vain_times_out, is_deadline, lemma_exchange_outcome, lemma_part, lemma_script_outcome,
    lemma_wait_passed, outcome, Clock,
};
use crate::cc::rpc::{
    exchange_of, knob_of, plan_at, reset_at, ExchangeState, FspRpc, KnobEnd, KnobOp, KnobState,
    PlanEnd, PlanState, ResetPhase, ResetState,
};
use crate::cc::run::{
    a_program_does_what_it_says, carried, exchange_run, lemma_carried_append, script_run, Registers,
};
use crate::cc::script::{script_of, Instr, ScriptEnd, ScriptState, Stop};
use crate::kernel::Step;

verus! {

// --- Reading a mode ----------------------------------------------------------

/// Whether reading a device's registers leaves it as it is.
pub open spec fn is_quiet<D: Registers>(device: D) -> bool {
    forall|register: u32| (#[trigger] device.reading(register)).1 == device
}

/// Whether a GPU has booted: its firewall is down, and its FSP says so.
pub open spec fn has_booted<D: Registers>(chip: Chip, device: D) -> bool {
    &&& chip.hopper || device.reading(NV_PMC_BOOT_0).0 != ALL_ONES
    &&& device.reading(chip.boot_complete).0 == BOOT_COMPLETE_OK
}

proof fn lemma_read_after<D: Registers>(waits: Seq<Instr>, register: u32, device: D)
    requires
        is_quiet(device),
        carried(waits, device) == Some((Seq::<u32>::empty(), device)),
    ensures
        script_run(script_of(waits + seq![Instr::Read(register)]), device) == Some(
            (Ok::<Seq<u32>, Stop>(seq![device.reading(register).0]), device),
        ),
{
    let read = seq![Instr::Read(register)];
    reveal_with_fuel(carried, 2);
    assert(read.drop_first() =~= seq![]);
    assert(device.reading(register).1 == device);
    assert((carried(read, device)->0).0 =~= seq![device.reading(register).0]);
    lemma_carried_append(waits, read, device);
    assert(Seq::<u32>::empty() + seq![device.reading(register).0] =~= seq![
        device.reading(register).0,
    ]);
    a_program_does_what_it_says(waits + read, device);
}

/// Whether reading a register leaves a device as it is.
pub open spec fn is_still<D: Registers>(device: D, register: u32) -> bool {
    device.reading(register).1 == device
}

proof fn lemma_booted<D: Registers>(chip: Chip, device: D)
    requires
        is_still(device, NV_PMC_BOOT_0),
        is_still(device, chip.boot_complete),
        has_booted(chip, device),
    ensures
        carried(boot_code(chip), device) == Some((Seq::<u32>::empty(), device)),
{
    reveal_with_fuel(carried, 3);
    let code = boot_code(chip);
    if chip.hopper {
        assert(bar0_code(chip) =~= seq![]);
        assert(code.drop_first() =~= seq![]);
    } else {
        assert(code.drop_first().drop_first() =~= seq![]);
        assert(code.drop_first()[0] == code[1]);
    }
}

/// A booted GPU is said to run with the CC mode that its state register tells,
/// and devtools without CC is told as what it is.
pub proof fn a_booted_gpu_tells_its_cc_mode<D: Registers>(
    chip: Chip,
    device: D,
    reading: CcReading,
)
    requires
        is_quiet(device),
        has_booted(chip, device),
    ensures
        ({
            let register = cc_state_register(chip);
            let code = boot_code(chip) + seq![Instr::Read(register)];
            &&& script_run(script_of(code), device) matches Some((end, after))
            &&& after == device
            &&& reading.comes_to(end) == match cc_state(device.reading(register).0) {
                Some(mode) => Ok(mode),
                None => Err(CcFault::Device(reading.bdf@, DeviceFault::InvalidCcState)),
            }
        }),
{
    assert(is_still(device, NV_PMC_BOOT_0) && is_still(device, chip.boot_complete));
    lemma_booted(chip, device);
    lemma_read_after(boot_code(chip), cc_state_register(chip), device);
}

/// A booted GPU is said to run with the PPCIE mode that its state register
/// tells.
pub proof fn a_booted_gpu_tells_its_ppcie_mode<D: Registers>(chip: Chip, device: D)
    requires
        is_quiet(device),
        has_booted(chip, device),
    ensures
        ({
            let code = boot_code(chip) + seq![Instr::Read(PPCIE_STATE_HOPPER)];
            &&& script_run(script_of(code), device) matches Some((end, after))
            &&& after == device
            &&& PpcieReading { bit: PPCIE_STATE_HOPPER_BIT }.comes_to(end) == Ok::<
                PpcieMode,
                CcFault,
            >(ppcie_mode_in(device.reading(PPCIE_STATE_HOPPER).0, PPCIE_STATE_HOPPER_BIT))
        }),
{
    assert(is_still(device, NV_PMC_BOOT_0) && is_still(device, chip.boot_complete));
    lemma_booted(chip, device);
    lemma_read_after(boot_code(chip), PPCIE_STATE_HOPPER, device);
}

/// A booted switch is said to run with the PPCIE mode that its state register
/// tells.
pub proof fn a_booted_switch_tells_its_ppcie_mode<D: Registers>(switch: Switch, device: D)
    requires
        is_quiet(device),
        device.reading(switch.boot_complete).0 == BOOT_COMPLETE_OK,
    ensures
        ({
            let code = switch_boot_code(switch) + seq![Instr::Read(PPCIE_STATE_SWITCH)];
            &&& script_run(script_of(code), device) matches Some((end, after))
            &&& after == device
            &&& PpcieReading { bit: PPCIE_STATE_SWITCH_BIT }.comes_to(end) == Ok::<
                PpcieMode,
                CcFault,
            >(ppcie_mode_in(device.reading(PPCIE_STATE_SWITCH).0, PPCIE_STATE_SWITCH_BIT))
        }),
{
    reveal_with_fuel(carried, 2);
    let code = switch_boot_code(switch);
    assert(code.drop_first() =~= seq![]);
    assert(device.reading(switch.boot_complete).1 == device);
    assert(carried(code, device) == Some((Seq::<u32>::empty(), device)));
    lemma_read_after(code, PPCIE_STATE_SWITCH, device);
}

// --- Setting a mode ----------------------------------------------------------

/// Firmware that keeps its knobs, behind a mailbox.
pub trait Fsp: Registers {
    /// The channel that leads to the mailbox.
    spec fn rpc() -> FspRpc;

    spec fn knobs(self) -> Knobs;

    /// What it finds in the upper half of a dword.
    spec fn found(self) -> u16;

    /// Whether the mailbox can be used.
    spec fn ready(self) -> bool;

    /// A command through the mailbox is answered as the firmware does, and the
    /// mailbox can be used again.
    proof fn answers_exchanges(self, payload: Seq<u32>)
        requires
            self.ready(),
            payload.len() + 2 <= 256,
        ensures
            exchange_run(exchange_of(Self::rpc(), payload), self) matches Some((end, after)) && (
            end,
            after.knobs(),
        ) == firmware_answer(self.knobs(), self.found(), payload) && after.found() == self.found()
                && after.ready(),
    ;
}

impl Fsp for EmemFsp {
    open spec fn rpc() -> FspRpc {
        FspRpc::Emem
    }

    open spec fn knobs(self) -> Knobs {
        self.knobs
    }

    open spec fn found(self) -> u16 {
        self.found
    }

    open spec fn ready(self) -> bool {
        self.is_ready()
    }

    proof fn answers_exchanges(self, payload: Seq<u32>) {
        an_emem_exchange_is_answered(self, payload);
    }
}

impl Fsp for MnocFsp {
    open spec fn rpc() -> FspRpc {
        FspRpc::Mnoc
    }

    open spec fn knobs(self) -> Knobs {
        self.knobs
    }

    open spec fn found(self) -> u16 {
        self.found
    }

    open spec fn ready(self) -> bool {
        true
    }

    proof fn answers_exchanges(self, payload: Seq<u32>) {
        an_mnoc_exchange_is_answered(self, payload);
    }
}

/// What a started knob operation comes to on a device, and the device after
/// it; nothing where it has to wait.
pub open spec fn knob_run_on<D: Registers>(state: KnobState, device: D) -> Option<(KnobEnd, D)> {
    match exchange_run(state.exchange, device) {
        None => None,
        Some((first, after)) => match state.exchanged(first) {
            Step::Done(end) => Some((end, after)),
            Step::Next(next) => match exchange_run(next.exchange, after) {
                None => None,
                Some((second, last)) => match next.exchanged(second) {
                    Step::Done(end) => Some((end, last)),
                    Step::Next(_) => None,
                },
            },
        },
    }
}

/// What a plan comes to on a device from its `at`-th operation on, and the
/// device after it; nothing where it has to wait.
pub open spec fn plan_run_on<D: Registers>(
    rpc: FspRpc,
    plan: Seq<KnobOp>,
    at: int,
    device: D,
) -> Option<(PlanEnd, D)>
    decreases plan.len() - at,
{
    let state = plan_at(rpc, plan, at);
    match knob_run_on(state.job, device) {
        None => None,
        Some((end, after)) => match state.turned(end) {
            Step::Done(end) => Some((end, after)),
            Step::Next(next) => if at < next.at <= plan.len() {
                plan_run_on(rpc, plan, next.at, after)
            } else {
                None
            },
        },
    }
}

/// A knob operation through a mailbox comes to what it comes to on the
/// firmware behind it.
pub proof fn a_knob_operation_reaches_the_firmware<F: Fsp>(op: KnobOp, fsp: F)
    requires
        fsp.ready(),
    ensures
        knob_run_on(knob_of(F::rpc(), op), fsp) matches Some((end, after)) && (end, after.knobs())
            == knob_run(knob_of(F::rpc(), op), fsp.knobs(), fsp.found()) && after.found()
            == fsp.found() && after.ready(),
{
    let state = knob_of(F::rpc(), op);
    fsp.answers_exchanges(state.command());
    let (first, after) = exchange_run(state.exchange, fsp)->0;
    if let Step::Next(next) = state.exchanged(first) {
        after.answers_exchanges(next.command());
    }
}

/// A plan through a mailbox comes to what it comes to on the firmware behind
/// it.
pub proof fn a_plan_reaches_the_firmware<F: Fsp>(plan: Seq<KnobOp>, at: int, fsp: F)
    requires
        0 <= at < plan.len(),
        fsp.ready(),
    ensures
        plan_run_on(F::rpc(), plan, at, fsp) matches Some((end, after)) && (end, after.knobs())
            == plan_run(F::rpc(), plan, at, fsp.knobs(), fsp.found()) && after.ready(),
    decreases plan.len() - at,
{
    a_knob_operation_reaches_the_firmware(plan[at], fsp);
    let (_, after) = knob_run_on(knob_of(F::rpc(), plan[at]), fsp)->0;
    if at + 1 < plan.len() {
        a_plan_reaches_the_firmware(plan, at + 1, after);
    }
}

/// The knobs after a plan through a mailbox, if it has gone through.
pub open spec fn knobs_kept<F: Fsp>(plan: Seq<KnobOp>, fsp: F) -> Option<Knobs> {
    match plan_run_on(F::rpc(), plan, 0, fsp) {
        Some((Ok(()), after)) => Some(after.knobs()),
        _ => None,
    }
}

proof fn lemma_knobs_kept<F: Fsp>(plan: Seq<KnobOp>, fsp: F)
    requires
        plan.len() > 0,
        fsp.ready(),
        plan_run(F::rpc(), plan, 0, fsp.knobs(), fsp.found()).0 is Ok,
    ensures
        knobs_kept(plan, fsp) == Some(plan_run(F::rpc(), plan, 0, fsp.knobs(), fsp.found()).1),
{
    a_plan_reaches_the_firmware(plan, 0, fsp);
}

/// Setting a CC mode through the mailbox of a GPU's generation brings that mode
/// about in its firmware.
pub proof fn a_cc_mode_set_is_kept<F: Fsp>(chip: Chip, mode: CcMode, fsp: F)
    requires
        fsp.ready(),
        F::rpc() == channel(chip),
        has_cc_knobs(fsp.knobs(), chip.hopper, mode),
    ensures
        knobs_kept(cc_ops(chip.hopper, mode), fsp) matches Some(knobs) && cc_is_set(
            fsp.knobs(),
            knobs,
            chip.hopper,
            mode,
        ),
{
    let rpc = F::rpc();
    setting_a_cc_mode_goes_through(rpc, chip.hopper, mode, fsp.knobs(), fsp.found());
    lemma_knobs_kept(cc_ops(chip.hopper, mode), fsp);
}

/// Setting a PPCIE mode through the EMEM channel of a GPU or a switch brings
/// that mode about in its firmware.
pub proof fn a_ppcie_mode_set_is_kept(mode: PpcieMode, bar0_decoupler: bool, fsp: EmemFsp)
    requires
        fsp.is_ready(),
        has_ppcie_knobs(fsp.knobs, mode),
    ensures
        knobs_kept(ppcie_ops(mode, bar0_decoupler), fsp) matches Some(knobs) && ppcie_is_set(
            fsp.knobs,
            knobs,
            mode,
            bar0_decoupler,
        ),
{
    setting_a_ppcie_mode_goes_through(mode, bar0_decoupler, fsp.knobs, fsp.found);
    lemma_knobs_kept(ppcie_ops(mode, bar0_decoupler), fsp);
}

// --- From start to end -------------------------------------------------------

/// Whether the wait for a GPU to boot ends: it has booted, or the `k`-th reading
/// of the clock is past the deadline, of the firewall where that is still up.
pub open spec fn boot_ends<D: Registers>(chip: Chip, device: D, clock: Clock, k: int) -> bool {
    let is_up = !chip.hopper && device.reading(NV_PMC_BOOT_0).0 == ALL_ONES;
    &&& is_still(device, NV_PMC_BOOT_0)
    &&& is_still(device, chip.boot_complete)
    &&& has_booted(chip, device) || is_deadline(
        clock,
        k,
        if is_up {
            15 * SECOND
        } else {
            10 * SECOND
        } as u64,
    )
}

/// Whether the wait for a switch to boot ends.
pub open spec fn switch_boot_ends<D: Registers>(
    switch: Switch,
    device: D,
    clock: Clock,
    k: int,
) -> bool {
    &&& is_still(device, switch.boot_complete)
    &&& device.reading(switch.boot_complete).0 == BOOT_COMPLETE_OK || is_deadline(
        clock,
        k,
        (10 * SECOND) as u64,
    )
}

/// The clock after a wait, in which nothing has to be waited for or the `k`-th
/// reading is past the deadline.
pub open spec fn clock_after(at_once: bool, clock: Clock, k: int) -> Clock {
    if at_once {
        clock
    } else {
        clock.skip(k + 1)
    }
}

/// Waiting for a GPU to boot ends, be it at the deadline, and leaves the device
/// as it is.
pub proof fn a_wait_for_boot_ends<D: Registers>(chip: Chip, device: D, clock: Clock, k: int)
    requires
        boot_ends(chip, device, clock, k),
    ensures
        outcome(script_of(boot_code(chip)), device, clock) matches Some((end, after, left))
            && after == device && left == clock_after(has_booted(chip, device), clock, k)
            && (end is Ok <==> has_booted(chip, device)),
{
    let code = boot_code(chip);
    let script = script_of(code);
    if has_booted(chip, device) {
        lemma_booted(chip, device);
        a_program_does_what_it_says(code, device);
        lemma_script_outcome(script, device, clock);
    } else if chip.hopper || device.reading(NV_PMC_BOOT_0).0 == ALL_ONES {
        if chip.hopper {
            assert(bar0_code(chip) =~= seq![]);
        }
        a_wait_in_vain_times_out(script, device, clock, k);
    } else {
        let second = ScriptState { at: 1, ..script };
        assert(code[1] == Instr::Await(code[1]->Await_0));
        a_wait_in_vain_times_out(second, device, clock, k);
        lemma_wait_passed(script, device, clock);
    }
}

/// Waiting for a switch to boot ends, be it at the deadline, and leaves the
/// device as it is.
pub proof fn a_wait_for_a_switch_to_boot_ends<D: Registers>(
    switch: Switch,
    device: D,
    clock: Clock,
    k: int,
)
    requires
        switch_boot_ends(switch, device, clock, k),
    ensures
        ({
            let booted = device.reading(switch.boot_complete).0 == BOOT_COMPLETE_OK;
            outcome(script_of(switch_boot_code(switch)), device, clock) matches Some(
                (end, after, left),
            ) && after == device && left == clock_after(booted, clock, k) && (end is Ok <==> booted)
        }),
{
    let code = switch_boot_code(switch);
    if device.reading(switch.boot_complete).0 == BOOT_COMPLETE_OK {
        reveal_with_fuel(carried, 2);
        assert(code.drop_first() =~= seq![]);
        assert(carried(code, device) == Some((Seq::<u32>::empty(), device)));
        a_program_does_what_it_says(code, device);
        lemma_script_outcome(script_of(code), device, clock);
    } else {
        a_wait_in_vain_times_out(script_of(code), device, clock, k);
    }
}

proof fn lemma_knob_turn<D: Registers>(state: KnobState, device: D, clock: Clock)
    requires
        outcome(state.exchange, device, clock) is Some,
    ensures
        ({
            let (end, after, left) = outcome(state.exchange, device, clock)->0;
            match state.exchanged(end) {
                Step::Done(end) => outcome(state, device, clock) == Some((end, after, left)),
                Step::Next(next) => outcome(next, after, left) is Some ==> outcome(
                    state,
                    device,
                    clock,
                ) == outcome(next, after, left),
            }
        }),
{
    let wrap = |exchange: ExchangeState| KnobState { exchange, ..state };
    let turn = |end: RpcEnd| state.exchanged(end);
    assert(wrap(state.exchange) == state);
    assert forall|exchange: ExchangeState, end: RpcEnd| #[trigger]
        wrap(exchange).exchanged(end) == state.exchanged(end) by {}
    lemma_part(state.exchange, wrap, turn, device, clock);
}

proof fn lemma_knob_outcome<D: Registers>(rpc: FspRpc, op: KnobOp, device: D, clock: Clock)
    requires
        knob_run_on(knob_of(rpc, op), device) is Some,
    ensures
        ({
            let (end, after) = knob_run_on(knob_of(rpc, op), device)->0;
            outcome(knob_of(rpc, op), device, clock) == Some((end, after, clock))
        }),
{
    let state = knob_of(rpc, op);
    let (first, after) = exchange_run(state.exchange, device)->0;
    lemma_exchange_outcome(state.exchange, device, clock);
    if let Step::Next(next) = state.exchanged(first) {
        lemma_exchange_outcome(next.exchange, after, clock);
        lemma_knob_turn(next, after, clock);
    }
    lemma_knob_turn(state, device, clock);
}

proof fn lemma_plan_outcome<D: Registers>(
    rpc: FspRpc,
    plan: Seq<KnobOp>,
    at: int,
    device: D,
    clock: Clock,
)
    requires
        plan_run_on(rpc, plan, at, device) is Some,
    ensures
        ({
            let (end, after) = plan_run_on(rpc, plan, at, device)->0;
            outcome(plan_at(rpc, plan, at), device, clock) == Some((end, after, clock))
        }),
    decreases plan.len() - at,
{
    let state = plan_at(rpc, plan, at);
    let (end, after) = knob_run_on(state.job, device)->0;
    lemma_knob_outcome(rpc, plan[at], device, clock);
    if let Step::Next(next) = state.turned(end) {
        lemma_plan_outcome(rpc, plan, next.at, after, clock);
    }
    let wrap = |job: KnobState| PlanState { job, ..state };
    let turn = |end: KnobEnd| state.turned(end);
    assert(wrap(state.job) == state);
    assert forall|job: KnobState, end: KnobEnd| #[trigger]
        wrap(job).turned(end) == state.turned(end) by {}
    lemma_part(state.job, wrap, turn, device, clock);
}

/// What the setting of a mode comes to, once its plan has come to `end`.
pub open spec fn set_end(set: SetState, end: PlanEnd) -> Result<(), CcFault> {
    match end {
        Ok(()) => Ok(()),
        Err(err) => Err(set.failure(err)),
    }
}

proof fn lemma_set_planned<D: Registers>(set: SetState, rpc: FspRpc, device: D, clock: Clock)
    requires
        set.phase == SetPhaseState::Planning(plan_at(rpc, set.plan, 0)),
        plan_run_on(rpc, set.plan, 0, device) is Some,
    ensures
        ({
            let (end, after) = plan_run_on(rpc, set.plan, 0, device)->0;
            outcome(set, device, clock) == Some((set_end(set, end), after, clock))
        }),
{
    let plan = plan_at(rpc, set.plan, 0);
    lemma_plan_outcome(rpc, set.plan, 0, device, clock);
    let wrap = |job: PlanState| SetState { phase: SetPhaseState::Planning(job), ..set };
    let turn = |end: PlanEnd| Step::<SetState, Result<(), CcFault>>::Done(set_end(set, end));
    assert(wrap(plan) == set);
    assert forall|job: PlanState, err: (RpcFault, Seq<u32>)| #[trigger]
        wrap(job).failure(err) == set.failure(err) by {}
    lemma_part(plan, wrap, turn, device, clock);
}

proof fn lemma_set_booted<D: Registers>(
    set: SetState,
    boot: Seq<Instr>,
    next: SetPhaseState,
    device: D,
    clock: Clock,
)
    requires
        set.phase == SetPhaseState::Booting(script_of(boot)),
        next == match set.rpc {
            FspRpc::Emem => SetPhaseState::Taking(reset_at(ResetPhase::Commands)),
            FspRpc::Mnoc => SetPhaseState::Planning(plan_at(FspRpc::Mnoc, set.plan, 0)),
        },
        outcome(script_of(boot), device, clock) is Some,
    ensures
        ({
            let (_, after, left) = outcome(script_of(boot), device, clock)->0;
            let later = SetState { phase: next, ..set };
            outcome(later, after, left) is Some ==> outcome(set, device, clock) == outcome(
                later,
                after,
                left,
            )
        }),
{
    let wrap = |script: ScriptState| SetState { phase: SetPhaseState::Booting(script), ..set };
    let turn = |end: ScriptEnd|
        Step::<SetState, Result<(), CcFault>>::Next(SetState { phase: next, ..set });
    assert(wrap(script_of(boot)) == set);
    lemma_part(script_of(boot), wrap, turn, device, clock);
}

/// Setting a mode over EMEM comes to what its plan comes to on the firmware
/// behind the channel, whatever a crashed client has left there and whether or
/// not the device has told that it booted.
pub proof fn a_mode_is_set_over_emem(
    bdf: Seq<char>,
    ppcie: bool,
    plan: Seq<KnobOp>,
    boot: Seq<Instr>,
    fsp: EmemFsp,
    clock: Clock,
    k: int,
)
    requires
        plan.len() > 0,
        outcome(script_of(boot), fsp, clock) matches Some((_, after, left)) && after == fsp
            && can_be_taken(fsp, left, k),
    ensures
        ({
            let set = set_of(bdf, ppcie, FspRpc::Emem, plan, boot);
            let (end, knobs) = plan_run(FspRpc::Emem, plan, 0, fsp.knobs, fsp.found);
            outcome(set, fsp, clock) matches Some((told, after, _)) && told == set_end(set, end)
                && after.knobs == knobs && after.is_ready()
        }),
{
    let set = set_of(bdf, ppcie, FspRpc::Emem, plan, boot);
    let (_, _, left) = outcome(script_of(boot), fsp, clock)->0;
    let start = reset_at(ResetPhase::Commands);
    let taking = SetState { phase: SetPhaseState::Taking(start), ..set };
    let ready = taken_over(fsp);
    let last = clock_taken(fsp, left, k);
    let planning = SetState {
        phase: SetPhaseState::Planning(plan_at(FspRpc::Emem, plan, 0)),
        ..set
    };
    a_channel_taken_over_is_ready(fsp, left, k);
    a_plan_reaches_the_firmware(plan, 0, ready);
    lemma_set_planned(planning, FspRpc::Emem, ready, last);
    let wrap = |reset: ResetState| SetState { phase: SetPhaseState::Taking(reset), ..set };
    let turn = |rpc: FspRpc|
        Step::<SetState, Result<(), CcFault>>::Next(
            SetState { phase: SetPhaseState::Planning(plan_at(rpc, plan, 0)), ..set },
        );
    assert(wrap(start) == taking);
    lemma_part(start, wrap, turn, fsp, left);
    lemma_set_booted(set, boot, SetPhaseState::Taking(start), fsp, clock);
}

/// Setting a mode over MNOC comes to what its plan comes to on the firmware
/// behind the mailbox, whether or not the device has told that it booted.
pub proof fn a_mode_is_set_over_mnoc(
    bdf: Seq<char>,
    ppcie: bool,
    plan: Seq<KnobOp>,
    boot: Seq<Instr>,
    fsp: MnocFsp,
    clock: Clock,
)
    requires
        plan.len() > 0,
        outcome(script_of(boot), fsp, clock) matches Some((_, after, _)) && after == fsp,
    ensures
        ({
            let set = set_of(bdf, ppcie, FspRpc::Mnoc, plan, boot);
            let (end, knobs) = plan_run(FspRpc::Mnoc, plan, 0, fsp.knobs, fsp.found);
            outcome(set, fsp, clock) matches Some((told, after, _)) && told == set_end(set, end)
                && after.knobs == knobs
        }),
{
    let set = set_of(bdf, ppcie, FspRpc::Mnoc, plan, boot);
    let (_, _, left) = outcome(script_of(boot), fsp, clock)->0;
    let phase = SetPhaseState::Planning(plan_at(FspRpc::Mnoc, plan, 0));
    a_plan_reaches_the_firmware(plan, 0, fsp);
    lemma_set_planned(SetState { phase, ..set }, FspRpc::Mnoc, fsp, left);
    lemma_set_booted(set, boot, phase, fsp, clock);
}

/// Setting a CC mode on a Hopper GPU, from waiting for it to boot to its last
/// knob, goes through and brings that mode about.
pub proof fn a_cc_mode_is_set_on_hopper(
    bdf: Seq<char>,
    chip: Chip,
    mode: CcMode,
    fsp: EmemFsp,
    clock: Clock,
    j: int,
    k: int,
)
    requires
        chip.hopper,
        has_cc_knobs(fsp.knobs, true, mode),
        boot_ends(chip, fsp, clock, j),
        can_be_taken(fsp, clock_after(has_booted(chip, fsp), clock, j), k),
    ensures
        outcome(
            set_of(bdf, false, channel(chip), cc_ops(chip.hopper, mode), boot_code(chip)),
            fsp,
            clock,
        ) matches Some((end, after, _)) && end == Ok::<(), CcFault>(()) && cc_is_set(
            fsp.knobs,
            after.knobs,
            chip.hopper,
            mode,
        ) && after.is_ready(),
{
    let plan = cc_ops(true, mode);
    a_wait_for_boot_ends(chip, fsp, clock, j);
    setting_a_cc_mode_goes_through(FspRpc::Emem, true, mode, fsp.knobs, fsp.found);
    a_mode_is_set_over_emem(bdf, false, plan, boot_code(chip), fsp, clock, k);
}

/// Setting a CC mode on a Blackwell GPU, from waiting for it to boot to its
/// last knob, goes through and brings that mode about.
pub proof fn a_cc_mode_is_set_on_blackwell(
    bdf: Seq<char>,
    chip: Chip,
    mode: CcMode,
    fsp: MnocFsp,
    clock: Clock,
    j: int,
)
    requires
        !chip.hopper,
        has_cc_knobs(fsp.knobs, false, mode),
        boot_ends(chip, fsp, clock, j),
    ensures
        outcome(
            set_of(bdf, false, channel(chip), cc_ops(chip.hopper, mode), boot_code(chip)),
            fsp,
            clock,
        ) matches Some((end, after, _)) && end == Ok::<(), CcFault>(()) && cc_is_set(
            fsp.knobs,
            after.knobs,
            chip.hopper,
            mode,
        ),
{
    let plan = cc_ops(false, mode);
    a_wait_for_boot_ends(chip, fsp, clock, j);
    setting_a_cc_mode_goes_through(FspRpc::Mnoc, false, mode, fsp.knobs, fsp.found);
    a_mode_is_set_over_mnoc(bdf, false, plan, boot_code(chip), fsp, clock);
}

/// What setting a PPCIE mode comes to: firmware that has the knobs is brought
/// to that mode, and firmware too old for PPCIE is told as that, with its knobs
/// left alone.
pub open spec fn ppcie_comes_to(
    bdf: Seq<char>,
    mode: PpcieMode,
    bar0_decoupler: bool,
    before: Knobs,
    end: Result<(), CcFault>,
    after: Knobs,
) -> bool {
    if before.dom().contains(KNOB_PPCIE) {
        &&& end == Ok::<(), CcFault>(())
        &&& ppcie_is_set(before, after, mode, bar0_decoupler)
    } else {
        &&& end == Err::<(), CcFault>(CcFault::SetPpcie(bdf, (RpcFault::NoPpcie, seq![])))
        &&& after == before
    }
}

proof fn lemma_ppcie_is_set(
    bdf: Seq<char>,
    mode: PpcieMode,
    bar0_decoupler: bool,
    boot: Seq<Instr>,
    fsp: EmemFsp,
    clock: Clock,
    k: int,
)
    requires
        fsp.knobs.dom().contains(KNOB_PPCIE) ==> has_ppcie_knobs(fsp.knobs, mode),
        outcome(script_of(boot), fsp, clock) matches Some((_, after, left)) && after == fsp
            && can_be_taken(fsp, left, k),
    ensures
        outcome(
            set_of(bdf, true, FspRpc::Emem, ppcie_ops(mode, bar0_decoupler), boot),
            fsp,
            clock,
        ) matches Some((end, after, _)) && ppcie_comes_to(
            bdf,
            mode,
            bar0_decoupler,
            fsp.knobs,
            end,
            after.knobs,
        ) && after.is_ready(),
{
    let plan = ppcie_ops(mode, bar0_decoupler);
    if fsp.knobs.dom().contains(KNOB_PPCIE) {
        setting_a_ppcie_mode_goes_through(mode, bar0_decoupler, fsp.knobs, fsp.found);
    } else {
        firmware_without_ppcie_is_told_apart(mode, bar0_decoupler, fsp.knobs, fsp.found);
    }
    a_mode_is_set_over_emem(bdf, true, plan, boot, fsp, clock, k);
}

/// Setting a PPCIE mode on a Hopper GPU, from waiting for it to boot to its last
/// knob, brings that mode about, unless its firmware is too old.
pub proof fn a_ppcie_mode_is_set_on_a_gpu(
    bdf: Seq<char>,
    chip: Chip,
    mode: PpcieMode,
    fsp: EmemFsp,
    clock: Clock,
    j: int,
    k: int,
)
    requires
        fsp.knobs.dom().contains(KNOB_PPCIE) ==> has_ppcie_knobs(fsp.knobs, mode),
        boot_ends(chip, fsp, clock, j),
        can_be_taken(fsp, clock_after(has_booted(chip, fsp), clock, j), k),
    ensures
        outcome(
            set_of(bdf, true, FspRpc::Emem, ppcie_ops(mode, true), boot_code(chip)),
            fsp,
            clock,
        ) matches Some((end, after, _)) && ppcie_comes_to(
            bdf,
            mode,
            true,
            fsp.knobs,
            end,
            after.knobs,
        ) && after.is_ready(),
{
    a_wait_for_boot_ends(chip, fsp, clock, j);
    lemma_ppcie_is_set(bdf, mode, true, boot_code(chip), fsp, clock, k);
}

/// Setting a PPCIE mode on a switch, from waiting for it to boot to its last
/// knob, brings that mode about, unless its firmware is too old.
pub proof fn a_ppcie_mode_is_set_on_a_switch(
    bdf: Seq<char>,
    switch: Switch,
    mode: PpcieMode,
    fsp: EmemFsp,
    clock: Clock,
    j: int,
    k: int,
)
    requires
        fsp.knobs.dom().contains(KNOB_PPCIE) ==> has_ppcie_knobs(fsp.knobs, mode),
        switch_boot_ends(switch, fsp, clock, j),
        can_be_taken(
            fsp,
            clock_after(
                fsp.reading(switch.boot_complete).0 == BOOT_COMPLETE_OK,
                clock,
                j,
            ),
            k,
        ),
    ensures
        outcome(
            set_of(bdf, true, FspRpc::Emem, ppcie_ops(mode, false), switch_boot_code(switch)),
            fsp,
            clock,
        ) matches Some((end, after, _)) && ppcie_comes_to(
            bdf,
            mode,
            false,
            fsp.knobs,
            end,
            after.knobs,
        ) && after.is_ready(),
{
    a_wait_for_a_switch_to_boot_ends(switch, fsp, clock, j);
    lemma_ppcie_is_set(bdf, mode, false, switch_boot_code(switch), fsp, clock, k);
}

} // verus!
