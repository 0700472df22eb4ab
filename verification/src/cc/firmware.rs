//! What comes of knob operations on firmware that keeps its knobs.

use vstd::prelude::*;

use crate::cc::fsp::{
    read_command, write_command, FspError, RpcEnd, RpcFault, INVALID_KNOB, KNOB_2, KNOB_34, KNOB_4,
    KNOB_BAR0_DECOUPLER, KNOB_CCD, KNOB_CCM, KNOB_PPCIE,
};
use crate::cc::mode::{
    cc_is_set, cc_ops, knobs_after, knobs_after_plan, ppcie_is_set, ppcie_ops,
    set_cc_mode_is_what_the_knobs_say, set_ppcie_mode_is_what_the_knobs_say, CcMode, Knobs,
    PpcieMode,
};
use crate::cc::rpc::{knob_of, plan_at, FspRpc, KnobEnd, KnobOp, KnobState, PlanEnd};
use crate::kernel::Step;

verus! {

/// How firmware that keeps its knobs answers a PRC command, and the knobs it
/// is left with.  A knob is asked for in the upper half of the first dword; it
/// is read into the lower half of one, the upper half being left as it was
/// found.
pub open spec fn firmware_answer(knobs: Knobs, found: u16, command: Seq<u32>) -> (RpcEnd, Knobs) {
    let knob = command[0] >> 16;
    if command[0] & 0xff == 0xc {
        if knobs.dom().contains(knob) {
            (Ok(seq![((found as u32) << 16) | (knobs[knob] as u32)]), knobs)
        } else {
            (Err((RpcFault::Completion(FspError { code: INVALID_KNOB }), seq![])), knobs)
        }
    } else {
        (Ok(seq![]), knobs.insert(knob, command[1] as u16))
    }
}

/// What a started knob operation comes to on such firmware, and the knobs it
/// leaves.
pub open spec fn knob_run(state: KnobState, knobs: Knobs, found: u16) -> (KnobEnd, Knobs) {
    let (first, after) = firmware_answer(knobs, found, state.command());
    match state.exchanged(first) {
        Step::Done(end) => (end, after),
        Step::Next(next) => {
            let (second, last) = firmware_answer(after, found, next.command());
            match next.exchanged(second) {
                Step::Done(end) => (end, last),
                Step::Next(_) => (Ok(None), last),
            }
        },
    }
}

/// What a plan comes to on such firmware from its `at`-th operation on, and
/// the knobs it leaves.
pub open spec fn plan_run(
    rpc: FspRpc,
    plan: Seq<KnobOp>,
    at: int,
    knobs: Knobs,
    found: u16,
) -> (PlanEnd, Knobs)
    decreases plan.len() - at,
{
    let state = plan_at(rpc, plan, at);
    let (end, after) = knob_run(state.job, knobs, found);
    match state.turned(end) {
        Step::Done(end) => (end, after),
        Step::Next(next) => if at < next.at <= plan.len() {
            plan_run(rpc, plan, next.at, after, found)
        } else {
            (Ok(()), after)
        },
    }
}

/// The command that reads or writes a knob is understood as that.
pub proof fn commands_name_their_knob(knob: u32, value: u16)
    requires
        knob <= 0xffff,
    ensures
        read_command(knob)[0] >> 16 == knob,
        read_command(knob)[0] & 0xff == 0xc,
        write_command(knob, value)[0] >> 16 == knob,
        write_command(knob, value)[0] & 0xff == 0xd,
        write_command(knob, value)[1] as u16 == value,
{
    assert(knob <= 0xffff ==> (0xc | 0x2u32 << 8 | knob << 16) >> 16 == knob) by (bit_vector);
    assert((0xc | 0x2u32 << 8 | knob << 16) & 0xff == 0xc) by (bit_vector);
    assert(knob <= 0xffff ==> (0xd | 0x2u32 << 8 | knob << 16) >> 16 == knob) by (bit_vector);
    assert((0xd | 0x2u32 << 8 | knob << 16) & 0xff == 0xd) by (bit_vector);
    assert((value as u32) as u16 == value) by (bit_vector);
}

proof fn lemma_low_half(found: u16, value: u16)
    ensures
        (((found as u32) << 16) | (value as u32)) as u16 == value,
{
    assert((((found as u32) << 16) | (value as u32)) as u16 == value) by (bit_vector);
}

/// What each knob operation comes to on firmware that has the knob, whatever
/// it finds in the upper half of a dword.
pub proof fn a_known_knob_is_read_and_written(
    rpc: FspRpc,
    op: KnobOp,
    knobs: Knobs,
    found: u16,
)
    requires
        op.knob() <= 0xffff,
        knobs.dom().contains(op.knob()) || op is Write || op is ClearIfKnown,
    ensures
        knob_run(knob_of(rpc, op), knobs, found).0 == Ok::<Option<u16>, (RpcFault, Seq<u32>)>(
            if op is Read {
                Some(knobs[op.knob()])
            } else {
                None
            },
        ),
        knob_run(knob_of(rpc, op), knobs, found).1 == knobs_after(knobs, op),
{
    commands_name_their_knob(op.knob(), op.value());
    if knobs.dom().contains(op.knob()) {
        lemma_low_half(found, knobs[op.knob()]);
    }
    let state = knob_of(rpc, op);
    let (first, after) = firmware_answer(knobs, found, state.command());
    if op is Ensure || op is ClearIfKnown {
        if knobs.dom().contains(op.knob()) && knobs[op.knob()] == op.value() {
            assert(knobs.insert(op.knob(), op.value()) =~= knobs);
        }
    }
}

/// A knob written reads back, over either channel.
pub proof fn a_knob_written_reads_back(
    rpc: FspRpc,
    knob: u32,
    value: u16,
    knobs: Knobs,
    found: u16,
)
    requires
        knob <= 0xffff,
    ensures
        ({
            let after = knob_run(knob_of(rpc, KnobOp::Write(knob, value)), knobs, found).1;
            knob_run(knob_of(rpc, KnobOp::Read(knob)), after, found).0 == Ok::<
                Option<u16>,
                (RpcFault, Seq<u32>),
            >(Some(value))
        }),
{
    a_known_knob_is_read_and_written(rpc, KnobOp::Write(knob, value), knobs, found);
    let after = knobs.insert(knob, value);
    a_known_knob_is_read_and_written(rpc, KnobOp::Read(knob), after, found);
}

/// A knob that is to have a value is written if and only if it reads another
/// one: knobs live in flash.
pub proof fn a_knob_is_written_only_to_change_it(
    rpc: FspRpc,
    knob: u32,
    value: u16,
    knobs: Knobs,
    found: u16,
)
    requires
        knob <= 0xffff,
        knobs.dom().contains(knob),
    ensures
        ({
            let state = knob_of(rpc, KnobOp::Ensure(knob, value));
            let read = firmware_answer(knobs, found, state.command()).0;
            match state.exchanged(read) {
                Step::Done(_) => knobs[knob] == value,
                Step::Next(next) => knobs[knob] != value && next.command() == write_command(
                    knob,
                    value,
                ),
            }
        }),
{
    commands_name_their_knob(knob, value);
    lemma_low_half(found, knobs[knob]);
}

/// Whether firmware has the knobs that setting a CC mode takes; PPCIE is not
/// among them.
pub open spec fn has_cc_knobs(knobs: Knobs, hopper: bool, mode: CcMode) -> bool {
    &&& knobs.dom().contains(KNOB_CCM)
    &&& knobs.dom().contains(KNOB_CCD)
    &&& hopper ==> knobs.dom().contains(KNOB_BAR0_DECOUPLER)
    &&& hopper && mode != CcMode::Off ==> {
        &&& knobs.dom().contains(KNOB_2)
        &&& knobs.dom().contains(KNOB_4)
        &&& knobs.dom().contains(KNOB_34)
    }
}

/// Whether firmware has the knobs that setting a PPCIE mode takes.
pub open spec fn has_ppcie_knobs(knobs: Knobs, mode: PpcieMode) -> bool {
    &&& knobs.dom().contains(KNOB_PPCIE)
    &&& knobs.dom().contains(KNOB_BAR0_DECOUPLER)
    &&& mode == PpcieMode::On ==> {
        &&& knobs.dom().contains(KNOB_2)
        &&& knobs.dom().contains(KNOB_4)
        &&& knobs.dom().contains(KNOB_34)
        &&& knobs.dom().contains(KNOB_CCM)
        &&& knobs.dom().contains(KNOB_CCD)
    }
}

/// Whether firmware has every knob that a plan cannot do without.
pub open spec fn has_knobs(knobs: Knobs, plan: Seq<KnobOp>) -> bool {
    forall|i: int|
        0 <= i < plan.len() ==> (#[trigger] plan[i]).knob() <= 0xffff && (knobs.dom().contains(
            plan[i].knob(),
        ) || plan[i] is Write || plan[i] is ClearIfKnown)
}

proof fn lemma_knobs_stay(knobs: Knobs, op: KnobOp, knob: u32)
    requires
        knobs.dom().contains(knob),
    ensures
        knobs_after(knobs, op).dom().contains(knob),
{
}

proof fn lemma_plan_run(
    rpc: FspRpc,
    plan: Seq<KnobOp>,
    at: nat,
    start: Knobs,
    found: u16,
)
    requires
        at < plan.len(),
        has_knobs(knobs_after_plan(start, plan, at), plan),
    ensures
        plan_run(rpc, plan, at as int, knobs_after_plan(start, plan, at), found) == (
            Ok::<(), (RpcFault, Seq<u32>)>(()),
            knobs_after_plan(start, plan, plan.len()),
        ),
    decreases plan.len() - at,
{
    let knobs = knobs_after_plan(start, plan, at);
    let op = plan[at as int];
    a_known_knob_is_read_and_written(rpc, op, knobs, found);
    let after = knobs_after_plan(start, plan, at + 1);
    assert(after == knobs_after(knobs, op));
    assert forall|i: int| 0 <= i < plan.len() implies (#[trigger] plan[i]).knob() <= 0xffff && (
    after.dom().contains(plan[i].knob()) || plan[i] is Write || plan[i] is ClearIfKnown) by {
        if knobs.dom().contains(plan[i].knob()) {
            lemma_knobs_stay(knobs, op, plan[i].knob());
        }
    }
    if at + 1 < plan.len() {
        lemma_plan_run(rpc, plan, at + 1, start, found);
    }
}

/// A plan goes through on firmware that has the knobs, and leaves them at what
/// its operations say, one after the other.
pub proof fn a_plan_goes_through(rpc: FspRpc, plan: Seq<KnobOp>, knobs: Knobs, found: u16)
    requires
        plan.len() > 0,
        has_knobs(knobs, plan),
    ensures
        plan_run(rpc, plan, 0, knobs, found) == (
            Ok::<(), (RpcFault, Seq<u32>)>(()),
            knobs_after_plan(knobs, plan, plan.len()),
        ),
{
    assert(knobs_after_plan(knobs, plan, 0) == knobs);
    lemma_plan_run(rpc, plan, 0, knobs, found);
}

/// Setting a CC mode on firmware that has the knobs for it brings that mode
/// about.
pub proof fn setting_a_cc_mode_goes_through(
    rpc: FspRpc,
    hopper: bool,
    mode: CcMode,
    knobs: Knobs,
    found: u16,
)
    requires
        has_cc_knobs(knobs, hopper, mode),
    ensures
        ({
            let (end, after) = plan_run(rpc, cc_ops(hopper, mode), 0, knobs, found);
            end is Ok && cc_is_set(knobs, after, hopper, mode)
        }),
{
    a_plan_goes_through(rpc, cc_ops(hopper, mode), knobs, found);
    set_cc_mode_is_what_the_knobs_say(knobs, hopper, mode);
}

/// Setting a PPCIE mode on firmware that has the knobs for it brings that mode
/// about.
pub proof fn setting_a_ppcie_mode_goes_through(
    mode: PpcieMode,
    bar0_decoupler: bool,
    knobs: Knobs,
    found: u16,
)
    requires
        has_ppcie_knobs(knobs, mode),
    ensures
        ({
            let plan = ppcie_ops(mode, bar0_decoupler);
            let (end, after) = plan_run(FspRpc::Emem, plan, 0, knobs, found);
            end is Ok && ppcie_is_set(knobs, after, mode, bar0_decoupler)
        }),
{
    a_plan_goes_through(FspRpc::Emem, ppcie_ops(mode, bar0_decoupler), knobs, found);
    set_ppcie_mode_is_what_the_knobs_say(knobs, mode, bar0_decoupler);
}

/// On firmware too old for PPCIE, setting it is refused as that, with no knob
/// written.
pub proof fn firmware_without_ppcie_is_told_apart(
    mode: PpcieMode,
    bar0_decoupler: bool,
    knobs: Knobs,
    found: u16,
)
    requires
        !knobs.dom().contains(KNOB_PPCIE),
    ensures
        plan_run(FspRpc::Emem, ppcie_ops(mode, bar0_decoupler), 0, knobs, found) == (
            Err::<(), (RpcFault, Seq<u32>)>((RpcFault::NoPpcie, seq![])),
            knobs,
        ),
{
    commands_name_their_knob(KNOB_PPCIE, 0);
}

} // verus!
