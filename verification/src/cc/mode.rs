//! The modes, and the knobs they are made of.

use vstd::prelude::*;

use crate::cc::error::{CcError, CcFault};
use crate::cc::fsp::{
    KNOB_2, KNOB_34, KNOB_4, KNOB_BAR0_DECOUPLER, KNOB_CCD, KNOB_CCM, KNOB_PPCIE,
};
use crate::cc::rpc::KnobOp;
use crate::text::same_text;

verus! {

/// The three CC modes.
#[derive(Clone, Copy, Debug, PartialEq, Eq, Structural)]
pub enum CcMode {
    /// Confidential computing disabled.
    Off,
    /// Full confidential computing.
    On,
    /// CC with the profiling/debugging interfaces left open.
    DevTools,
}

impl CcMode {
    pub open spec fn text(self) -> Seq<char> {
        match self {
            CcMode::Off => "off"@,
            CcMode::On => "on"@,
            CcMode::DevTools => "devtools"@,
        }
    }

    pub fn to_string(&self) -> (r: String)
        ensures
            r@ == self.text(),
    {
        match self {
            CcMode::Off => "off".to_string(),
            CcMode::On => "on".to_string(),
            CcMode::DevTools => "devtools".to_string(),
        }
    }

    /// The mode that a text names.
    pub fn named(s: &str) -> (r: Result<CcMode, CcError>)
        ensures
            match r {
                Ok(mode) => named_cc_mode(s@) == Some(mode),
                Err(err) => named_cc_mode(s@) is None && err@ == CcFault::NotCcMode(s@),
            },
    {
        if same_text(s, "off") {
            Ok(CcMode::Off)
        } else if same_text(s, "on") {
            Ok(CcMode::On)
        } else if same_text(s, "devtools") {
            Ok(CcMode::DevTools)
        } else {
            Err(CcError::NotCcMode(s.to_string()))
        }
    }
}

/// The CC mode that a text names.
pub open spec fn named_cc_mode(s: Seq<char>) -> Option<CcMode> {
    if s == "off"@ {
        Some(CcMode::Off)
    } else if s == "on"@ {
        Some(CcMode::On)
    } else if s == "devtools"@ {
        Some(CcMode::DevTools)
    } else {
        None
    }
}

impl std::str::FromStr for CcMode {
    type Err = CcError;

    fn from_str(s: &str) -> (r: Result<Self, CcError>)
        ensures
            match r {
                Ok(mode) => named_cc_mode(s@) == Some(mode),
                Err(err) => named_cc_mode(s@) is None && err@ == CcFault::NotCcMode(s@),
            },
    {
        CcMode::named(s)
    }
}

/// Protected PCIe: one mode for a whole HGX baseboard, mutually exclusive
/// with per-GPU CC.
#[derive(Clone, Copy, Debug, PartialEq, Eq, Structural)]
pub enum PpcieMode {
    Off,
    On,
}

impl PpcieMode {
    pub open spec fn text(self) -> Seq<char> {
        match self {
            PpcieMode::Off => "off"@,
            PpcieMode::On => "on"@,
        }
    }

    pub fn to_string(&self) -> (r: String)
        ensures
            r@ == self.text(),
    {
        match self {
            PpcieMode::Off => "off".to_string(),
            PpcieMode::On => "on".to_string(),
        }
    }

    /// The mode that a text names.
    pub fn named(s: &str) -> (r: Result<PpcieMode, CcError>)
        ensures
            match r {
                Ok(mode) => named_ppcie_mode(s@) == Some(mode),
                Err(err) => named_ppcie_mode(s@) is None && err@ == CcFault::NotPpcieMode(s@),
            },
    {
        if same_text(s, "off") {
            Ok(PpcieMode::Off)
        } else if same_text(s, "on") {
            Ok(PpcieMode::On)
        } else {
            Err(CcError::NotPpcieMode(s.to_string()))
        }
    }
}

/// The PPCIE mode that a text names.
pub open spec fn named_ppcie_mode(s: Seq<char>) -> Option<PpcieMode> {
    if s == "off"@ {
        Some(PpcieMode::Off)
    } else if s == "on"@ {
        Some(PpcieMode::On)
    } else {
        None
    }
}

impl std::str::FromStr for PpcieMode {
    type Err = CcError;

    fn from_str(s: &str) -> (r: Result<Self, CcError>)
        ensures
            match r {
                Ok(mode) => named_ppcie_mode(s@) == Some(mode),
                Err(err) => named_ppcie_mode(s@) is None && err@ == CcFault::NotPpcieMode(s@),
            },
    {
        PpcieMode::named(s)
    }
}

/// A CC mode is named by its own text, and by no other.
pub proof fn cc_mode_reads_back(mode: CcMode, s: Seq<char>)
    ensures
        named_cc_mode(s) == Some(mode) <==> s == mode.text(),
{
    reveal_strlit("off");
    reveal_strlit("on");
    reveal_strlit("devtools");
    assert("off"@.len() == 3 && "on"@.len() == 2 && "devtools"@.len() == 8);
}

/// A PPCIE mode is named by its own text, and by no other.
pub proof fn ppcie_mode_reads_back(mode: PpcieMode, s: Seq<char>)
    ensures
        named_ppcie_mode(s) == Some(mode) <==> s == mode.text(),
{
    reveal_strlit("off");
    reveal_strlit("on");
    assert("off"@.len() == 3 && "on"@.len() == 2);
}

// --- Reading a mode ----------------------------------------------------------

/// The CC mode in a state register, bits 1:0; devtools without CC is none.
pub open spec fn cc_state(reg: u32) -> Option<CcMode> {
    if reg & 0x3 == 0x0 {
        Some(CcMode::Off)
    } else if reg & 0x3 == 0x1 {
        Some(CcMode::On)
    } else if reg & 0x3 == 0x3 {
        Some(CcMode::DevTools)
    } else {
        None
    }
}

pub fn cc_mode_in(reg: u32) -> (r: Option<CcMode>)
    ensures
        r == cc_state(reg),
{
    match reg & 0x3 {
        0x0 => Some(CcMode::Off),
        0x1 => Some(CcMode::On),
        0x3 => Some(CcMode::DevTools),
        _ => None,
    }
}

/// The PPCIE mode in a state register: whether all of `bit` is set.
pub open spec fn ppcie_mode_in(reg: u32, bit: u32) -> PpcieMode {
    if reg & bit == bit {
        PpcieMode::On
    } else {
        PpcieMode::Off
    }
}

pub fn ppcie_state(reg: u32, bit: u32) -> (r: PpcieMode)
    ensures
        r == ppcie_mode_in(reg, bit),
{
    if reg & bit == bit {
        PpcieMode::On
    } else {
        PpcieMode::Off
    }
}

// --- Setting a mode ----------------------------------------------------------

/// The PPCIE knob writes for `mode`, in order.
///
/// Knob 34 is cleared unconditionally: it belongs to switches and Hopper, and
/// only those two reach here.  Switches have no BAR0 decoupler, so theirs is
/// only written back to 0.
pub open spec fn ppcie_writes(mode: PpcieMode, bar0_decoupler: bool) -> Seq<(u32, u16)> {
    match mode {
        PpcieMode::On => seq![
            (KNOB_2, 0u16),
            (KNOB_4, 0u16),
            (KNOB_CCD, 0u16),
            (KNOB_CCM, 0u16),
            (KNOB_34, 0u16),
            (KNOB_BAR0_DECOUPLER, if bar0_decoupler { 2u16 } else { 0u16 }),
            (KNOB_PPCIE, 1u16),
        ],
        PpcieMode::Off => seq![(KNOB_BAR0_DECOUPLER, 0u16), (KNOB_PPCIE, 0u16)],
    }
}

pub fn ppcie_knob_plan(mode: PpcieMode, bar0_decoupler: bool) -> (plan: Vec<(u32, u16)>)
    ensures
        plan@ == ppcie_writes(mode, bar0_decoupler),
{
    let mut plan: Vec<(u32, u16)> = Vec::new();
    let on: bool = mode == PpcieMode::On;
    if on {
        plan.push((KNOB_2, 0));
        plan.push((KNOB_4, 0));
        plan.push((KNOB_CCD, 0));
        plan.push((KNOB_CCM, 0));
        plan.push((KNOB_34, 0));
    }
    plan.push((KNOB_BAR0_DECOUPLER, if on && bar0_decoupler { 2 } else { 0 }));
    plan.push((KNOB_PPCIE, if on { 1 } else { 0 }));
    assert(plan@ =~= ppcie_writes(mode, bar0_decoupler));
    plan
}

/// The knob operations that set a PPCIE mode.  Probe first so firmware too
/// old for PPCIE is reported as that, and not as a failure of whichever knob
/// the plan writes first.
pub open spec fn ppcie_ops(mode: PpcieMode, bar0_decoupler: bool) -> Seq<KnobOp> {
    seq![KnobOp::Probe(KNOB_PPCIE)] + ppcie_writes(mode, bar0_decoupler).map_values(
        |w: (u32, u16)| KnobOp::Ensure(w.0, w.1),
    )
}

pub fn ppcie_plan(mode: PpcieMode, bar0_decoupler: bool) -> (plan: Vec<KnobOp>)
    ensures
        plan@ == ppcie_ops(mode, bar0_decoupler),
{
    let writes: Vec<(u32, u16)> = ppcie_knob_plan(mode, bar0_decoupler);
    let mut plan: Vec<KnobOp> = Vec::new();
    plan.push(KnobOp::Probe(KNOB_PPCIE));
    let mut i: usize = 0;
    while i < writes.len()
        invariant
            i <= writes.len(),
            plan@ =~= seq![KnobOp::Probe(KNOB_PPCIE)] + writes@.take(i as int).map_values(
                |w: (u32, u16)| KnobOp::Ensure(w.0, w.1),
            ),
        decreases writes.len() - i,
    {
        let (knob, value): (u32, u16) = writes[i];
        plan.push(KnobOp::Ensure(knob, value));
        i = i + 1;
    }
    assert(writes@.take(i as int) =~= writes@);
    plan
}

/// What a CC mode is made of: CC, devtools, and the Hopper BAR0 filter.
pub open spec fn cc_values(mode: CcMode) -> (u16, u16, u16) {
    match mode {
        CcMode::On => (1, 0, 2),
        CcMode::DevTools => (1, 1, 0),
        CcMode::Off => (0, 0, 0),
    }
}

/// What Hopper has beside the CC knobs: those that conflict with CC are
/// cleared first.  Older firmware has no PPCIE knob.
pub open spec fn hopper_ops(mode: CcMode) -> Seq<KnobOp> {
    let conflicts = if mode == CcMode::Off {
        seq![]
    } else {
        seq![
            KnobOp::Ensure(KNOB_2, 0),
            KnobOp::Ensure(KNOB_4, 0),
            KnobOp::Ensure(KNOB_34, 0),
            KnobOp::ClearIfKnown(KNOB_PPCIE),
        ]
    };
    conflicts + seq![KnobOp::Ensure(KNOB_BAR0_DECOUPLER, cc_values(mode).2)]
}

/// The knob operations that set a CC mode.  CCM goes on first and off last so
/// a CCD-only state (invalid) never exists.
pub open spec fn cc_ops(hopper: bool, mode: CcMode) -> Seq<KnobOp> {
    let (ccm, ccd, _) = cc_values(mode);
    let cc = if mode == CcMode::Off {
        seq![KnobOp::Ensure(KNOB_CCD, ccd), KnobOp::Ensure(KNOB_CCM, ccm)]
    } else {
        seq![KnobOp::Ensure(KNOB_CCM, ccm), KnobOp::Ensure(KNOB_CCD, ccd)]
    };
    if hopper {
        hopper_ops(mode) + cc
    } else {
        cc
    }
}

pub fn cc_plan(hopper: bool, mode: CcMode) -> (plan: Vec<KnobOp>)
    ensures
        plan@ == cc_ops(hopper, mode),
{
    let (ccm, ccd, bar0_decoupler): (u16, u16, u16) = match mode {
        CcMode::On => (1, 0, 2),
        CcMode::DevTools => (1, 1, 0),
        CcMode::Off => (0, 0, 0),
    };
    let mut plan: Vec<KnobOp> = Vec::new();
    if hopper {
        if ccm == 1 {
            plan.push(KnobOp::Ensure(KNOB_2, 0));
            plan.push(KnobOp::Ensure(KNOB_4, 0));
            plan.push(KnobOp::Ensure(KNOB_34, 0));
            plan.push(KnobOp::ClearIfKnown(KNOB_PPCIE));
        }
        plan.push(KnobOp::Ensure(KNOB_BAR0_DECOUPLER, bar0_decoupler));
    }
    if ccm == 1 {
        plan.push(KnobOp::Ensure(KNOB_CCM, ccm));
        plan.push(KnobOp::Ensure(KNOB_CCD, ccd));
    } else {
        plan.push(KnobOp::Ensure(KNOB_CCD, ccd));
        plan.push(KnobOp::Ensure(KNOB_CCM, ccm));
    }
    assert(plan@ =~= cc_ops(hopper, mode));
    plan
}

// --- What the plans keep -----------------------------------------------------

/// The knobs of a device; firmware that predates a knob does not have it.
pub type Knobs = Map<u32, u16>;

/// What a knob operation that goes through leaves the knobs at.
pub open spec fn knobs_after(knobs: Knobs, op: KnobOp) -> Knobs {
    match op {
        KnobOp::Read(_) | KnobOp::Probe(_) => knobs,
        KnobOp::Write(knob, value) | KnobOp::Ensure(knob, value) => knobs.insert(knob, value),
        KnobOp::ClearIfKnown(knob) => if knobs.dom().contains(knob) {
            knobs.insert(knob, 0)
        } else {
            knobs
        },
    }
}

/// What the first `n` operations of a plan leave the knobs at.
pub open spec fn knobs_after_plan(knobs: Knobs, plan: Seq<KnobOp>, n: nat) -> Knobs
    decreases n,
{
    if n == 0 {
        knobs
    } else {
        knobs_after(knobs_after_plan(knobs, plan, (n - 1) as nat), plan[n - 1])
    }
}

/// Devtools without CC: no mode, and refused by the GPU.
pub open spec fn devtools_alone(knobs: Knobs) -> bool {
    &&& knobs.dom().contains(KNOB_CCD) && knobs[KNOB_CCD] != 0
    &&& !(knobs.dom().contains(KNOB_CCM) && knobs[KNOB_CCM] != 0)
}

/// Wherever setting a CC mode is cut short, it has not brought about devtools
/// without CC.
pub proof fn setting_cc_never_leaves_devtools_alone(
    knobs: Knobs,
    hopper: bool,
    mode: CcMode,
    n: nat,
)
    requires
        !devtools_alone(knobs),
        n <= cc_ops(hopper, mode).len(),
    ensures
        !devtools_alone(knobs_after_plan(knobs, cc_ops(hopper, mode), n)),
{
    reveal_with_fuel(knobs_after_plan, 8);
}

/// Wherever setting a PPCIE mode is cut short, it has not brought about
/// devtools without CC.
pub proof fn setting_ppcie_never_leaves_devtools_alone(
    knobs: Knobs,
    mode: PpcieMode,
    bar0_decoupler: bool,
    n: nat,
)
    requires
        !devtools_alone(knobs),
        n <= ppcie_ops(mode, bar0_decoupler).len(),
    ensures
        !devtools_alone(knobs_after_plan(knobs, ppcie_ops(mode, bar0_decoupler), n)),
{
    reveal_with_fuel(knobs_after_plan, 9);
}

/// CC and PPCIE both on: what the firmware refuses.
pub open spec fn cc_and_ppcie(knobs: Knobs) -> bool {
    &&& knobs.dom().contains(KNOB_CCM) && knobs[KNOB_CCM] != 0
    &&& knobs.dom().contains(KNOB_PPCIE) && knobs[KNOB_PPCIE] != 0
}

/// On Hopper, wherever setting a CC mode is cut short, it has not brought
/// about CC and PPCIE at once.
pub proof fn setting_cc_never_joins_ppcie(knobs: Knobs, mode: CcMode, n: nat)
    requires
        !cc_and_ppcie(knobs),
        n <= cc_ops(true, mode).len(),
    ensures
        !cc_and_ppcie(knobs_after_plan(knobs, cc_ops(true, mode), n)),
{
    reveal_with_fuel(knobs_after_plan, 8);
}

/// Wherever setting a PPCIE mode is cut short, it has not brought about CC and
/// PPCIE at once: CC is off before PPCIE goes on.
pub proof fn setting_ppcie_never_joins_cc(
    knobs: Knobs,
    mode: PpcieMode,
    bar0_decoupler: bool,
    n: nat,
)
    requires
        !cc_and_ppcie(knobs),
        n <= ppcie_ops(mode, bar0_decoupler).len(),
    ensures
        !cc_and_ppcie(knobs_after_plan(knobs, ppcie_ops(mode, bar0_decoupler), n)),
{
    reveal_with_fuel(knobs_after_plan, 9);
}

/// Whether a knob has a value.
pub open spec fn knob_is(knobs: Knobs, knob: u32, value: u16) -> bool {
    knobs.dom().contains(knob) && knobs[knob] == value
}

/// Whether a knob is what it was.
pub open spec fn knob_is_kept(before: Knobs, after: Knobs, knob: u32) -> bool {
    &&& after.dom().contains(knob) == before.dom().contains(knob)
    &&& before.dom().contains(knob) ==> after[knob] == before[knob]
}

/// Whether setting a CC mode leaves a knob alone.
pub open spec fn cc_leaves_alone(hopper: bool, mode: CcMode, knob: u32) -> bool {
    &&& knob != KNOB_CCM && knob != KNOB_CCD
    &&& hopper ==> knob != KNOB_BAR0_DECOUPLER
    &&& hopper && mode != CcMode::Off ==> knob != KNOB_2 && knob != KNOB_4 && knob != KNOB_34
        && knob != KNOB_PPCIE
}

/// Whether the knobs say a CC mode that has been set: on Hopper, where CC goes
/// on, what conflicts with it is cleared, PPCIE if there is such a knob; the
/// other knobs are what they were.
pub open spec fn cc_is_set(before: Knobs, after: Knobs, hopper: bool, mode: CcMode) -> bool {
    &&& knob_is(after, KNOB_CCM, cc_values(mode).0)
    &&& knob_is(after, KNOB_CCD, cc_values(mode).1)
    &&& hopper ==> knob_is(after, KNOB_BAR0_DECOUPLER, cc_values(mode).2)
    &&& hopper && mode != CcMode::Off ==> {
        &&& knob_is(after, KNOB_2, 0)
        &&& knob_is(after, KNOB_4, 0)
        &&& knob_is(after, KNOB_34, 0)
        &&& if before.dom().contains(KNOB_PPCIE) {
            knob_is(after, KNOB_PPCIE, 0)
        } else {
            !after.dom().contains(KNOB_PPCIE)
        }
    }
    &&& forall|knob: u32|
        cc_leaves_alone(hopper, mode, knob) ==> #[trigger] knob_is_kept(before, after, knob)
}

/// Whether setting a PPCIE mode leaves a knob alone.
pub open spec fn ppcie_leaves_alone(mode: PpcieMode, knob: u32) -> bool {
    &&& knob != KNOB_PPCIE && knob != KNOB_BAR0_DECOUPLER
    &&& mode == PpcieMode::On ==> knob != KNOB_2 && knob != KNOB_4 && knob != KNOB_34 && knob
        != KNOB_CCM && knob != KNOB_CCD
}

/// Whether the knobs say a PPCIE mode that has been set: switching it on has
/// switched CC off and cleared what conflicts with it; the other knobs are what
/// they were.
pub open spec fn ppcie_is_set(
    before: Knobs,
    after: Knobs,
    mode: PpcieMode,
    bar0_decoupler: bool,
) -> bool {
    let on = mode == PpcieMode::On;
    &&& knob_is(after, KNOB_PPCIE, if on { 1 } else { 0 })
    &&& knob_is(after, KNOB_BAR0_DECOUPLER, if on && bar0_decoupler { 2 } else { 0 })
    &&& on ==> {
        &&& knob_is(after, KNOB_CCM, 0)
        &&& knob_is(after, KNOB_CCD, 0)
        &&& knob_is(after, KNOB_2, 0)
        &&& knob_is(after, KNOB_4, 0)
        &&& knob_is(after, KNOB_34, 0)
    }
    &&& forall|knob: u32|
        ppcie_leaves_alone(mode, knob) ==> #[trigger] knob_is_kept(before, after, knob)
}

/// A CC mode that has been set through is the one the knobs say.
pub proof fn set_cc_mode_is_what_the_knobs_say(knobs: Knobs, hopper: bool, mode: CcMode)
    ensures
        cc_is_set(
            knobs,
            knobs_after_plan(knobs, cc_ops(hopper, mode), cc_ops(hopper, mode).len()),
            hopper,
            mode,
        ),
{
    reveal_with_fuel(knobs_after_plan, 8);
}

/// A PPCIE mode that has been set through is the one the knobs say, its own
/// knob being the last that was written.
pub proof fn set_ppcie_mode_is_what_the_knobs_say(
    knobs: Knobs,
    mode: PpcieMode,
    bar0_decoupler: bool,
)
    ensures
        ({
            let plan = ppcie_ops(mode, bar0_decoupler);
            &&& plan.last() == KnobOp::Ensure(
                KNOB_PPCIE,
                if mode == PpcieMode::On {
                    1
                } else {
                    0
                },
            )
            &&& ppcie_is_set(
                knobs,
                knobs_after_plan(knobs, plan, plan.len()),
                mode,
                bar0_decoupler,
            )
        }),
{
    reveal_with_fuel(knobs_after_plan, 9);
}

// --- What the modes come to --------------------------------------------------

/// The modes by the words that users write; no other word names one.
pub proof fn the_modes_are_called_so(s: Seq<char>)
    ensures
        named_cc_mode(s) == Some(CcMode::Off) <==> s == "off"@,
        named_cc_mode(s) == Some(CcMode::On) <==> s == "on"@,
        named_cc_mode(s) == Some(CcMode::DevTools) <==> s == "devtools"@,
        named_ppcie_mode(s) == Some(PpcieMode::Off) <==> s == "off"@,
        named_ppcie_mode(s) == Some(PpcieMode::On) <==> s == "on"@,
        CcMode::Off.text() == "off"@,
        CcMode::On.text() == "on"@,
        CcMode::DevTools.text() == "devtools"@,
        PpcieMode::Off.text() == "off"@,
        PpcieMode::On.text() == "on"@,
{
    cc_mode_reads_back(CcMode::Off, s);
    cc_mode_reads_back(CcMode::On, s);
    cc_mode_reads_back(CcMode::DevTools, s);
    ppcie_mode_reads_back(PpcieMode::Off, s);
    ppcie_mode_reads_back(PpcieMode::On, s);
}

/// The CC mode stands in the last two bits of a state register: neither is off,
/// the last alone is on, and both are devtools; the second alone is no mode. No
/// other bit matters.
pub proof fn two_bits_tell_the_cc_mode(reg: u32)
    ensures
        cc_state(reg) == Some(CcMode::Off) <==> reg % 4 == 0,
        cc_state(reg) == Some(CcMode::On) <==> reg % 4 == 1,
        cc_state(reg) == Some(CcMode::DevTools) <==> reg % 4 == 3,
        cc_state(reg) is None <==> reg % 4 == 2,
{
    assert(reg & 3 == reg % 4) by (bit_vector);
}

/// The PPCIE mode is one bit of a state register, whatever the others are.
pub proof fn one_bit_tells_the_ppcie_mode(reg: u32)
    ensures
        ppcie_mode_in(reg, 0x20) == PpcieMode::On <==> (reg / 32) % 2 == 1,
        ppcie_mode_in(reg, 0x2) == PpcieMode::On <==> (reg / 2) % 2 == 1,
        ppcie_mode_in(reg, 0x1) == PpcieMode::On <==> reg % 2 == 1,
{
    assert((reg & 0x20 == 0x20u32 <==> (reg / 32) % 2 == 1) && (reg & 0x2 == 0x2u32 <==> (reg / 2)
        % 2 == 1) && (reg & 0x1 == 0x1u32 <==> reg % 2 == 1)) by (bit_vector);
}

/// Setting a CC mode through leaves knob 8 at 1 but for mode off, and knob 6 at 1
/// for devtools only. On Hopper knob 10 is at 2 for mode on only, and CC goes on
/// with knobs 2, 4 and 34 at 0, and 45 too where there is one. No other knob is
/// changed.
pub proof fn a_cc_mode_is_these_knobs(knobs: Knobs, hopper: bool, mode: CcMode, other: u32)
    ensures
        ({
            let plan = cc_ops(hopper, mode);
            let after = knobs_after_plan(knobs, plan, plan.len());
            &&& knob_is(after, 8, if mode == CcMode::Off { 0 } else { 1 })
            &&& knob_is(after, 6, if mode == CcMode::DevTools { 1 } else { 0 })
            &&& hopper ==> knob_is(after, 10, if mode == CcMode::On { 2 } else { 0 })
            &&& hopper && mode != CcMode::Off ==> knob_is(after, 2, 0) && knob_is(after, 4, 0)
                && knob_is(after, 34, 0)
            &&& hopper && mode != CcMode::Off && knobs.dom().contains(45) ==> knob_is(after, 45, 0)
            &&& other != 8 && other != 6 && !(hopper && other == 10) && !(hopper && mode
                != CcMode::Off && (other == 2 || other == 4 || other == 34 || (other == 45
                && knobs.dom().contains(45)))) ==> knob_is_kept(knobs, after, other)
        }),
{
    reveal_with_fuel(knobs_after_plan, 8);
}

/// Setting a PPCIE mode through leaves knob 45 at 1 for mode on only, and knob 10
/// at 2 where the part has a decoupler and the mode is on. It goes on with knobs
/// 2, 4, 6, 8 and 34 at 0. No other knob is changed.
pub proof fn a_ppcie_mode_is_these_knobs(
    knobs: Knobs,
    mode: PpcieMode,
    bar0_decoupler: bool,
    other: u32,
)
    ensures
        ({
            let plan = ppcie_ops(mode, bar0_decoupler);
            let after = knobs_after_plan(knobs, plan, plan.len());
            let on = mode == PpcieMode::On;
            &&& knob_is(after, 45, if on { 1 } else { 0 })
            &&& knob_is(after, 10, if on && bar0_decoupler { 2 } else { 0 })
            &&& on ==> knob_is(after, 2, 0) && knob_is(after, 4, 0) && knob_is(after, 6, 0)
                && knob_is(after, 8, 0) && knob_is(after, 34, 0)
            &&& other != 45 && other != 10 && !(on && (other == 2 || other == 4 || other == 6
                || other == 8 || other == 34)) ==> knob_is_kept(knobs, after, other)
        }),
{
    reveal_with_fuel(knobs_after_plan, 9);
}

/// Wherever setting a mode is cut short, knob 6 is not set without knob 8, and
/// knobs 8 and 45 not both, unless they were before.
pub proof fn no_refused_knobs_on_the_way(
    knobs: Knobs,
    cc: CcMode,
    ppcie: PpcieMode,
    hopper: bool,
    n: nat,
)
    requires
        !(knobs.dom().contains(6) && knobs[6] != 0 && !(knobs.dom().contains(8) && knobs[8] != 0)),
        !(knobs.dom().contains(8) && knobs[8] != 0 && knobs.dom().contains(45) && knobs[45] != 0),
    ensures
        n <= cc_ops(hopper, cc).len() ==> ({
            let after = knobs_after_plan(knobs, cc_ops(hopper, cc), n);
            &&& after.dom().contains(6) && after[6] != 0 ==> after.dom().contains(8) && after[8]
                != 0
            &&& hopper && after.dom().contains(8) && after[8] != 0 ==> !(after.dom().contains(45)
                && after[45] != 0)
        }),
        n <= ppcie_ops(ppcie, hopper).len() ==> ({
            let after = knobs_after_plan(knobs, ppcie_ops(ppcie, hopper), n);
            &&& after.dom().contains(6) && after[6] != 0 ==> after.dom().contains(8) && after[8]
                != 0
            &&& after.dom().contains(8) && after[8] != 0 ==> !(after.dom().contains(45)
                && after[45] != 0)
        }),
{
    if n <= cc_ops(hopper, cc).len() {
        setting_cc_never_leaves_devtools_alone(knobs, hopper, cc, n);
        if hopper {
            setting_cc_never_joins_ppcie(knobs, cc, n);
        }
    }
    if n <= ppcie_ops(ppcie, hopper).len() {
        setting_ppcie_never_leaves_devtools_alone(knobs, ppcie, hopper, n);
        setting_ppcie_never_joins_cc(knobs, ppcie, hopper, n);
    }
}

/// Setting a PPCIE mode asks first whether the firmware knows knob 45, and sets
/// that knob last; a knob of any plan is set only where it has another value.
pub proof fn ppcie_is_asked_for_first(mode: PpcieMode, bar0_decoupler: bool, i: int)
    ensures
        ({
            let plan = ppcie_ops(mode, bar0_decoupler);
            &&& plan[0] == KnobOp::Probe(45)
            &&& plan.last() == KnobOp::Ensure(45, if mode == PpcieMode::On { 1 } else { 0 })
            &&& 1 <= i < plan.len() ==> plan[i] is Ensure
            &&& plan.len() == (if mode == PpcieMode::On { 8int } else { 3int })
        }),
        forall|hopper: bool, cc: CcMode|
            0 <= i < (#[trigger] cc_ops(hopper, cc)).len() ==> cc_ops(hopper, cc)[i] is Ensure
                || cc_ops(hopper, cc)[i] == KnobOp::ClearIfKnown(45),
{
}

} // verus!
